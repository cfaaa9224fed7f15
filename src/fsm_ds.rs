//! Session records of the peer state machine (RFC 4271 8): state, counters,
//! timers and the mandatory event alphabet.
use vstd::prelude::*;
use crate::errors::NotifErrorCode;
use crate::octets::IpAddress;

verus! {

pub const DEFAULT_HOLD_TIME: usize = 90;
pub const DEFAULT_KEEPALIVE_TIME: usize = 30;
pub const DEFAULT_CONNECT_RETRY_TIME: usize = 120;

#[derive(Debug, Clone, Copy, PartialEq, Eq, Structural)]
pub enum State {
    Idle,
    Connect,
    Active,
    OpenSent,
    OpenConfirm,
    Established,
}

/// Mandatory input events (RFC 4271 8.1).
#[derive(Debug, Clone, Copy, PartialEq, Eq, Structural)]
pub enum FsmEvent {
    ManualStart,
    ManualStop,
    ConnectRetryTimerExpires,
    HoldTimerExpires,
    KeepaliveTimerExpires,
    TcpCrAcked,
    TcpConnectionConfirmed,
    TcpConnectionFails,
    BGPOpen,
    BGPHeaderErr,
    BGPOpenMsgErr,
    NotifMsgVerErr,
    NotifMsg,
    KeepAliveMsg,
    UpdateMsg,
    UpdateMsgErr,
}

/// Session variables of one peer.
pub struct PeerSession {
    state: State,
    connect_retry_ctr: usize,
    connect_retry_timer: usize,
    connect_retry_time: usize,
    hold_timer: usize,
    hold_time: usize,
    keepalive_timer: usize,
    keepalive_time: usize,
}

/// The session variables as plain values.
pub struct SessionModel {
    pub state: State,
    pub connect_retry_ctr: usize,
    pub connect_retry_timer: usize,
    pub connect_retry_time: usize,
    pub hold_timer: usize,
    pub hold_time: usize,
    pub keepalive_timer: usize,
    pub keepalive_time: usize,
}

impl View for PeerSession {
    type V = SessionModel;

    closed spec fn view(&self) -> SessionModel {
        SessionModel {
            state: self.state,
            connect_retry_ctr: self.connect_retry_ctr,
            connect_retry_timer: self.connect_retry_timer,
            connect_retry_time: self.connect_retry_time,
            hold_timer: self.hold_timer,
            hold_time: self.hold_time,
            keepalive_timer: self.keepalive_timer,
            keepalive_time: self.keepalive_time,
        }
    }
}

impl PeerSession {
    pub fn reset_connect_retry_ctr(&mut self)
        ensures
            final(self)@ == (SessionModel { connect_retry_ctr: 0, ..old(self)@ }),
    {
        self.connect_retry_ctr = 0;
    }

    pub fn reset_connect_retry_timer(&mut self)
        ensures
            final(self)@ == (SessionModel { connect_retry_timer: 0, ..old(self)@ }),
    {
        self.connect_retry_timer = 0;
    }

    pub fn reset_hold_timer(&mut self)
        ensures
            final(self)@ == (SessionModel { hold_timer: 0, ..old(self)@ }),
    {
        self.hold_timer = 0;
    }

    pub fn reset_keep_timer(&mut self)
        ensures
            final(self)@ == (SessionModel { keepalive_timer: 0, ..old(self)@ }),
    {
        self.keepalive_timer = 0;
    }

    pub fn state(&self) -> (r: State)
        ensures
            r == self@.state,
    {
        self.state
    }

    pub fn connect_retry_ctr(&self) -> (r: usize)
        ensures
            r == self@.connect_retry_ctr,
    {
        self.connect_retry_ctr
    }

    pub fn connect_retry_time(&self) -> (r: usize)
        ensures
            r == self@.connect_retry_time,
    {
        self.connect_retry_time
    }

    pub fn hold_time(&self) -> (r: usize)
        ensures
            r == self@.hold_time,
    {
        self.hold_time
    }

    pub fn keepalive_time(&self) -> (r: usize)
        ensures
            r == self@.keepalive_time,
    {
        self.keepalive_time
    }
}

/// What a user configures for a peer.
pub struct BgpPeer {
    pub peer_address: IpAddress,
    pub remote_as: u16,
    session: PeerSession,
}

impl BgpPeer {
    pub fn new(peer_address: IpAddress, remote_as: u16, session: PeerSession) -> (r: Self)
        ensures
            r.spec_peer() == (peer_address, remote_as),
            r.session()@ == session@,
    {
        BgpPeer { peer_address, remote_as, session }
    }

    pub closed spec fn spec_peer(&self) -> (IpAddress, u16) {
        (self.peer_address, self.remote_as)
    }

    pub closed spec fn session(&self) -> PeerSession {
        self.session
    }
}

pub struct PeerSessionBuilder {
    connect_retry_time: usize,
    hold_time: usize,
    keepalive_time: usize,
}

impl PeerSessionBuilder {
    pub closed spec fn times(&self) -> (usize, usize, usize) {
        (self.connect_retry_time, self.hold_time, self.keepalive_time)
    }

    /// Defaults of RFC 4271 10: ConnectRetryTime 120 s, HoldTime 90 s, KeepaliveTime 30 s.
    pub fn new() -> (r: Self)
        ensures
            r.times() == (DEFAULT_CONNECT_RETRY_TIME, DEFAULT_HOLD_TIME, DEFAULT_KEEPALIVE_TIME),
    {
        PeerSessionBuilder {
            connect_retry_time: DEFAULT_CONNECT_RETRY_TIME,
            hold_time: DEFAULT_HOLD_TIME,
            keepalive_time: DEFAULT_KEEPALIVE_TIME,
        }
    }

    pub fn conn_retry_time(self, time: usize) -> (r: Self)
        ensures
            r.times() == (time, self.times().1, self.times().2),
    {
        let mut s = self;
        s.connect_retry_time = time;
        s
    }

    pub fn hold_time(self, time: usize) -> (r: Self)
        ensures
            r.times() == (self.times().0, time, self.times().2),
    {
        let mut s = self;
        s.hold_time = time;
        s
    }

    pub fn keep_time(self, time: usize) -> (r: Self)
        ensures
            r.times() == (self.times().0, self.times().1, time),
    {
        let mut s = self;
        s.keepalive_time = time;
        s
    }

    /// An idle session with its counter and timers at 0.
    pub fn build(self) -> (r: PeerSession)
        ensures
            r@ == (SessionModel {
                state: State::Idle,
                connect_retry_ctr: 0,
                connect_retry_timer: 0,
                connect_retry_time: self.times().0,
                hold_timer: 0,
                hold_time: self.times().1,
                keepalive_timer: 0,
                keepalive_time: self.times().2,
            }),
    {
        PeerSession {
            state: State::Idle,
            connect_retry_ctr: 0,
            connect_retry_timer: 0,
            connect_retry_time: self.connect_retry_time,
            hold_timer: 0,
            hold_time: self.hold_time,
            keepalive_timer: 0,
            keepalive_time: self.keepalive_time,
        }
    }
}


/// What the session asks of its surroundings on a transition.
#[derive(Debug, Clone, Copy, PartialEq, Eq, Structural)]
pub enum FsmAction {
    Nothing,
    /// Start the ConnectRetryTimer and open the TCP connection.
    InitiateTcp,
    SendOpen,
    /// Send a KEEPALIVE (and start the KeepaliveTimer).
    SendKeepalive,
    /// Send this NOTIFICATION, then close the connection.
    SendNotification(NotifErrorCode),
    /// Send the NOTIFICATION that the decoder reported, then close.
    ReportDecodeError,
    /// Hand the UPDATE to the table.
    DeliverUpdate,
    Close,
}

/// An unexpected event: FSM error, back to Idle.
pub open spec fn fsm_error() -> (State, FsmAction) {
    (State::Idle, FsmAction::SendNotification(NotifErrorCode::FiniteStateMachineError))
}

/// The transition table.
pub open spec fn next_spec(s: State, e: FsmEvent) -> (State, FsmAction) {
    match e {
        FsmEvent::HoldTimerExpires => (State::Idle, FsmAction::SendNotification(NotifErrorCode::HoldTimerExpired)),
        _ => if s == State::Idle {
            if e == FsmEvent::ManualStart {
                (State::Connect, FsmAction::InitiateTcp)
            } else {
                (State::Idle, FsmAction::Nothing)
            }
        } else {
            match e {
                FsmEvent::ManualStart => (s, FsmAction::Nothing),
                FsmEvent::ManualStop => if s == State::Connect || s == State::Active {
                    (State::Idle, FsmAction::Close)
                } else {
                    (State::Idle, FsmAction::SendNotification(NotifErrorCode::Cease))
                },
                FsmEvent::ConnectRetryTimerExpires => if s == State::Connect || s == State::Active {
                    (State::Connect, FsmAction::InitiateTcp)
                } else {
                    fsm_error()
                },
                FsmEvent::KeepaliveTimerExpires => if s == State::OpenConfirm || s == State::Established {
                    (s, FsmAction::SendKeepalive)
                } else {
                    fsm_error()
                },
                FsmEvent::TcpCrAcked | FsmEvent::TcpConnectionConfirmed => if s == State::Connect || s
                    == State::Active {
                    (State::OpenSent, FsmAction::SendOpen)
                } else {
                    (s, FsmAction::Nothing)
                },
                FsmEvent::TcpConnectionFails => if s == State::OpenSent {
                    (State::Active, FsmAction::Close)
                } else {
                    (State::Idle, FsmAction::Close)
                },
                FsmEvent::BGPOpen => if s == State::OpenSent {
                    (State::OpenConfirm, FsmAction::SendKeepalive)
                } else {
                    fsm_error()
                },
                FsmEvent::BGPHeaderErr | FsmEvent::BGPOpenMsgErr => (State::Idle, FsmAction::ReportDecodeError),
                FsmEvent::NotifMsgVerErr | FsmEvent::NotifMsg => (State::Idle, FsmAction::Close),
                FsmEvent::KeepAliveMsg => if s == State::OpenConfirm || s == State::Established {
                    (State::Established, FsmAction::Nothing)
                } else {
                    fsm_error()
                },
                FsmEvent::UpdateMsg => if s == State::Established {
                    (State::Established, FsmAction::DeliverUpdate)
                } else {
                    fsm_error()
                },
                FsmEvent::UpdateMsgErr => if s == State::Established {
                    (State::Idle, FsmAction::ReportDecodeError)
                } else {
                    fsm_error()
                },
                FsmEvent::HoldTimerExpires => (State::Idle, FsmAction::SendNotification(NotifErrorCode::HoldTimerExpired)),
            }
        },
    }
}

/// The next state and the action for `event` in state `s`.
pub fn next_state(s: State, e: FsmEvent) -> (r: (State, FsmAction))
    ensures
        r == next_spec(s, e),
{
    if let FsmEvent::HoldTimerExpires = e {
        return (State::Idle, FsmAction::SendNotification(NotifErrorCode::HoldTimerExpired));
    }
    if s == State::Idle {
        if e == FsmEvent::ManualStart {
            return (State::Connect, FsmAction::InitiateTcp);
        }
        return (State::Idle, FsmAction::Nothing);
    }
    let fsm_err = (State::Idle, FsmAction::SendNotification(NotifErrorCode::FiniteStateMachineError));
    match e {
        FsmEvent::ManualStart => (s, FsmAction::Nothing),
        FsmEvent::ManualStop => if s == State::Connect || s == State::Active {
            (State::Idle, FsmAction::Close)
        } else {
            (State::Idle, FsmAction::SendNotification(NotifErrorCode::Cease))
        },
        FsmEvent::ConnectRetryTimerExpires => if s == State::Connect || s == State::Active {
            (State::Connect, FsmAction::InitiateTcp)
        } else {
            fsm_err
        },
        FsmEvent::KeepaliveTimerExpires => if s == State::OpenConfirm || s == State::Established {
            (s, FsmAction::SendKeepalive)
        } else {
            fsm_err
        },
        FsmEvent::TcpCrAcked | FsmEvent::TcpConnectionConfirmed => if s == State::Connect || s == State::Active {
            (State::OpenSent, FsmAction::SendOpen)
        } else {
            (s, FsmAction::Nothing)
        },
        FsmEvent::TcpConnectionFails => if s == State::OpenSent {
            (State::Active, FsmAction::Close)
        } else {
            (State::Idle, FsmAction::Close)
        },
        FsmEvent::BGPOpen => if s == State::OpenSent {
            (State::OpenConfirm, FsmAction::SendKeepalive)
        } else {
            fsm_err
        },
        FsmEvent::BGPHeaderErr | FsmEvent::BGPOpenMsgErr => (State::Idle, FsmAction::ReportDecodeError),
        FsmEvent::NotifMsgVerErr | FsmEvent::NotifMsg => (State::Idle, FsmAction::Close),
        FsmEvent::KeepAliveMsg => if s == State::OpenConfirm || s == State::Established {
            (State::Established, FsmAction::Nothing)
        } else {
            fsm_err
        },
        FsmEvent::UpdateMsg => if s == State::Established {
            (State::Established, FsmAction::DeliverUpdate)
        } else {
            fsm_err
        },
        FsmEvent::UpdateMsgErr => if s == State::Established {
            (State::Idle, FsmAction::ReportDecodeError)
        } else {
            fsm_err
        },
        FsmEvent::HoldTimerExpires => (State::Idle, FsmAction::SendNotification(NotifErrorCode::HoldTimerExpired)),
    }
}

impl PeerSession {
    /// Applies `event` to the session state and returns the action to perform.
    pub fn handle_event(&mut self, event: FsmEvent) -> (r: FsmAction)
        ensures
            (final(self)@.state, r) == next_spec(old(self)@.state, event),
            final(self)@ == (SessionModel { state: final(self)@.state, ..old(self)@ }),
    {
        let (s, a) = next_state(self.state, event);
        self.state = s;
        a
    }
}

impl PeerSession {
    /// The peer's OPEN arrived offering `peer_hold` seconds. The session moves
    /// as for `BGPOpen`; when that reaches OpenConfirm, the session from then
    /// on (and so once Established) runs with the smaller of the two hold
    /// times (0 disables the hold timer) and a keepalive time of a third of it.
    pub fn handle_open(&mut self, peer_hold: u16) -> (r: FsmAction)
        ensures
            (final(self)@.state, r) == next_spec(old(self)@.state, FsmEvent::BGPOpen),
            final(self)@.state == State::OpenConfirm ==> {
                &&& final(self)@.hold_time == if old(self)@.hold_time <= peer_hold as usize {
                    old(self)@.hold_time
                } else {
                    peer_hold as usize
                }
                &&& final(self)@.keepalive_time == final(self)@.hold_time / 3
                &&& final(self)@ == (SessionModel {
                    state: final(self)@.state,
                    hold_time: final(self)@.hold_time,
                    keepalive_time: final(self)@.keepalive_time,
                    ..old(self)@
                })
            },
            final(self)@.state != State::OpenConfirm ==> final(self)@ == (SessionModel {
                state: final(self)@.state,
                ..old(self)@
            }),
    {
        let a = self.handle_event(FsmEvent::BGPOpen);
        if self.state == State::OpenConfirm {
            let offered = peer_hold as usize;
            if offered < self.hold_time {
                self.hold_time = offered;
            }
            self.keepalive_time = self.hold_time / 3;
        }
        a
    }
}

/// The hold time a session runs with: the smaller of the two offers (0
/// disables the hold timer on both sides).
pub fn negotiate_hold_time(local: u16, remote: u16) -> (r: u16)
    ensures
        r == if local <= remote { local } else { remote },
{
    if local <= remote {
        local
    } else {
        remote
    }
}

/// The keepalive interval for a hold time: a third of it.
pub fn keepalive_for(hold_time: u16) -> (r: u16)
    ensures
        r == hold_time / 3,
{
    hold_time / 3
}

} // verus!
