use bgp4::errors::NotifErrorCode;
use bgp4::fsm_ds::{
    keepalive_for, negotiate_hold_time, next_state, FsmAction, FsmEvent, PeerSessionBuilder, State,
    DEFAULT_CONNECT_RETRY_TIME, DEFAULT_HOLD_TIME, DEFAULT_KEEPALIVE_TIME,
};

#[test]
fn build_peer_default() {
    let peer_session = PeerSessionBuilder::new().build();
    assert_eq!(peer_session.connect_retry_time(), DEFAULT_CONNECT_RETRY_TIME);
    assert_eq!(peer_session.hold_time(), DEFAULT_HOLD_TIME);
    assert_eq!(peer_session.keepalive_time(), DEFAULT_KEEPALIVE_TIME);
}

#[test]
fn build_peer_chg_keep() {
    let peer_session = PeerSessionBuilder::new().keep_time(10).build();
    assert_eq!(peer_session.connect_retry_time(), 120);
    assert_eq!(peer_session.hold_time(), 90);
    assert_eq!(peer_session.keepalive_time(), 10);
}

#[test]
fn build_peer_chg_hold() {
    let peer_session = PeerSessionBuilder::new().hold_time(10).build();
    assert_eq!(peer_session.connect_retry_time(), 120);
    assert_eq!(peer_session.hold_time(), 10);
    assert_eq!(peer_session.keepalive_time(), 30);
}

#[test]
fn build_peer_chg_conn() {
    let peer_session = PeerSessionBuilder::new().conn_retry_time(10).build();
    assert_eq!(peer_session.connect_retry_time(), 10);
    assert_eq!(peer_session.hold_time(), 90);
    assert_eq!(peer_session.keepalive_time(), 30);
}

#[test]
fn build_peer_chg_all() {
    let peer_session = PeerSessionBuilder::new()
        .conn_retry_time(20)
        .hold_time(180)
        .keep_time(90)
        .build();
    assert_eq!(peer_session.connect_retry_time(), 20);
    assert_eq!(peer_session.hold_time(), 180);
    assert_eq!(peer_session.keepalive_time(), 90);
}

#[test]
fn session_starts_idle_and_resets() {
    let mut s = PeerSessionBuilder::new().build();
    assert_eq!(s.state(), State::Idle);
    assert_eq!(s.connect_retry_ctr(), 0);
    s.reset_connect_retry_ctr();
    s.reset_hold_timer();
    s.reset_keep_timer();
    s.reset_connect_retry_timer();
    assert_eq!(s.connect_retry_ctr(), 0);
    assert_eq!(s.hold_time(), 90);
}

#[test]
fn session_reaches_established() {
    let mut s = PeerSessionBuilder::new().build();
    assert_eq!(s.handle_event(FsmEvent::ManualStart), FsmAction::InitiateTcp);
    assert_eq!(s.state(), State::Connect);
    assert_eq!(s.handle_event(FsmEvent::TcpConnectionConfirmed), FsmAction::SendOpen);
    assert_eq!(s.state(), State::OpenSent);
    assert_eq!(s.handle_event(FsmEvent::BGPOpen), FsmAction::SendKeepalive);
    assert_eq!(s.state(), State::OpenConfirm);
    assert_eq!(s.handle_event(FsmEvent::KeepAliveMsg), FsmAction::Nothing);
    assert_eq!(s.state(), State::Established);
    assert_eq!(s.handle_event(FsmEvent::UpdateMsg), FsmAction::DeliverUpdate);
    assert_eq!(s.state(), State::Established);
    assert_eq!(s.handle_event(FsmEvent::UpdateMsgErr), FsmAction::ReportDecodeError);
    assert_eq!(s.state(), State::Idle);
}

#[test]
fn hold_timer_expiry_from_any_state() {
    for st in [State::Idle, State::Connect, State::Active, State::OpenSent, State::OpenConfirm, State::Established] {
        assert_eq!(
            next_state(st, FsmEvent::HoldTimerExpires),
            (State::Idle, FsmAction::SendNotification(NotifErrorCode::HoldTimerExpired))
        );
    }
}

#[test]
fn unexpected_events_are_fsm_errors() {
    let err = (State::Idle, FsmAction::SendNotification(NotifErrorCode::FiniteStateMachineError));
    assert_eq!(next_state(State::OpenSent, FsmEvent::UpdateMsg), err);
    assert_eq!(next_state(State::Connect, FsmEvent::KeepAliveMsg), err);
    assert_eq!(next_state(State::Idle, FsmEvent::UpdateMsg), (State::Idle, FsmAction::Nothing));
    assert_eq!(next_state(State::OpenSent, FsmEvent::TcpConnectionFails), (State::Active, FsmAction::Close));
    assert_eq!(next_state(State::Established, FsmEvent::ManualStop), (State::Idle, FsmAction::SendNotification(NotifErrorCode::Cease)));
}

#[test]
fn hold_time_negotiation() {
    assert_eq!(negotiate_hold_time(90, 180), 90);
    assert_eq!(negotiate_hold_time(90, 0), 0);
    assert_eq!(keepalive_for(90), 30);
}

#[test]
fn negotiated_hold_time_in_force_once_established() {
    let mut s = PeerSessionBuilder::new().build();
    s.handle_event(FsmEvent::ManualStart);
    s.handle_event(FsmEvent::TcpConnectionConfirmed);
    assert_eq!(s.handle_open(60), FsmAction::SendKeepalive);
    assert_eq!(s.state(), State::OpenConfirm);
    s.handle_event(FsmEvent::KeepAliveMsg);
    assert_eq!(s.state(), State::Established);
    assert_eq!(s.hold_time(), 60);
    assert_eq!(s.keepalive_time(), 20);
    // A larger offer leaves the configured hold time.
    let mut t = PeerSessionBuilder::new().build();
    t.handle_event(FsmEvent::ManualStart);
    t.handle_event(FsmEvent::TcpCrAcked);
    t.handle_open(240);
    assert_eq!(t.hold_time(), 90);
    assert_eq!(t.keepalive_time(), 30);
    // An OPEN outside OpenSent is an FSM error and changes no timer.
    let mut u = PeerSessionBuilder::new().build();
    u.handle_event(FsmEvent::ManualStart);
    assert_eq!(u.handle_open(3), FsmAction::SendNotification(NotifErrorCode::FiniteStateMachineError));
    assert_eq!(u.hold_time(), 90);
}
