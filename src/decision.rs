//! The per-path decision summary and the total order of the decision process.
use vstd::prelude::*;
use std::cmp::Ordering;
use crate::comms::{ReceivedModel, ReceivedRoutes};
use crate::octets::IpAddress;
use crate::path_attrs::origin_value;

verus! {

/// Where a path was learned; external paths are preferred.
#[derive(Clone, Copy, Debug, PartialEq, Eq, Structural, Hash)]
pub enum RouteSource {
    Ebgp,
    Ibgp,
}

pub open spec fn route_source_value(r: RouteSource) -> u8 {
    match r {
        RouteSource::Ebgp => 0,
        RouteSource::Ibgp => 1,
    }
}

impl RouteSource {
    pub fn value(&self) -> (r: u8)
        ensures
            r == route_source_value(*self),
    {
        match self {
            RouteSource::Ebgp => 0,
            RouteSource::Ibgp => 1,
        }
    }
}

impl<'a> From<&'a RouteSource> for u8 {
    fn from(value: &'a RouteSource) -> (r: u8) {
        value.value()
    }
}

impl<'a> vstd::std_specs::convert::FromSpecImpl<&'a RouteSource> for u8 {
    open spec fn obeys_from_spec() -> bool {
        true
    }

    open spec fn from_spec(v: &'a RouteSource) -> u8 {
        route_source_value(*v)
    }
}

/// What the decision process compares of a path.
#[derive(Clone, Copy, Debug, PartialEq, Eq, Structural, Hash)]
pub struct DecisionProcessData {
    pub local_pref: Option<u32>,
    pub as_path_len: u8,
    pub last_as: u16,
    pub origin: u8,
    pub med: u32,
    pub route_source: RouteSource,
    pub igp_cost: u64,
    pub peer_id: u32,
    pub peer_addr: IpAddress,
}

pub open spec fn cmp_int(a: int, b: int) -> Ordering {
    if a < b {
        Ordering::Less
    } else if a == b {
        Ordering::Equal
    } else {
        Ordering::Greater
    }
}

pub open spec fn ip_cmp(a: IpAddress, b: IpAddress) -> Ordering {
    match (a, b) {
        (IpAddress::V4(x), IpAddress::V4(y)) => cmp_int(x as int, y as int),
        (IpAddress::V4(_), IpAddress::V6(_)) => Ordering::Less,
        (IpAddress::V6(_), IpAddress::V4(_)) => Ordering::Greater,
        (IpAddress::V6(x), IpAddress::V6(y)) => cmp_int(x as int, y as int),
    }
}

/// The comparison made at stage `k` (1 to 8) of the ladder; smaller is better.
pub open spec fn stage_cmp(k: int, a: DecisionProcessData, b: DecisionProcessData) -> Ordering {
    if k == 1 {
        // Higher LOCAL_PREF wins; skipped unless both sides carry one.
        match (a.local_pref, b.local_pref) {
            (Some(x), Some(y)) => cmp_int(y as int, x as int),
            _ => Ordering::Equal,
        }
    } else if k == 2 {
        cmp_int(a.as_path_len as int, b.as_path_len as int)
    } else if k == 3 {
        cmp_int(a.origin as int, b.origin as int)
    } else if k == 4 {
        // MED only between paths from the same neighbouring AS.
        if a.last_as == b.last_as {
            cmp_int(a.med as int, b.med as int)
        } else {
            Ordering::Equal
        }
    } else if k == 5 {
        cmp_int(route_source_value(a.route_source) as int, route_source_value(b.route_source) as int)
    } else if k == 6 {
        cmp_int(a.igp_cost as int, b.igp_cost as int)
    } else if k == 7 {
        cmp_int(a.peer_id as int, b.peer_id as int)
    } else if k == 8 {
        ip_cmp(a.peer_addr, b.peer_addr)
    } else {
        Ordering::Equal
    }
}

/// The decision order: the first stage at which the two paths differ decides.
pub open spec fn decision_cmp(a: DecisionProcessData, b: DecisionProcessData) -> Ordering {
    if stage_cmp(1, a, b) != Ordering::Equal {
        stage_cmp(1, a, b)
    } else if stage_cmp(2, a, b) != Ordering::Equal {
        stage_cmp(2, a, b)
    } else if stage_cmp(3, a, b) != Ordering::Equal {
        stage_cmp(3, a, b)
    } else if stage_cmp(4, a, b) != Ordering::Equal {
        stage_cmp(4, a, b)
    } else if stage_cmp(5, a, b) != Ordering::Equal {
        stage_cmp(5, a, b)
    } else if stage_cmp(6, a, b) != Ordering::Equal {
        stage_cmp(6, a, b)
    } else if stage_cmp(7, a, b) != Ordering::Equal {
        stage_cmp(7, a, b)
    } else {
        stage_cmp(8, a, b)
    }
}

/// `a` is strictly better than `b`.
pub open spec fn decision_less(a: DecisionProcessData, b: DecisionProcessData) -> bool {
    decision_cmp(a, b) == Ordering::Less
}

pub open spec fn reverse(o: Ordering) -> Ordering {
    match o {
        Ordering::Less => Ordering::Greater,
        Ordering::Equal => Ordering::Equal,
        Ordering::Greater => Ordering::Less,
    }
}

/// When two summaries agree at every stage before `k` and differ at stage
/// `k`, stage `k` alone decides their order.
pub proof fn lemma_ladder_priority(a: DecisionProcessData, b: DecisionProcessData, k: int)
    requires
        1 <= k <= 8,
        forall|j: int| 1 <= j < k ==> stage_cmp(j, a, b) == Ordering::Equal,
        stage_cmp(k, a, b) != Ordering::Equal,
    ensures
        decision_cmp(a, b) == stage_cmp(k, a, b),
{
    assert(k > 1 ==> stage_cmp(1, a, b) == Ordering::Equal);
    assert(k > 2 ==> stage_cmp(2, a, b) == Ordering::Equal);
    assert(k > 3 ==> stage_cmp(3, a, b) == Ordering::Equal);
    assert(k > 4 ==> stage_cmp(4, a, b) == Ordering::Equal);
    assert(k > 5 ==> stage_cmp(5, a, b) == Ordering::Equal);
    assert(k > 6 ==> stage_cmp(6, a, b) == Ordering::Equal);
    assert(k > 7 ==> stage_cmp(7, a, b) == Ordering::Equal);
}

/// Swapping the two sides reverses the order.
pub proof fn lemma_decision_antisymmetric(a: DecisionProcessData, b: DecisionProcessData)
    ensures
        decision_cmp(b, a) == reverse(decision_cmp(a, b)),
{
    assert forall|k: int| 1 <= k <= 8 implies #[trigger] stage_cmp(k, b, a) == reverse(stage_cmp(k, a, b)) by {}
    assert(stage_cmp(1, b, a) == reverse(stage_cmp(1, a, b)));
    assert(stage_cmp(2, b, a) == reverse(stage_cmp(2, a, b)));
    assert(stage_cmp(3, b, a) == reverse(stage_cmp(3, a, b)));
    assert(stage_cmp(4, b, a) == reverse(stage_cmp(4, a, b)));
    assert(stage_cmp(5, b, a) == reverse(stage_cmp(5, a, b)));
    assert(stage_cmp(6, b, a) == reverse(stage_cmp(6, a, b)));
    assert(stage_cmp(7, b, a) == reverse(stage_cmp(7, a, b)));
    assert(stage_cmp(8, b, a) == reverse(stage_cmp(8, a, b)));
}

fn cmp_u64(a: u64, b: u64) -> (r: Ordering)
    ensures
        r == cmp_int(a as int, b as int),
{
    if a < b {
        Ordering::Less
    } else if a == b {
        Ordering::Equal
    } else {
        Ordering::Greater
    }
}

fn cmp_u128(a: u128, b: u128) -> (r: Ordering)
    ensures
        r == cmp_int(a as int, b as int),
{
    if a < b {
        Ordering::Less
    } else if a == b {
        Ordering::Equal
    } else {
        Ordering::Greater
    }
}

fn is_equal(o: &Ordering) -> (r: bool)
    ensures
        r == (*o == Ordering::Equal),
{
    match o {
        Ordering::Equal => true,
        _ => false,
    }
}

/// The decision summary of a received UPDATE.
pub open spec fn decision_of(rx: ReceivedModel) -> DecisionProcessData {
    DecisionProcessData {
        local_pref: rx.local_pref,
        as_path_len: rx.as_path_len,
        last_as: rx.last_as,
        origin: origin_value(rx.origin),
        med: rx.med,
        route_source: rx.route_source,
        igp_cost: rx.igp_cost,
        peer_id: rx.peer_id,
        peer_addr: rx.peer_addr,
    }
}

impl DecisionProcessData {
    pub fn new(data: &ReceivedRoutes) -> (r: Self)
        ensures
            r == decision_of(data@),
    {
        DecisionProcessData {
            local_pref: data.local_pref(),
            as_path_len: data.as_path_len(),
            last_as: data.last_as(),
            origin: data.origin(),
            med: data.med(),
            route_source: data.route_source(),
            igp_cost: data.igp_cost(),
            peer_id: data.peer_id(),
            peer_addr: data.peer_addr(),
        }
    }

    /// Compares at stage `k` of the ladder.
    pub fn stage(&self, other: &Self, k: u8) -> (r: Ordering)
        ensures
            r == stage_cmp(k as int, *self, *other),
    {
        if k == 1 {
            match (self.local_pref, other.local_pref) {
                (Some(x), Some(y)) => cmp_u64(y as u64, x as u64),
                _ => Ordering::Equal,
            }
        } else if k == 2 {
            cmp_u64(self.as_path_len as u64, other.as_path_len as u64)
        } else if k == 3 {
            cmp_u64(self.origin as u64, other.origin as u64)
        } else if k == 4 {
            if self.last_as == other.last_as {
                cmp_u64(self.med as u64, other.med as u64)
            } else {
                Ordering::Equal
            }
        } else if k == 5 {
            cmp_u64(self.route_source.value() as u64, other.route_source.value() as u64)
        } else if k == 6 {
            cmp_u64(self.igp_cost, other.igp_cost)
        } else if k == 7 {
            cmp_u64(self.peer_id as u64, other.peer_id as u64)
        } else if k == 8 {
            match (self.peer_addr, other.peer_addr) {
                (IpAddress::V4(x), IpAddress::V4(y)) => cmp_u64(x as u64, y as u64),
                (IpAddress::V4(_), IpAddress::V6(_)) => Ordering::Less,
                (IpAddress::V6(_), IpAddress::V4(_)) => Ordering::Greater,
                (IpAddress::V6(x), IpAddress::V6(y)) => cmp_u128(x, y),
            }
        } else {
            Ordering::Equal
        }
    }

    /// The decision order; `Less` means `self` is the better path.
    pub fn compare(&self, other: &Self) -> (r: Ordering)
        ensures
            r == decision_cmp(*self, *other),
    {
        let mut k: u8 = 1;
        while k < 8
            invariant
                1 <= k <= 8,
                forall|j: int| 1 <= j < k ==> stage_cmp(j, *self, *other) == Ordering::Equal,
            decreases 8 - k,
        {
            let o = self.stage(other, k);
            if !is_equal(&o) {
                proof {
                    lemma_ladder_priority(*self, *other, k as int);
                }
                return o;
            }
            k = k + 1;
        }
        let o = self.stage(other, 8);
        if !is_equal(&o) {
            proof {
                lemma_ladder_priority(*self, *other, 8);
            }
        }
        o
    }

    /// `self` is strictly better than `other`.
    pub fn is_better(&self, other: &Self) -> (r: bool)
        ensures
            r == decision_less(*self, *other),
    {
        match self.compare(other) {
            Ordering::Less => true,
            _ => false,
        }
    }
}

impl PartialOrd for DecisionProcessData {
    fn partial_cmp(&self, other: &Self) -> (r: Option<Ordering>) {
        Some(self.compare(other))
    }
}

impl vstd::std_specs::cmp::PartialOrdSpecImpl for DecisionProcessData {
    open spec fn obeys_partial_cmp_spec() -> bool {
        true
    }

    open spec fn partial_cmp_spec(&self, other: &Self) -> Option<Ordering> {
        Some(decision_cmp(*self, *other))
    }
}

} // verus!
