//! The value handed from the decoder to the BGP table.
use vstd::prelude::*;
use crate::decision::RouteSource;
use crate::message_types::Route;
use crate::octets::IpAddress;
use crate::path_attrs::{clone_attrs, origin_value, OriginValue, PathAttr, PathAttrModel};

verus! {

/// Routes of one UPDATE from one peer, with what the decision process needs.
pub struct ReceivedRoutes {
    peer_id: u32,
    peer_addr: IpAddress,
    last_as: u16,
    local_pref: Option<u32>,
    as_path_len: u8,
    origin: OriginValue,
    med: u32,
    route_source: RouteSource,
    igp_cost: u64,
    path_attrs: Vec<PathAttr>,
    routes: Option<Vec<Route>>,
    withdrawn: Option<Vec<Route>>,
}

/// The plain values of a `ReceivedRoutes`.
pub struct ReceivedModel {
    pub peer_id: u32,
    pub peer_addr: IpAddress,
    pub last_as: u16,
    pub local_pref: Option<u32>,
    pub as_path_len: u8,
    pub origin: OriginValue,
    pub med: u32,
    pub route_source: RouteSource,
    pub igp_cost: u64,
    pub path_attrs: Seq<PathAttrModel>,
    pub routes: Seq<Route>,
    pub withdrawn: Seq<Route>,
}

pub open spec fn opt_routes(o: Option<Vec<Route>>) -> Seq<Route> {
    match o {
        Some(v) => v@,
        None => Seq::empty(),
    }
}

impl View for ReceivedRoutes {
    type V = ReceivedModel;

    closed spec fn view(&self) -> ReceivedModel {
        ReceivedModel {
            peer_id: self.peer_id,
            peer_addr: self.peer_addr,
            last_as: self.last_as,
            local_pref: self.local_pref,
            as_path_len: self.as_path_len,
            origin: self.origin,
            med: self.med,
            route_source: self.route_source,
            igp_cost: self.igp_cost,
            path_attrs: self.path_attrs@.map_values(|a: PathAttr| a@),
            routes: opt_routes(self.routes),
            withdrawn: opt_routes(self.withdrawn),
        }
    }
}

fn copy_routes(v: &Vec<Route>) -> (r: Vec<Route>)
    ensures
        r@ == v@,
{
    let mut out: Vec<Route> = Vec::new();
    let mut i: usize = 0;
    while i < v.len()
        invariant
            i <= v@.len(),
            out@ == v@.subrange(0, i as int),
        decreases v@.len() - i,
    {
        out.push(v[i]);
        assert(v@.subrange(0, i + 1) =~= v@.subrange(0, i as int).push(v@[i as int]));
        i = i + 1;
    }
    assert(v@.subrange(0, v@.len() as int) =~= v@);
    out
}

/// No route is both announced and withdrawn.
pub open spec fn share_no_route(routes: Seq<Route>, withdrawn: Seq<Route>) -> bool {
    forall|i: int, j: int| 0 <= i < routes.len() && 0 <= j < withdrawn.len() ==> routes[i] != withdrawn[j]
}

impl ReceivedRoutes {
    #[verifier::type_invariant]
    spec fn inv(self) -> bool {
        share_no_route(opt_routes(self.routes), opt_routes(self.withdrawn))
    }

    /// The routes of one UPDATE; refused (`None`) when a route is both
    /// announced and withdrawn, which one UPDATE may not do.
    pub fn new(
        peer_id: u32,
        peer_addr: IpAddress,
        last_as: u16,
        local_pref: Option<u32>,
        as_path_len: u8,
        origin: OriginValue,
        med: u32,
        route_source: RouteSource,
        igp_cost: u64,
        path_attrs: Vec<PathAttr>,
        routes: Option<Vec<Route>>,
        withdrawn: Option<Vec<Route>>,
    ) -> (r: Option<Self>)
        ensures
            r is None <==> !share_no_route(opt_routes(routes), opt_routes(withdrawn)),
            r matches Some(rr) ==> rr@ == (ReceivedModel {
                peer_id,
                peer_addr,
                last_as,
                local_pref,
                as_path_len,
                origin,
                med,
                route_source,
                igp_cost,
                path_attrs: path_attrs@.map_values(|a: PathAttr| a@),
                routes: opt_routes(routes),
                withdrawn: opt_routes(withdrawn),
            }),
    {
        let empty: Vec<Route> = Vec::new();
        let disjoint = {
            let a = match &routes {
                Some(v) => v.as_slice(),
                None => empty.as_slice(),
            };
            let b = match &withdrawn {
                Some(v) => v.as_slice(),
                None => empty.as_slice(),
            };
            crate::msg_decoder::routes_disjoint(a, b)
        };
        if !disjoint {
            return None;
        }
        Some(ReceivedRoutes {
            peer_id,
            peer_addr,
            last_as,
            local_pref,
            as_path_len,
            origin,
            med,
            route_source,
            igp_cost,
            path_attrs,
            routes,
            withdrawn,
        })
    }

    pub fn peer_id(&self) -> (r: u32)
        ensures
            r == self@.peer_id,
    {
        self.peer_id
    }

    pub fn peer_addr(&self) -> (r: IpAddress)
        ensures
            r == self@.peer_addr,
    {
        self.peer_addr
    }

    pub fn last_as(&self) -> (r: u16)
        ensures
            r == self@.last_as,
    {
        self.last_as
    }

    pub fn local_pref(&self) -> (r: Option<u32>)
        ensures
            r == self@.local_pref,
    {
        self.local_pref
    }

    pub fn as_path_len(&self) -> (r: u8)
        ensures
            r == self@.as_path_len,
    {
        self.as_path_len
    }

    pub fn origin(&self) -> (r: u8)
        ensures
            r == origin_value(self@.origin),
    {
        self.origin.value()
    }

    pub fn med(&self) -> (r: u32)
        ensures
            r == self@.med,
    {
        self.med
    }

    pub fn route_source(&self) -> (r: RouteSource)
        ensures
            r == self@.route_source,
    {
        self.route_source
    }

    pub fn igp_cost(&self) -> (r: u64)
        ensures
            r == self@.igp_cost,
    {
        self.igp_cost
    }

    pub fn path_attrs(&self) -> (r: Vec<PathAttr>)
        ensures
            r@.map_values(|a: PathAttr| a@) == self@.path_attrs,
    {
        clone_attrs(self.path_attrs.as_slice())
    }

    /// The reachable routes, empty when there are none.
    pub fn routes(&self) -> (r: Vec<Route>)
        ensures
            r@ == self@.routes,
    {
        match &self.routes {
            Some(v) => copy_routes(v),
            None => Vec::new(),
        }
    }

    /// The withdrawn routes, empty when there are none; none of them is
    /// among the announced routes.
    pub fn withdrawn_routes(&self) -> (r: Vec<Route>)
        ensures
            r@ == self@.withdrawn,
            share_no_route(self@.routes, r@),
    {
        proof {
            use_type_invariant(self);
        }
        match &self.withdrawn {
            Some(v) => copy_routes(v),
            None => Vec::new(),
        }
    }
}

/// Builds `ReceivedRoutes` with fixed defaults, each of which can be replaced.
pub struct MockReceivedRoutesBuilder {
    peer_id: u32,
    peer_addr: IpAddress,
    last_as: u16,
    local_pref: Option<u32>,
    as_path_len: u8,
    origin: OriginValue,
    med: u32,
    route_source: RouteSource,
    igp_cost: u64,
    path_attrs: Vec<PathAttr>,
    routes: Option<Vec<Route>>,
    withdrawn: Option<Vec<Route>>,
}

impl View for MockReceivedRoutesBuilder {
    type V = ReceivedModel;

    closed spec fn view(&self) -> ReceivedModel {
        ReceivedModel {
            peer_id: self.peer_id,
            peer_addr: self.peer_addr,
            last_as: self.last_as,
            local_pref: self.local_pref,
            as_path_len: self.as_path_len,
            origin: self.origin,
            med: self.med,
            route_source: self.route_source,
            igp_cost: self.igp_cost,
            path_attrs: self.path_attrs@.map_values(|a: PathAttr| a@),
            routes: opt_routes(self.routes),
            withdrawn: opt_routes(self.withdrawn),
        }
    }
}

/// Default peer identifier 192.168.1.1.
pub const MOCK_PEER_ID: u32 = 0xC0A8_0101;
/// Default peer address 10.0.0.1.
pub const MOCK_PEER_ADDR: u32 = 0x0A00_0001;

impl MockReceivedRoutesBuilder {
    pub fn new(routes: Option<Vec<Route>>, withdrawn: Option<Vec<Route>>, pa: Vec<PathAttr>) -> (r: Self)
        ensures
            r@ == (ReceivedModel {
                peer_id: MOCK_PEER_ID,
                peer_addr: IpAddress::V4(MOCK_PEER_ADDR),
                last_as: 65000,
                local_pref: Some(100u32),
                as_path_len: 5,
                origin: OriginValue::Igp,
                med: 1000,
                route_source: RouteSource::Ebgp,
                igp_cost: 1000,
                path_attrs: pa@.map_values(|a: PathAttr| a@),
                routes: opt_routes(routes),
                withdrawn: opt_routes(withdrawn),
            }),
    {
        MockReceivedRoutesBuilder {
            peer_id: MOCK_PEER_ID,
            peer_addr: IpAddress::V4(MOCK_PEER_ADDR),
            last_as: 65000,
            local_pref: Some(100),
            as_path_len: 5,
            origin: OriginValue::Igp,
            med: 1000,
            route_source: RouteSource::Ebgp,
            igp_cost: 1000,
            path_attrs: pa,
            routes,
            withdrawn,
        }
    }

    pub fn peer_id(self, peer_id: u32) -> (r: Self)
        ensures
            r@ == (ReceivedModel { peer_id, ..self@ }),
    {
        let mut s = self;
        s.peer_id = peer_id;
        s
    }

    pub fn peer_addr(self, peer_addr: IpAddress) -> (r: Self)
        ensures
            r@ == (ReceivedModel { peer_addr, ..self@ }),
    {
        let mut s = self;
        s.peer_addr = peer_addr;
        s
    }

    pub fn last_as(self, last_as: u16) -> (r: Self)
        ensures
            r@ == (ReceivedModel { last_as, ..self@ }),
    {
        let mut s = self;
        s.last_as = last_as;
        s
    }

    pub fn local_pref(self, lp: u32) -> (r: Self)
        ensures
            r@ == (ReceivedModel { local_pref: Some(lp), ..self@ }),
    {
        let mut s = self;
        s.local_pref = Some(lp);
        s
    }

    pub fn as_path_len(self, path_len: u8) -> (r: Self)
        ensures
            r@ == (ReceivedModel { as_path_len: path_len, ..self@ }),
    {
        let mut s = self;
        s.as_path_len = path_len;
        s
    }

    pub fn origin(self, origin: OriginValue) -> (r: Self)
        ensures
            r@ == (ReceivedModel { origin, ..self@ }),
    {
        let mut s = self;
        s.origin = origin;
        s
    }

    pub fn med(self, med: u32) -> (r: Self)
        ensures
            r@ == (ReceivedModel { med, ..self@ }),
    {
        let mut s = self;
        s.med = med;
        s
    }

    pub fn route_source(self, rs: RouteSource) -> (r: Self)
        ensures
            r@ == (ReceivedModel { route_source: rs, ..self@ }),
    {
        let mut s = self;
        s.route_source = rs;
        s
    }

    pub fn igp_cost(self, cost: u64) -> (r: Self)
        ensures
            r@ == (ReceivedModel { igp_cost: cost, ..self@ }),
    {
        let mut s = self;
        s.igp_cost = cost;
        s
    }

    /// The `ReceivedRoutes`, or `None` when a route is both announced and withdrawn.
    pub fn build(self) -> (r: Option<ReceivedRoutes>)
        ensures
            r is None <==> !share_no_route(self@.routes, self@.withdrawn),
            r matches Some(rr) ==> rr@ == self@,
    {
        ReceivedRoutes::new(
            self.peer_id,
            self.peer_addr,
            self.last_as,
            self.local_pref,
            self.as_path_len,
            self.origin,
            self.med,
            self.route_source,
            self.igp_cost,
            self.path_attrs,
            self.routes,
            self.withdrawn,
        )
    }
}

} // verus!
