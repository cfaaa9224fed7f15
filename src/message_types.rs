//! BGP message records: Header, Open, Notification, Update and their parts.
use vstd::prelude::*;
use crate::errors::{code_value, subcode_value, NotifErrorCode, OpenMsgErrSubcode};
use crate::octets::{be_bytes, be_octets, ip_octets, IpAddress};
use crate::path_attrs::{attr_wire_len, clone_attrs, PathAttr, PathAttrModel};

verus! {

pub const OPEN_VALUE: u8 = 1;
pub const UPDATE_VALUE: u8 = 2;
pub const NOT_VALUE: u8 = 3;
pub const KEEP_VALUE: u8 = 4;

/// Octets of the fixed message header.
pub const HEADER_LEN: u16 = 19;
/// Largest message length allowed.
pub const MAX_MSG_LEN: u16 = 4096;
/// The octet the header marker is made of.
pub const MARKER_OCTET: u8 = 0xFF;

pub enum MessageType {
    Open,
    Update,
    KeepAlive,
    Notification,
}

pub open spec fn message_type_value(t: MessageType) -> u8 {
    match t {
        MessageType::Open => OPEN_VALUE,
        MessageType::Update => UPDATE_VALUE,
        MessageType::KeepAlive => KEEP_VALUE,
        MessageType::Notification => NOT_VALUE,
    }
}

/// The all-ones marker.
pub open spec fn marker_octets() -> Seq<u8> {
    Seq::new(16, |i: int| MARKER_OCTET)
}

#[derive(Debug)]
pub struct Header {
    marker: Vec<u8>,
    length: u16,
    message_type: u8,
}

/// A header as plain values.
pub struct HeaderModel {
    pub marker: Seq<u8>,
    pub length: u16,
    pub message_type: u8,
}

impl View for Header {
    type V = HeaderModel;

    closed spec fn view(&self) -> HeaderModel {
        HeaderModel { marker: self.marker@, length: self.length, message_type: self.message_type }
    }
}

impl Header {
    pub fn new(length: u16, message_type: MessageType) -> (r: Self)
        ensures
            r@ == (HeaderModel { marker: marker_octets(), length, message_type: message_type_value(message_type) }),
    {
        let mtype = match message_type {
            MessageType::Open => OPEN_VALUE,
            MessageType::Update => UPDATE_VALUE,
            MessageType::KeepAlive => KEEP_VALUE,
            MessageType::Notification => NOT_VALUE,
        };
        let mut marker: Vec<u8> = Vec::new();
        let mut i: usize = 0;
        while i < 16
            invariant
                i <= 16,
                marker@ =~= Seq::new(i as nat, |j: int| MARKER_OCTET),
            decreases 16 - i,
        {
            marker.push(MARKER_OCTET);
            i = i + 1;
        }
        Header { marker, length, message_type: mtype }
    }

    /// A header from its wire fields.
    pub fn from_parts(marker: Vec<u8>, length: u16, message_type: u8) -> (r: Self)
        ensures
            r@ == (HeaderModel { marker: marker@, length, message_type }),
    {
        Header { marker, length, message_type }
    }

    pub fn marker(&self) -> (r: &[u8])
        ensures
            r@ == self@.marker,
    {
        self.marker.as_slice()
    }

    pub fn length(&self) -> (r: u16)
        ensures
            r == self@.length,
    {
        self.length
    }

    pub fn message_type(&self) -> (r: u8)
        ensures
            r == self@.message_type,
    {
        self.message_type
    }
}

/// An optional parameter of an OPEN message.
pub struct Tlv {
    param_type: u8,
    param_length: u8,
    param_value: Vec<u8>,
}

pub struct TlvModel {
    pub param_type: u8,
    pub param_length: u8,
    pub param_value: Seq<u8>,
}

impl View for Tlv {
    type V = TlvModel;

    closed spec fn view(&self) -> TlvModel {
        TlvModel { param_type: self.param_type, param_length: self.param_length, param_value: self.param_value@ }
    }
}

impl Tlv {
    pub fn new(param_type: u8, param_value: Vec<u8>) -> (r: Self)
        requires
            param_value@.len() <= 255,
        ensures
            r@ == (TlvModel { param_type, param_length: param_value@.len() as u8, param_value: param_value@ }),
    {
        let l = param_value.len() as u8;
        Tlv { param_type, param_length: l, param_value }
    }

    pub fn param_type(&self) -> (r: u8)
        ensures
            r == self@.param_type,
    {
        self.param_type
    }

    pub fn param_length(&self) -> (r: u8)
        ensures
            r == self@.param_length,
    {
        self.param_length
    }

    pub fn param_value(&self) -> (r: &[u8])
        ensures
            r@ == self@.param_value,
    {
        self.param_value.as_slice()
    }
}

/// Octets the parameters take: type, length and value of each.
pub open spec fn tlvs_len(s: Seq<TlvModel>) -> nat
    decreases s.len(),
{
    if s.len() == 0 {
        0
    } else {
        tlvs_len(s.drop_last()) + 2 + s.last().param_length as nat
    }
}

pub open spec fn tlv_views(s: Seq<Tlv>) -> Seq<TlvModel> {
    s.map_values(|t: Tlv| t@)
}

pub struct Open {
    version: u8,
    my_as: u16,
    holdtime: u16,
    bgp_id: u32,
    opt_params_len: u8,
    opt_params: Vec<Tlv>,
}

pub struct OpenModel {
    pub version: u8,
    pub my_as: u16,
    pub hold_time: u16,
    pub bgp_id: u32,
    pub opt_params_len: u8,
    pub opt_params: Seq<TlvModel>,
}

impl View for Open {
    type V = OpenModel;

    closed spec fn view(&self) -> OpenModel {
        OpenModel {
            version: self.version,
            my_as: self.my_as,
            hold_time: self.holdtime,
            bgp_id: self.bgp_id,
            opt_params_len: self.opt_params_len,
            opt_params: tlv_views(self.opt_params@),
        }
    }
}

impl Open {
    /// An OPEN from its wire fields.
    pub fn from_parts(version: u8, my_as: u16, holdtime: u16, bgp_id: u32, opt_params_len: u8, opt_params: Vec<Tlv>) -> (r: Self)
        ensures
            r@ == (OpenModel { version, my_as, hold_time: holdtime, bgp_id, opt_params_len, opt_params: tlv_views(opt_params@) }),
    {
        Open { version, my_as, holdtime, bgp_id, opt_params_len, opt_params }
    }

    pub fn version(&self) -> (r: u8)
        ensures
            r == self@.version,
    {
        self.version
    }

    pub fn my_as(&self) -> (r: u16)
        ensures
            r == self@.my_as,
    {
        self.my_as
    }

    pub fn hold_time(&self) -> (r: u16)
        ensures
            r == self@.hold_time,
    {
        self.holdtime
    }

    pub fn bgp_id(&self) -> (r: u32)
        ensures
            r == self@.bgp_id,
    {
        self.bgp_id
    }

    pub fn opt_params_slice(&self) -> (r: &[Tlv])
        ensures
            tlv_views(r@) == self@.opt_params,
    {
        self.opt_params.as_slice()
    }

    pub fn opt_params(self) -> (r: Vec<Tlv>)
        ensures
            tlv_views(r@) == self@.opt_params,
    {
        self.opt_params
    }

    pub fn opt_params_len(&self) -> (r: u8)
        ensures
            r == self@.opt_params_len,
    {
        self.opt_params_len
    }
}

pub struct OpenBuilder {
    version: u8,
    my_as: u16,
    holdtime: u16,
    bgp_id: u32,
    opt_params: Vec<Tlv>,
}

impl OpenBuilder {
    pub fn new(bgp_ver: u8, my_as: u16, holdtime: u16, bgp_id: u32) -> (r: Self)
        ensures
            r.spec_fields() == (bgp_ver, my_as, holdtime, bgp_id),
            r.spec_params() == Seq::<TlvModel>::empty(),
    {
        OpenBuilder { version: bgp_ver, my_as, holdtime, bgp_id, opt_params: Vec::new() }
    }

    /// Version, AS, hold time and identifier given so far.
    pub closed spec fn spec_fields(&self) -> (u8, u16, u16, u32) {
        (self.version, self.my_as, self.holdtime, self.bgp_id)
    }

    /// Parameters added so far.
    pub closed spec fn spec_params(&self) -> Seq<TlvModel> {
        tlv_views(self.opt_params@)
    }

    pub fn opt_param(self, tlv: Tlv) -> (r: Self)
        ensures
            r.spec_fields() == self.spec_fields(),
            r.spec_params() == self.spec_params().push(tlv@),
    {
        let mut s = self;
        s.opt_params.push(tlv);
        assert(tlv_views(s.opt_params@) =~= tlv_views(self.opt_params@).push(tlv@));
        s
    }

    /// The OPEN message; its parameter length is the octets the parameters
    /// take. Hold times 1 and 2 are illegal and refused.
    pub fn build(self) -> (r: Result<Open, NotifErrorCode>)
        requires
            tlvs_len(self.spec_params()) <= 255,
        ensures
            r is Err <==> (self.spec_fields().2 == 1 || self.spec_fields().2 == 2),
            r matches Err(e) ==> e == NotifErrorCode::OpenMessageError(OpenMsgErrSubcode::UnacceptableHoldTime),
            r matches Ok(o) ==> o@ == (OpenModel {
                version: self.spec_fields().0,
                my_as: self.spec_fields().1,
                hold_time: self.spec_fields().2,
                bgp_id: self.spec_fields().3,
                opt_params_len: tlvs_len(self.spec_params()) as u8,
                opt_params: self.spec_params(),
            }),
    {
        if self.holdtime == 1 || self.holdtime == 2 {
            return Err(NotifErrorCode::OpenMessageError(OpenMsgErrSubcode::UnacceptableHoldTime));
        }
        let mut total: u8 = 0;
        let mut i: usize = 0;
        while i < self.opt_params.len()
            invariant
                i <= self.opt_params@.len(),
                tlvs_len(tlv_views(self.opt_params@)) <= 255,
                total == tlvs_len(tlv_views(self.opt_params@.subrange(0, i as int))),
            decreases self.opt_params@.len() - i,
        {
            proof {
                let all = tlv_views(self.opt_params@);
                lemma_tlvs_len_prefix(all, i as int + 1);
                assert(tlv_views(self.opt_params@.subrange(0, i + 1)) =~= all.subrange(0, i + 1));
                assert(tlv_views(self.opt_params@.subrange(0, i as int)) =~= all.subrange(0, i as int));
                assert(all.subrange(0, i + 1).drop_last() =~= all.subrange(0, i as int));
            }
            total = total + 2 + self.opt_params[i].param_length;
            i = i + 1;
        }
        assert(self.opt_params@.subrange(0, self.opt_params@.len() as int) =~= self.opt_params@);
        Ok(Open {
            version: self.version,
            my_as: self.my_as,
            holdtime: self.holdtime,
            bgp_id: self.bgp_id,
            opt_params_len: total,
            opt_params: self.opt_params,
        })
    }
}

/// The length of the parameters is at least that of any prefix of them.
pub proof fn lemma_tlvs_len_prefix(s: Seq<TlvModel>, n: int)
    requires
        0 <= n <= s.len(),
    ensures
        tlvs_len(s.subrange(0, n)) <= tlvs_len(s),
    decreases s.len(),
{
    if n < s.len() {
        assert(s.drop_last().subrange(0, n) =~= s.subrange(0, n));
        lemma_tlvs_len_prefix(s.drop_last(), n);
    } else {
        assert(s.subrange(0, n) =~= s);
    }
}

pub struct Notification {
    err_code: u8,
    err_subcode: u8,
    data: Vec<u8>,
}

pub struct NotificationModel {
    pub err_code: u8,
    pub err_subcode: u8,
    pub data: Seq<u8>,
}

impl View for Notification {
    type V = NotificationModel;

    closed spec fn view(&self) -> NotificationModel {
        NotificationModel { err_code: self.err_code, err_subcode: self.err_subcode, data: self.data@ }
    }
}

impl Notification {
    /// A NOTIFICATION for `error`, whose data is `data` as eight big-endian octets.
    pub fn new(error: NotifErrorCode, data: usize) -> (r: Self)
        ensures
            r@ == (NotificationModel {
                err_code: code_value(error),
                err_subcode: subcode_value(error),
                data: be_octets(data as nat, 8),
            }),
    {
        let err_code: u8 = error.code();
        let err_subcode: u8 = error.subcode();
        Notification { err_code, err_subcode, data: be_bytes(data as u128, 8) }
    }

    /// A NOTIFICATION from its wire fields.
    pub fn from_parts(err_code: u8, err_subcode: u8, data: Vec<u8>) -> (r: Self)
        ensures
            r@ == (NotificationModel { err_code, err_subcode, data: data@ }),
    {
        Notification { err_code, err_subcode, data }
    }

    pub fn err_code(&self) -> (r: u8)
        ensures
            r == self@.err_code,
    {
        self.err_code
    }

    pub fn err_subcode(&self) -> (r: u8)
        ensures
            r == self@.err_subcode,
    {
        self.err_subcode
    }

    pub fn data(&self) -> (r: &[u8])
        ensures
            r@ == self@.data,
    {
        self.data.as_slice()
    }
}

/// A destination prefix: its length in bits and the address.
#[derive(Clone, Copy, Debug, PartialEq, Eq, Structural, PartialOrd, Ord, Hash)]
pub struct Route {
    length: u8,
    prefix: IpAddress,
}

impl View for Route {
    type V = (u8, IpAddress);

    closed spec fn view(&self) -> (u8, IpAddress) {
        (self.length, self.prefix)
    }
}

/// Octets of the address that a prefix of `bits` bits covers.
pub open spec fn prefix_octet_count(bits: u8, addr: IpAddress) -> nat {
    let c = (bits as nat + 7) / 8;
    let full = ip_octets(addr).len();
    if c <= full { c } else { full }
}

/// Wire form of a route: prefix length, then the octets the prefix covers.
pub open spec fn route_octets(r: (u8, IpAddress)) -> Seq<u8> {
    seq![r.0] + ip_octets(r.1).take(prefix_octet_count(r.0, r.1) as int)
}

pub open spec fn address_len(a: IpAddress) -> nat {
    match a {
        IpAddress::V4(_) => 4,
        IpAddress::V6(_) => 16,
    }
}

pub proof fn lemma_ip_octets_len(a: IpAddress)
    ensures
        ip_octets(a).len() == address_len(a),
{
    match a {
        IpAddress::V4(x) => crate::octets::lemma_be_octets_len(x as nat, 4),
        IpAddress::V6(x) => crate::octets::lemma_be_octets_len(x as nat, 16),
    }
}

impl Route {
    pub fn new(length: u8, prefix: IpAddress) -> (r: Self)
        ensures
            r@ == (length, prefix),
    {
        Route { length, prefix }
    }

    pub fn prefix_len(&self) -> (r: u8)
        ensures
            r == self@.0,
    {
        self.length
    }

    pub fn prefix(&self) -> (r: IpAddress)
        ensures
            r == self@.1,
    {
        self.prefix
    }

    pub fn prefix_v4(&self) -> (r: Option<u32>)
        ensures
            r == match self@.1 {
                IpAddress::V4(a) => Some(a),
                IpAddress::V6(_) => None::<u32>,
            },
    {
        match self.prefix {
            IpAddress::V4(a) => Some(a),
            IpAddress::V6(_) => None,
        }
    }

    pub fn prefix_v6(&self) -> (r: Option<u128>)
        ensures
            r == match self@.1 {
                IpAddress::V6(a) => Some(a),
                IpAddress::V4(_) => None::<u128>,
            },
    {
        match self.prefix {
            IpAddress::V6(a) => Some(a),
            IpAddress::V4(_) => None,
        }
    }

    /// Octets of the route on the wire.
    pub fn len(&self) -> (r: usize)
        ensures
            r == route_octets(self@).len(),
    {
        proof {
            lemma_ip_octets_len(self.prefix);
        }
        let full: usize = match self.prefix {
            IpAddress::V4(_) => 4,
            IpAddress::V6(_) => 16,
        };
        let c: usize = (self.length as usize + 7) / 8;
        if c <= full {
            1 + c
        } else {
            1 + full
        }
    }
}

/// Wire length of a list of routes.
pub open spec fn routes_len(s: Seq<Route>) -> nat
    decreases s.len(),
{
    if s.len() == 0 {
        0
    } else {
        routes_len(s.drop_last()) + route_octets(s.last()@).len()
    }
}

/// Wire length of a list of attributes.
pub open spec fn attrs_len(s: Seq<PathAttr>) -> nat
    decreases s.len(),
{
    if s.len() == 0 {
        0
    } else {
        attrs_len(s.drop_last()) + attr_wire_len(s.last()@)
    }
}

pub open spec fn attr_views(s: Seq<PathAttr>) -> Seq<PathAttrModel> {
    s.map_values(|a: PathAttr| a@)
}

/// Routes that share one list of attributes.
pub struct Nlri {
    routes: Vec<Route>,
    path_attrs: Vec<PathAttr>,
}

impl Nlri {
    pub fn new(routes: &[Route], pas: &[PathAttr]) -> (r: Self)
        ensures
            r.spec_routes() == routes@,
            attr_views(r.spec_attrs()) == attr_views(pas@),
    {
        let mut this_routes: Vec<Route> = Vec::new();
        let mut i: usize = 0;
        while i < routes.len()
            invariant
                i <= routes@.len(),
                this_routes@ == routes@.subrange(0, i as int),
            decreases routes@.len() - i,
        {
            this_routes.push(routes[i]);
            assert(routes@.subrange(0, i + 1) =~= routes@.subrange(0, i as int).push(routes@[i as int]));
            i = i + 1;
        }
        assert(routes@.subrange(0, routes@.len() as int) =~= routes@);
        Nlri { routes: this_routes, path_attrs: clone_attrs(pas) }
    }

    pub closed spec fn spec_routes(&self) -> Seq<Route> {
        self.routes@
    }

    pub closed spec fn spec_attrs(&self) -> Seq<PathAttr> {
        self.path_attrs@
    }
}

pub struct Update {
    withdrawn_routes_len: u16,
    withdrawn_routes: Option<Vec<Route>>,
    total_path_attr_len: u16,
    path_attrs: Option<Vec<PathAttr>>,
    nlri: Option<Vec<Route>>,
}

impl Update {
    pub closed spec fn spec_withdrawn(&self) -> Option<Seq<Route>> {
        match self.withdrawn_routes {
            Some(v) => Some(v@),
            None => None,
        }
    }

    pub closed spec fn spec_attrs(&self) -> Option<Seq<PathAttr>> {
        match self.path_attrs {
            Some(v) => Some(v@),
            None => None,
        }
    }

    pub closed spec fn spec_nlri(&self) -> Option<Seq<Route>> {
        match self.nlri {
            Some(v) => Some(v@),
            None => None,
        }
    }

    pub closed spec fn spec_withdrawn_len(&self) -> u16 {
        self.withdrawn_routes_len
    }

    pub closed spec fn spec_attrs_len(&self) -> u16 {
        self.total_path_attr_len
    }

    /// An UPDATE from its wire fields.
    pub fn from_parts(
        withdrawn_routes_len: u16,
        withdrawn_routes: Option<Vec<Route>>,
        total_path_attr_len: u16,
        path_attrs: Option<Vec<PathAttr>>,
        nlri: Option<Vec<Route>>,
    ) -> (r: Self)
        ensures
            r.spec_withdrawn_len() == withdrawn_routes_len,
            r.spec_attrs_len() == total_path_attr_len,
            r.spec_withdrawn() == match withdrawn_routes { Some(v) => Some(v@), None => None::<Seq<Route>> },
            r.spec_attrs() == match path_attrs { Some(v) => Some(v@), None => None::<Seq<PathAttr>> },
            r.spec_nlri() == match nlri { Some(v) => Some(v@), None => None::<Seq<Route>> },
    {
        Update { withdrawn_routes_len, withdrawn_routes, total_path_attr_len, path_attrs, nlri }
    }

    pub fn withdrawn_routes_len(&self) -> (r: u16)
        ensures
            r == self.spec_withdrawn_len(),
    {
        self.withdrawn_routes_len
    }

    pub fn withdrawn_routes(&self) -> (r: Option<&[Route]>)
        ensures
            match r {
                Some(s) => self.spec_withdrawn() == Some(s@),
                None => self.spec_withdrawn() is None,
            },
    {
        match &self.withdrawn_routes {
            Some(x) => Some(x.as_slice()),
            None => None,
        }
    }

    /// The withdrawn routes, for changing them in place.
    pub fn withdrawn_routes_mut(&mut self) -> (r: Option<&mut Vec<Route>>)
        ensures
            r is Some <==> old(self).spec_withdrawn() is Some,
            r matches Some(v) ==> old(self).spec_withdrawn() == Some(v@),
            r matches Some(v) ==> final(self).spec_withdrawn() == Some(final(v)@),
            r is None ==> final(self).spec_withdrawn() is None,
            final(self).spec_attrs() == old(self).spec_attrs(),
            final(self).spec_nlri() == old(self).spec_nlri(),
            final(self).spec_withdrawn_len() == old(self).spec_withdrawn_len(),
            final(self).spec_attrs_len() == old(self).spec_attrs_len(),
    {
        self.withdrawn_routes.as_mut()
    }

    pub fn total_path_attr_len(&self) -> (r: u16)
        ensures
            r == self.spec_attrs_len(),
    {
        self.total_path_attr_len
    }

    pub fn path_attrs(&self) -> (r: Option<&[PathAttr]>)
        ensures
            match r {
                Some(s) => self.spec_attrs() == Some(s@),
                None => self.spec_attrs() is None,
            },
    {
        match &self.path_attrs {
            Some(x) => Some(x.as_slice()),
            None => None,
        }
    }

    /// The attributes, for changing them in place.
    pub fn path_attrs_mut(&mut self) -> (r: Option<&mut Vec<PathAttr>>)
        ensures
            r is Some <==> old(self).spec_attrs() is Some,
            r matches Some(v) ==> old(self).spec_attrs() == Some(v@),
            r matches Some(v) ==> final(self).spec_attrs() == Some(final(v)@),
            r is None ==> final(self).spec_attrs() is None,
            final(self).spec_withdrawn() == old(self).spec_withdrawn(),
            final(self).spec_nlri() == old(self).spec_nlri(),
            final(self).spec_withdrawn_len() == old(self).spec_withdrawn_len(),
            final(self).spec_attrs_len() == old(self).spec_attrs_len(),
    {
        self.path_attrs.as_mut()
    }

    /// The reachable routes, for changing them in place.
    pub fn nlri_mut(&mut self) -> (r: Option<&mut Vec<Route>>)
        ensures
            r is Some <==> old(self).spec_nlri() is Some,
            r matches Some(v) ==> old(self).spec_nlri() == Some(v@),
            r matches Some(v) ==> final(self).spec_nlri() == Some(final(v)@),
            r is None ==> final(self).spec_nlri() is None,
            final(self).spec_withdrawn() == old(self).spec_withdrawn(),
            final(self).spec_attrs() == old(self).spec_attrs(),
            final(self).spec_withdrawn_len() == old(self).spec_withdrawn_len(),
            final(self).spec_attrs_len() == old(self).spec_attrs_len(),
    {
        self.nlri.as_mut()
    }

    pub fn nlri(&self) -> (r: Option<&[Route]>)
        ensures
            match r {
                Some(s) => self.spec_nlri() == Some(s@),
                None => self.spec_nlri() is None,
            },
    {
        match &self.nlri {
            Some(x) => Some(x.as_slice()),
            None => None,
        }
    }
}

pub struct UpdateBuilder {
    withdrawn_routes_len: u16,
    withdrawn_routes: Option<Vec<Route>>,
    total_path_attr_len: u16,
    path_attrs: Option<Vec<PathAttr>>,
    nlri: Option<Vec<Route>>,
}

impl UpdateBuilder {
    pub closed spec fn spec_update(&self) -> (u16, Option<Seq<Route>>, u16, Option<Seq<PathAttr>>, Option<Seq<Route>>) {
        (
            self.withdrawn_routes_len,
            match self.withdrawn_routes { Some(v) => Some(v@), None => None },
            self.total_path_attr_len,
            match self.path_attrs { Some(v) => Some(v@), None => None },
            match self.nlri { Some(v) => Some(v@), None => None },
        )
    }

    pub fn new() -> (r: Self)
        ensures
            r.spec_update() == (0u16, None::<Seq<Route>>, 0u16, None::<Seq<PathAttr>>, None::<Seq<Route>>),
    {
        UpdateBuilder {
            withdrawn_routes_len: 0,
            withdrawn_routes: None,
            total_path_attr_len: 0,
            path_attrs: None,
            nlri: None,
        }
    }

    /// Sets the withdrawn routes; an empty list leaves the builder as it was.
    pub fn withdrawn_routes(self, routes: Vec<Route>) -> (r: Self)
        requires
            routes_len(routes@) <= u16::MAX,
        ensures
            routes@.len() == 0 ==> r.spec_update() == self.spec_update(),
            routes@.len() > 0 ==> r.spec_update() == (
                routes_len(routes@) as u16,
                Some(routes@),
                self.spec_update().2,
                self.spec_update().3,
                self.spec_update().4,
            ),
    {
        if routes.len() == 0 {
            return self;
        }
        let mut s = self;
        let mut total: u16 = 0;
        let mut i: usize = 0;
        while i < routes.len()
            invariant
                i <= routes@.len(),
                routes_len(routes@) <= u16::MAX,
                total == routes_len(routes@.subrange(0, i as int)),
            decreases routes@.len() - i,
        {
            proof {
                lemma_routes_len_prefix(routes@, i as int + 1);
                assert(routes@.subrange(0, i + 1).drop_last() =~= routes@.subrange(0, i as int));
            }
            total = total + routes[i].len() as u16;
            i = i + 1;
        }
        assert(routes@.subrange(0, routes@.len() as int) =~= routes@);
        s.withdrawn_routes_len = total;
        s.withdrawn_routes = Some(routes);
        s
    }

    /// Sets the attributes and the reachable routes; when either list is
    /// empty the builder stays as it was.
    pub fn nlri(self, nlri: Nlri) -> (r: Self)
        requires
            attrs_len(nlri.spec_attrs()) <= u16::MAX,
        ensures
            (nlri.spec_routes().len() == 0 || nlri.spec_attrs().len() == 0) ==> r.spec_update() == self.spec_update(),
            (nlri.spec_routes().len() > 0 && nlri.spec_attrs().len() > 0) ==> r.spec_update() == (
                self.spec_update().0,
                self.spec_update().1,
                attrs_len(nlri.spec_attrs()) as u16,
                Some(nlri.spec_attrs()),
                Some(nlri.spec_routes()),
            ),
    {
        if nlri.routes.len() == 0 || nlri.path_attrs.len() == 0 {
            return self;
        }
        let mut s = self;
        let mut total: u16 = 0;
        let mut i: usize = 0;
        let pas = nlri.path_attrs;
        while i < pas.len()
            invariant
                i <= pas@.len(),
                attrs_len(pas@) <= u16::MAX,
                total == attrs_len(pas@.subrange(0, i as int)),
            decreases pas@.len() - i,
        {
            proof {
                lemma_attrs_len_prefix(pas@, i as int + 1);
                assert(pas@.subrange(0, i + 1).drop_last() =~= pas@.subrange(0, i as int));
            }
            total = total + pas[i].attr_len_octets() as u16;
            i = i + 1;
        }
        assert(pas@.subrange(0, pas@.len() as int) =~= pas@);
        s.total_path_attr_len = total;
        s.path_attrs = Some(pas);
        s.nlri = Some(nlri.routes);
        s
    }

    pub fn build(self) -> (r: Update)
        ensures
            r.spec_withdrawn_len() == self.spec_update().0,
            r.spec_withdrawn() == self.spec_update().1,
            r.spec_attrs_len() == self.spec_update().2,
            r.spec_attrs() == self.spec_update().3,
            r.spec_nlri() == self.spec_update().4,
    {
        Update {
            withdrawn_routes_len: self.withdrawn_routes_len,
            withdrawn_routes: self.withdrawn_routes,
            total_path_attr_len: self.total_path_attr_len,
            path_attrs: self.path_attrs,
            nlri: self.nlri,
        }
    }
}

pub proof fn lemma_routes_len_prefix(s: Seq<Route>, n: int)
    requires
        0 <= n <= s.len(),
    ensures
        routes_len(s.subrange(0, n)) <= routes_len(s),
    decreases s.len(),
{
    if n < s.len() {
        assert(s.drop_last().subrange(0, n) =~= s.subrange(0, n));
        lemma_routes_len_prefix(s.drop_last(), n);
    } else {
        assert(s.subrange(0, n) =~= s);
    }
}

pub proof fn lemma_attrs_len_prefix(s: Seq<PathAttr>, n: int)
    requires
        0 <= n <= s.len(),
    ensures
        attrs_len(s.subrange(0, n)) <= attrs_len(s),
    decreases s.len(),
{
    if n < s.len() {
        assert(s.drop_last().subrange(0, n) =~= s.subrange(0, n));
        lemma_attrs_len_prefix(s.drop_last(), n);
    } else {
        assert(s.subrange(0, n) =~= s);
    }
}

} // verus!
