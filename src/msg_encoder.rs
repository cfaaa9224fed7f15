//! Octet-exact serialization of BGP messages into `bytes::BytesMut`.
use vstd::prelude::*;
use bytes::{BufMut, BytesMut};
use crate::message_types::{
    attr_views, prefix_octet_count, route_octets, Header, HeaderModel, Notification,
    NotificationModel, Open, OpenModel, Route, TlvModel, Update,
};
use crate::octets::{be_octets, ip_octets};
use crate::path_attrs::{PathAttr, PathAttrLen, PathAttrModel};

verus! {

broadcast use crate::octets::lemma_be_octets_len;

/// `bytes::BytesMut`, the growable buffer the encoders write into; its
/// contents are known only through `buf_bytes`.
#[verifier::external_type_specification]
#[verifier::external_body]
pub struct ExBytesMut(BytesMut);

/// The octets a buffer holds.
pub uninterp spec fn buf_bytes(b: BytesMut) -> Seq<u8>;

/// Relies on `BytesMut::with_capacity`: a buffer of length 0 (the
/// allocation panics above `isize::MAX`).
#[verifier::external_body]
fn new_buf(cap: usize) -> (r: BytesMut)
    requires
        cap <= isize::MAX,
    ensures
        buf_bytes(r) == Seq::<u8>::empty(),
{
    BytesMut::with_capacity(cap)
}

/// Relies on `BufMut::put_u8` of `BytesMut`: appends the octet (the buffer
/// grows; it panics only when its length would pass `isize::MAX`).
#[verifier::external_body]
fn put_u8(b: &mut BytesMut, n: u8)
    requires
        buf_bytes(*old(b)).len() + 1 <= isize::MAX,
    ensures
        buf_bytes(*final(b)) == buf_bytes(*old(b)).push(n),
{
    b.put_u8(n)
}

/// Relies on `BufMut::put_u16` of `BytesMut`: appends the two octets of `n`,
/// most significant first.
#[verifier::external_body]
fn put_u16(b: &mut BytesMut, n: u16)
    requires
        buf_bytes(*old(b)).len() + 2 <= isize::MAX,
    ensures
        buf_bytes(*final(b)) == buf_bytes(*old(b)) + be_octets(n as nat, 2),
{
    b.put_u16(n)
}

/// Relies on `BufMut::put_u32` of `BytesMut`: appends the four octets of `n`,
/// most significant first.
#[verifier::external_body]
fn put_u32(b: &mut BytesMut, n: u32)
    requires
        buf_bytes(*old(b)).len() + 4 <= isize::MAX,
    ensures
        buf_bytes(*final(b)) == buf_bytes(*old(b)) + be_octets(n as nat, 4),
{
    b.put_u32(n)
}

/// Relies on `BufMut::put_slice` of `BytesMut`: appends the octets of `s`.
#[verifier::external_body]
fn put_slice(b: &mut BytesMut, s: &[u8])
    requires
        buf_bytes(*old(b)).len() + s@.len() <= isize::MAX,
    ensures
        buf_bytes(*final(b)) == buf_bytes(*old(b)) + s@,
{
    b.put_slice(s)
}

/// Largest message body this encoder writes: far below `isize::MAX`.
pub const MAX_ENCODED: usize = 0x1000_0000;

pub open spec fn header_octets(h: HeaderModel) -> Seq<u8> {
    h.marker + be_octets(h.length as nat, 2) + seq![h.message_type]
}

pub open spec fn notification_octets(n: NotificationModel) -> Seq<u8> {
    seq![n.err_code, n.err_subcode] + n.data
}

pub open spec fn tlv_octets(t: TlvModel) -> Seq<u8> {
    seq![t.param_type, t.param_length] + t.param_value
}

pub open spec fn tlvs_octets(s: Seq<TlvModel>) -> Seq<u8>
    decreases s.len(),
{
    if s.len() == 0 {
        Seq::empty()
    } else {
        tlvs_octets(s.drop_last()) + tlv_octets(s.last())
    }
}

pub open spec fn open_octets(o: OpenModel) -> Seq<u8> {
    seq![o.version] + be_octets(o.my_as as nat, 2) + be_octets(o.hold_time as nat, 2) + be_octets(o.bgp_id as nat, 4)
        + seq![o.opt_params_len] + if o.opt_params_len == 0 { Seq::empty() } else { tlvs_octets(o.opt_params) }
}

pub open spec fn len_octets(l: PathAttrLen) -> Seq<u8> {
    match l {
        PathAttrLen::Std(x) => seq![x],
        PathAttrLen::Ext(x) => be_octets(x as nat, 2),
    }
}

pub open spec fn attr_octets(a: PathAttrModel) -> Seq<u8> {
    seq![a.flags, a.type_code] + len_octets(a.len) + a.value
}

pub open spec fn attrs_octets(s: Seq<PathAttrModel>) -> Seq<u8>
    decreases s.len(),
{
    if s.len() == 0 {
        Seq::empty()
    } else {
        attrs_octets(s.drop_last()) + attr_octets(s.last())
    }
}

pub open spec fn routes_octets(s: Seq<Route>) -> Seq<u8>
    decreases s.len(),
{
    if s.len() == 0 {
        Seq::empty()
    } else {
        routes_octets(s.drop_last()) + route_octets(s.last()@)
    }
}

pub open spec fn opt_seq<T>(o: Option<Seq<T>>) -> Seq<T> {
    match o {
        Some(s) => s,
        None => Seq::empty(),
    }
}

pub open spec fn update_octets(u: &Update) -> Seq<u8> {
    be_octets(u.spec_withdrawn_len() as nat, 2) + routes_octets(opt_seq(u.spec_withdrawn()))
        + be_octets(u.spec_attrs_len() as nat, 2) + attrs_octets(attr_views(opt_seq(u.spec_attrs())))
        + routes_octets(opt_seq(u.spec_nlri()))
}

fn write_route(buf: &mut BytesMut, r: &Route)
    requires
        buf_bytes(*old(buf)).len() + 17 <= isize::MAX,
    ensures
        buf_bytes(*final(buf)) == buf_bytes(*old(buf)) + route_octets(r@),
{
    proof {
        crate::message_types::lemma_ip_octets_len(r@.1);
    }
    let octets = r.prefix().octets();
    let count = r.len() - 1;
    put_u8(buf, r.prefix_len());
    let covered = octets.as_slice().split_at(count).0;
    put_slice(buf, covered);
    assert(covered@ =~= ip_octets(r@.1).take(prefix_octet_count(r@.0, r@.1) as int));
    assert(buf_bytes(*buf) =~= buf_bytes(*old(buf)) + route_octets(r@));
}

fn write_attr(buf: &mut BytesMut, a: &PathAttr)
    requires
        buf_bytes(*old(buf)).len() + a@.value.len() + 4 <= isize::MAX,
    ensures
        buf_bytes(*final(buf)) == buf_bytes(*old(buf)) + attr_octets(a@),
{
    let ghost start = buf_bytes(*buf);
    put_u8(buf, a.attr_flags());
    put_u8(buf, a.attr_type_code());
    match a.attr_len() {
        PathAttrLen::Std(x) => put_u8(buf, *x),
        PathAttrLen::Ext(x) => put_u16(buf, *x),
    }
    put_slice(buf, a.attr_value());
    assert(buf_bytes(*buf) =~= start + attr_octets(a@));
}

pub struct HeaderSerializer {
    msg: Header,
    buf: BytesMut,
}

impl HeaderSerializer {
    pub closed spec fn spec_msg(&self) -> HeaderModel {
        self.msg@
    }

    pub closed spec fn spec_buf(&self) -> Seq<u8> {
        buf_bytes(self.buf)
    }

    pub fn new(msg: Header) -> (r: Self)
        ensures
            r.spec_msg() == msg@,
            r.spec_buf() == Seq::<u8>::empty(),
    {
        HeaderSerializer { msg, buf: new_buf(19) }
    }

    /// Marker, length (two octets, big-endian) and type.
    pub fn serialize(self) -> (r: BytesMut)
        requires
            self.spec_buf() == Seq::<u8>::empty(),
            self.spec_msg().marker.len() <= MAX_ENCODED,
        ensures
            buf_bytes(r) == header_octets(self.spec_msg()),
    {
        let mut buf = self.buf;
        put_slice(&mut buf, self.msg.marker());
        put_u16(&mut buf, self.msg.length());
        put_u8(&mut buf, self.msg.message_type());
        assert(buf_bytes(buf) =~= header_octets(self.msg@));
        buf
    }
}

pub struct NotificationSerializer {
    msg: Notification,
    buf: BytesMut,
}

impl NotificationSerializer {
    pub closed spec fn spec_msg(&self) -> NotificationModel {
        self.msg@
    }

    pub closed spec fn spec_buf(&self) -> Seq<u8> {
        buf_bytes(self.buf)
    }

    pub fn new(msg: Notification) -> (r: Self)
        requires
            msg@.data.len() <= MAX_ENCODED,
        ensures
            r.spec_msg() == msg@,
            r.spec_buf() == Seq::<u8>::empty(),
    {
        let len = msg.data().len();
        NotificationSerializer { msg, buf: new_buf(2 + len) }
    }

    /// Code, subcode, then the data.
    pub fn serialize(self) -> (r: BytesMut)
        requires
            self.spec_buf() == Seq::<u8>::empty(),
            self.spec_msg().data.len() <= MAX_ENCODED,
        ensures
            buf_bytes(r) == notification_octets(self.spec_msg()),
    {
        let mut buf = self.buf;
        put_u8(&mut buf, self.msg.err_code());
        put_u8(&mut buf, self.msg.err_subcode());
        put_slice(&mut buf, self.msg.data());
        assert(buf_bytes(buf) =~= notification_octets(self.msg@));
        buf
    }
}

pub struct OpenSerializer {
    msg: Open,
    buf: BytesMut,
}

impl OpenSerializer {
    pub closed spec fn spec_msg(&self) -> OpenModel {
        self.msg@
    }

    pub closed spec fn spec_buf(&self) -> Seq<u8> {
        buf_bytes(self.buf)
    }

    pub fn new(msg: Open) -> (r: Self)
        ensures
            r.spec_msg() == msg@,
            r.spec_buf() == Seq::<u8>::empty(),
    {
        let params_len = msg.opt_params_len();
        OpenSerializer { msg, buf: new_buf(10 + params_len as usize) }
    }

    /// Fixed fields, then the parameters when their length is not 0.
    pub fn serialize(self) -> (r: BytesMut)
        requires
            self.spec_buf() == Seq::<u8>::empty(),
            self.spec_msg().opt_params.len() <= 255,
            forall|i: int| 0 <= i < self.spec_msg().opt_params.len() ==>
                (#[trigger] self.spec_msg().opt_params[i]).param_value.len() <= 255,
        ensures
            buf_bytes(r) == open_octets(self.spec_msg()),
    {
        let mut buf = self.buf;
        let ghost o = self.msg@;
        put_u8(&mut buf, self.msg.version());
        put_u16(&mut buf, self.msg.my_as());
        put_u16(&mut buf, self.msg.hold_time());
        put_u32(&mut buf, self.msg.bgp_id());
        let opt_len = self.msg.opt_params_len();
        put_u8(&mut buf, opt_len);
        let ghost fixed = buf_bytes(buf);
        if opt_len == 0 {
            assert(buf_bytes(buf) =~= open_octets(o));
            return buf;
        }
        let params = self.msg.opt_params();
        let mut i: usize = 0;
        while i < params.len()
            invariant
                i <= params@.len(),
                crate::message_types::tlv_views(params@) == o.opt_params,
                params@.len() <= 255,
                forall|j: int| 0 <= j < o.opt_params.len() ==> (#[trigger] o.opt_params[j]).param_value.len() <= 255,
                buf_bytes(buf) == fixed + tlvs_octets(o.opt_params.subrange(0, i as int)),
                fixed.len() == 10,
                tlvs_octets(o.opt_params.subrange(0, i as int)).len() <= i * 257,
            decreases params@.len() - i,
        {
            let t = &params[i];
            assert(o.opt_params[i as int] == t@);
            put_u8(&mut buf, t.param_type());
            put_u8(&mut buf, t.param_length());
            put_slice(&mut buf, t.param_value());
            proof {
                let sub = o.opt_params.subrange(0, i + 1);
                assert(sub.drop_last() =~= o.opt_params.subrange(0, i as int));
                assert(buf_bytes(buf) =~= fixed + tlvs_octets(sub));
            }
            i = i + 1;
        }
        assert(o.opt_params.subrange(0, i as int) =~= o.opt_params);
        buf
    }
}

pub struct RouteSerializer {
    msg: Route,
    buf: BytesMut,
}

impl RouteSerializer {
    pub closed spec fn spec_msg(&self) -> Route {
        self.msg
    }

    pub closed spec fn spec_buf(&self) -> Seq<u8> {
        buf_bytes(self.buf)
    }

    pub fn new(msg: Route) -> (r: Self)
        ensures
            r.spec_msg() == msg,
            r.spec_buf() == Seq::<u8>::empty(),
    {
        let byte_len = msg.len();
        RouteSerializer { msg, buf: new_buf(byte_len) }
    }

    /// Prefix length, then the octets of the address that the prefix covers.
    pub fn serialize(self) -> (r: BytesMut)
        requires
            self.spec_buf() == Seq::<u8>::empty(),
        ensures
            buf_bytes(r) == route_octets(self.spec_msg()@),
    {
        let mut buf = self.buf;
        write_route(&mut buf, &self.msg);
        assert(buf_bytes(buf) =~= route_octets(self.msg@));
        buf
    }
}

pub struct PathAttrSerializer {
    msg: PathAttr,
    buf: BytesMut,
}

impl PathAttrSerializer {
    pub closed spec fn spec_msg(&self) -> PathAttrModel {
        self.msg@
    }

    pub closed spec fn spec_buf(&self) -> Seq<u8> {
        buf_bytes(self.buf)
    }

    pub fn new(msg: PathAttr) -> (r: Self)
        requires
            msg@.value.len() <= MAX_ENCODED,
        ensures
            r.spec_msg() == msg@,
            r.spec_buf() == Seq::<u8>::empty(),
    {
        let byte_len = msg.byte_len();
        PathAttrSerializer { msg, buf: new_buf(byte_len) }
    }

    /// Flags, type, the length in its standard or extended form, the value.
    pub fn serialize(self) -> (r: BytesMut)
        requires
            self.spec_buf() == Seq::<u8>::empty(),
            self.spec_msg().value.len() <= MAX_ENCODED,
        ensures
            buf_bytes(r) == attr_octets(self.spec_msg()),
    {
        let mut buf = self.buf;
        write_attr(&mut buf, &self.msg);
        assert(buf_bytes(buf) =~= attr_octets(self.msg@));
        buf
    }
}

pub struct UpdateSerializer {
    msg: Update,
    buf: BytesMut,
}

/// The lists of an UPDATE are small enough to encode.
pub open spec fn update_fits(u: &Update) -> bool {
    &&& opt_seq(u.spec_withdrawn()).len() <= 0x1_0000
    &&& opt_seq(u.spec_nlri()).len() <= 0x1_0000
    &&& opt_seq(u.spec_attrs()).len() <= 0x1000
    &&& forall|i: int| 0 <= i < opt_seq(u.spec_attrs()).len() ==> (#[trigger] opt_seq(u.spec_attrs())[i])@.value.len() <= 0x1_0000
}

proof fn lemma_routes_octets_len(s: Seq<Route>)
    ensures
        routes_octets(s).len() <= 17 * s.len(),
    decreases s.len(),
{
    if s.len() > 0 {
        lemma_routes_octets_len(s.drop_last());
        crate::message_types::lemma_ip_octets_len(s.last()@.1);
    }
}

fn write_routes(buf: &mut BytesMut, routes: &[Route])
    requires
        buf_bytes(*old(buf)).len() + 17 * routes@.len() + 17 <= isize::MAX,
    ensures
        buf_bytes(*final(buf)) == buf_bytes(*old(buf)) + routes_octets(routes@),
{
    let ghost start = buf_bytes(*buf);
    let mut i: usize = 0;
    while i < routes.len()
        invariant
            i <= routes@.len(),
            start.len() + 17 * routes@.len() + 17 <= isize::MAX,
            buf_bytes(*buf) == start + routes_octets(routes@.subrange(0, i as int)),
        decreases routes@.len() - i,
    {
        proof {
            lemma_routes_octets_len(routes@.subrange(0, i as int));
        }
        write_route(buf, &routes[i]);
        proof {
            let sub = routes@.subrange(0, i + 1);
            assert(sub.drop_last() =~= routes@.subrange(0, i as int));
            assert(buf_bytes(*buf) =~= start + routes_octets(sub));
        }
        i = i + 1;
    }
    assert(routes@.subrange(0, i as int) =~= routes@);
}

proof fn lemma_attrs_octets_len(s: Seq<PathAttrModel>)
    requires
        forall|i: int| 0 <= i < s.len() ==> (#[trigger] s[i]).value.len() <= 0x1_0000,
    ensures
        attrs_octets(s).len() <= 0x1_0004 * s.len(),
    decreases s.len(),
{
    if s.len() > 0 {
        let t = s.drop_last();
        assert forall|i: int| 0 <= i < t.len() implies (#[trigger] t[i]).value.len() <= 0x1_0000 by {
            assert(t[i] == s[i]);
        }
        lemma_attrs_octets_len(t);
        let l = s.last().len;
        match l {
            PathAttrLen::Std(_) => {},
            PathAttrLen::Ext(x) => {
                crate::octets::lemma_be_octets_len(x as nat, 2);
            },
        }
    }
}

fn write_attrs(buf: &mut BytesMut, attrs: &[PathAttr])
    requires
        forall|i: int| 0 <= i < attrs@.len() ==> (#[trigger] attrs@[i])@.value.len() <= 0x1_0000,
        buf_bytes(*old(buf)).len() + 0x1_0004 * attrs@.len() + 0x1_0004 <= isize::MAX,
    ensures
        buf_bytes(*final(buf)) == buf_bytes(*old(buf)) + attrs_octets(attr_views(attrs@)),
{
    let ghost start = buf_bytes(*buf);
    let ghost views = attr_views(attrs@);
    let mut i: usize = 0;
    while i < attrs.len()
        invariant
            i <= attrs@.len(),
            views == attr_views(attrs@),
            forall|j: int| 0 <= j < attrs@.len() ==> (#[trigger] attrs@[j])@.value.len() <= 0x1_0000,
            start.len() + 0x1_0004 * attrs@.len() + 0x1_0004 <= isize::MAX,
            buf_bytes(*buf) == start + attrs_octets(views.subrange(0, i as int)),
        decreases attrs@.len() - i,
    {
        proof {
            let sub = views.subrange(0, i as int);
            assert forall|j: int| 0 <= j < sub.len() implies (#[trigger] sub[j]).value.len() <= 0x1_0000 by {
                assert(sub[j] == attrs@[j]@);
            }
            lemma_attrs_octets_len(sub);
            assert(0x1_0004 * i <= 0x1_0004 * attrs@.len()) by (nonlinear_arith)
                requires
                    i <= attrs@.len(),
            ;
        }
        write_attr(buf, &attrs[i]);
        proof {
            let sub = views.subrange(0, i + 1);
            assert(sub.drop_last() =~= views.subrange(0, i as int));
            assert(buf_bytes(*buf) =~= start + attrs_octets(sub));
        }
        i = i + 1;
    }
    assert(views.subrange(0, i as int) =~= views);
}

impl UpdateSerializer {
    pub closed spec fn spec_msg(&self) -> &Update {
        &self.msg
    }

    pub closed spec fn spec_buf(&self) -> Seq<u8> {
        buf_bytes(self.buf)
    }

    pub fn new(msg: Update) -> (r: Self)
        ensures
            r.spec_msg() == &msg,
            r.spec_buf() == Seq::<u8>::empty(),
    {
        let w_routes_len = msg.withdrawn_routes_len();
        let pa_len = msg.total_path_attr_len();
        UpdateSerializer { msg, buf: new_buf(2 + w_routes_len as usize + 2 + pa_len as usize) }
    }

    /// Withdrawn length and routes, attribute length and attributes, then
    /// the reachable routes.
    pub fn serialize(self) -> (r: BytesMut)
        requires
            self.spec_buf() == Seq::<u8>::empty(),
            update_fits(self.spec_msg()),
        ensures
            buf_bytes(r) == update_octets(self.spec_msg()),
    {
        let mut buf = self.buf;
        let ghost u = &self.msg;
        let empty_routes: Vec<Route> = Vec::new();
        let empty_attrs: Vec<PathAttr> = Vec::new();
        put_u16(&mut buf, self.msg.withdrawn_routes_len());
        let w = match self.msg.withdrawn_routes() {
            Some(s) => s,
            None => empty_routes.as_slice(),
        };
        assert(w@ == opt_seq(u.spec_withdrawn()));
        proof {
            crate::octets::lemma_be_octets_len(u.spec_withdrawn_len() as nat, 2);
        }
        write_routes(&mut buf, w);
        proof {
            lemma_routes_octets_len(w@);
            crate::octets::lemma_be_octets_len(u.spec_attrs_len() as nat, 2);
        }
        put_u16(&mut buf, self.msg.total_path_attr_len());
        let a = match self.msg.path_attrs() {
            Some(s) => s,
            None => empty_attrs.as_slice(),
        };
        assert(a@ == opt_seq(u.spec_attrs()));
        assert(buf_bytes(buf).len() <= 4 + 17 * 0x1_0000);
        assert forall|i: int| 0 <= i < a@.len() implies (#[trigger] a@[i])@.value.len() <= 0x1_0000 by {
            assert(a@[i] == opt_seq(u.spec_attrs())[i]);
        }
        write_attrs(&mut buf, a);
        proof {
            let views = attr_views(a@);
            assert forall|j: int| 0 <= j < views.len() implies (#[trigger] views[j]).value.len() <= 0x1_0000 by {
                assert(views[j] == a@[j]@);
            }
            lemma_attrs_octets_len(views);
        }
        let n = match self.msg.nlri() {
            Some(s) => s,
            None => empty_routes.as_slice(),
        };
        assert(n@ == opt_seq(u.spec_nlri()));
        assert(buf_bytes(buf).len() <= 4 + 17 * 0x1_0000 + 0x1_0004 * 0x1000);
        write_routes(&mut buf, n);
        assert(buf_bytes(buf) =~= update_octets(u));
        buf
    }
}

} // verus!
