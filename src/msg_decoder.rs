//! Decoding of BGP messages from octets, with the checks that map to
//! NOTIFICATION codes.
use vstd::prelude::*;
use crate::errors::{MsgHeaderErrSubcode, NotifErrorCode, OpenMsgErrSubcode, UpdateMsgErrSubcode};
use crate::message_types::{
    marker_octets, route_octets, tlv_views, Header, HeaderModel, Notification, NotificationModel,
    Open, OpenModel, Route, Tlv, TlvModel, Update, HEADER_LEN, MARKER_OCTET, MAX_MSG_LEN,
};
use crate::msg_encoder::{attr_octets, header_octets, notification_octets, open_octets, tlv_octets, tlvs_octets};
use crate::octets::{be_octets, be_value, ip_octets, lemma_be_round_trip, lemma_pow256_values, read_be, IpAddress};
use crate::path_attrs::{
    as_path_valid, attr_wf, has_ext_bit, has_partial_bit, is_optional, len_value, low_bits_clear, PathAttr, PathAttrLen,
    PathAttrModel, AS_PATH, EXTENDED_BIT, OPTIONAL_BIT, PARTIAL_BIT,
};

verus! {

broadcast use crate::octets::lemma_be_octets_len;

pub const BGP_VERSION: u8 = 4;

pub open spec fn header_err(s: MsgHeaderErrSubcode) -> NotifErrorCode {
    NotifErrorCode::MessageHeaderError(s)
}

pub open spec fn open_err(s: OpenMsgErrSubcode) -> NotifErrorCode {
    NotifErrorCode::OpenMessageError(s)
}

pub open spec fn update_err(s: UpdateMsgErrSubcode) -> NotifErrorCode {
    NotifErrorCode::UpdateMessageError(s)
}

pub open spec fn marker_ok(b: Seq<u8>) -> bool {
    forall|i: int| 0 <= i < 16 ==> b[i] == MARKER_OCTET
}

/// Header checks: marker, then length, then type.
pub open spec fn decode_header_spec(b: Seq<u8>) -> Result<HeaderModel, NotifErrorCode> {
    if b.len() < 19 {
        Err(header_err(MsgHeaderErrSubcode::BadMsgLen))
    } else if !marker_ok(b) {
        Err(header_err(MsgHeaderErrSubcode::ConnNotSynced))
    } else {
        let len = be_value(b.subrange(16, 18));
        if len < HEADER_LEN || len > MAX_MSG_LEN {
            Err(header_err(MsgHeaderErrSubcode::BadMsgLen))
        } else if b[18] < 1 || b[18] > 4 {
            Err(header_err(MsgHeaderErrSubcode::BadMsgType))
        } else {
            Ok(HeaderModel { marker: b.subrange(0, 16), length: len as u16, message_type: b[18] })
        }
    }
}

/// Decodes the 19-octet header at the start of `b`.
pub fn decode_header(b: &[u8]) -> (r: Result<Header, NotifErrorCode>)
    ensures
        match r {
            Ok(h) => decode_header_spec(b@) == Ok::<HeaderModel, NotifErrorCode>(h@),
            Err(e) => decode_header_spec(b@) == Err::<HeaderModel, NotifErrorCode>(e),
        },
{
    if b.len() < 19 {
        return Err(NotifErrorCode::MessageHeaderError(MsgHeaderErrSubcode::BadMsgLen));
    }
    let mut i: usize = 0;
    while i < 16
        invariant
            i <= 16,
            b@.len() >= 19,
            forall|j: int| 0 <= j < i ==> b@[j] == MARKER_OCTET,
        decreases 16 - i,
    {
        if b[i] != MARKER_OCTET {
            return Err(NotifErrorCode::MessageHeaderError(MsgHeaderErrSubcode::ConnNotSynced));
        }
        i = i + 1;
    }
    let len = read_be(b, 16, 2);
    if len < HEADER_LEN as u64 || len > MAX_MSG_LEN as u64 {
        return Err(NotifErrorCode::MessageHeaderError(MsgHeaderErrSubcode::BadMsgLen));
    }
    let t = b[18];
    if t < 1 || t > 4 {
        return Err(NotifErrorCode::MessageHeaderError(MsgHeaderErrSubcode::BadMsgType));
    }
    let mut marker: Vec<u8> = Vec::new();
    let mut j: usize = 0;
    while j < 16
        invariant
            j <= 16,
            b@.len() >= 19,
            marker@ == b@.subrange(0, j as int),
        decreases 16 - j,
    {
        marker.push(b[j]);
        assert(marker@ =~= b@.subrange(0, j + 1));
        j = j + 1;
    }
    Ok(Header::from_parts(marker, len as u16, t))
}

/// A header that `Header::new` can build, with a legal length, decodes to itself.
pub proof fn lemma_header_round_trip(h: HeaderModel)
    requires
        h.marker == marker_octets(),
        HEADER_LEN <= h.length <= MAX_MSG_LEN,
        1 <= h.message_type <= 4,
    ensures
        decode_header_spec(header_octets(h)) == Ok::<HeaderModel, NotifErrorCode>(h),
{
    let b = header_octets(h);
    lemma_pow256_values();
    lemma_be_round_trip(h.length as nat, 2);
    assert(b.subrange(16, 18) =~= be_octets(h.length as nat, 2));
    assert(b.subrange(0, 16) =~= h.marker);
    assert(marker_ok(b));
}

pub open spec fn decode_notification_spec(b: Seq<u8>) -> Result<NotificationModel, NotifErrorCode> {
    if b.len() < 2 {
        Err(header_err(MsgHeaderErrSubcode::BadMsgLen))
    } else {
        Ok(NotificationModel { err_code: b[0], err_subcode: b[1], data: b.skip(2) })
    }
}

/// Decodes a NOTIFICATION body: code, subcode, then the data.
pub fn decode_notification(b: &[u8]) -> (r: Result<Notification, NotifErrorCode>)
    ensures
        match r {
            Ok(n) => decode_notification_spec(b@) == Ok::<NotificationModel, NotifErrorCode>(n@),
            Err(e) => decode_notification_spec(b@) == Err::<NotificationModel, NotifErrorCode>(e),
        },
{
    if b.len() < 2 {
        return Err(NotifErrorCode::MessageHeaderError(MsgHeaderErrSubcode::BadMsgLen));
    }
    let data = copy_range(b, 2, b.len());
    assert(data@ =~= b@.skip(2));
    Ok(Notification::from_parts(b[0], b[1], data))
}

/// Every NOTIFICATION decodes to itself.
pub proof fn lemma_notification_round_trip(n: NotificationModel)
    ensures
        decode_notification_spec(notification_octets(n)) == Ok::<NotificationModel, NotifErrorCode>(n),
{
    let b = notification_octets(n);
    assert(b.skip(2) =~= n.data);
}

/// The octets of `b` from `start` to `end`.
pub fn copy_range(b: &[u8], start: usize, end: usize) -> (r: Vec<u8>)
    requires
        start <= end <= b@.len(),
    ensures
        r@ == b@.subrange(start as int, end as int),
{
    let mut out: Vec<u8> = Vec::new();
    let mut i: usize = start;
    while i < end
        invariant
            start <= i <= end,
            end <= b@.len(),
            out@ == b@.subrange(start as int, i as int),
        decreases end - i,
    {
        out.push(b[i]);
        assert(out@ =~= b@.subrange(start as int, i + 1));
        i = i + 1;
    }
    out
}

/// Optional parameters, read front to back.
pub open spec fn parse_tlvs(s: Seq<u8>) -> Option<Seq<TlvModel>>
    decreases s.len(),
{
    if s.len() == 0 {
        Some(Seq::empty())
    } else if s.len() < 2 || s.len() < 2 + s[1] {
        None
    } else {
        match parse_tlvs(s.skip(2 + s[1])) {
            Some(rest) => Some(
                seq![TlvModel { param_type: s[0], param_length: s[1], param_value: s.subrange(2, 2 + s[1]) }] + rest,
            ),
            None => None,
        }
    }
}

pub open spec fn decode_open_spec(b: Seq<u8>) -> Result<OpenModel, NotifErrorCode> {
    if b.len() < 10 {
        Err(header_err(MsgHeaderErrSubcode::BadMsgLen))
    } else if b[0] != BGP_VERSION {
        Err(open_err(OpenMsgErrSubcode::UnsupportedVerNum))
    } else {
        let hold = be_value(b.subrange(3, 5));
        if hold == 1 || hold == 2 {
            Err(open_err(OpenMsgErrSubcode::UnacceptableHoldTime))
        } else if b.len() != 10 + b[9] {
            Err(header_err(MsgHeaderErrSubcode::BadMsgLen))
        } else {
            match parse_tlvs(b.skip(10)) {
                None => Err(open_err(OpenMsgErrSubcode::UnsupportedOptParam)),
                Some(params) => Ok(OpenModel {
                    version: b[0],
                    my_as: be_value(b.subrange(1, 3)) as u16,
                    hold_time: hold as u16,
                    bgp_id: be_value(b.subrange(5, 9)) as u32,
                    opt_params_len: b[9],
                    opt_params: params,
                }),
            }
        }
    }
}

pub open spec fn prepend_opt(a: Seq<TlvModel>, o: Option<Seq<TlvModel>>) -> Option<Seq<TlvModel>> {
    match o {
        Some(r) => Some(a + r),
        None => None,
    }
}

/// Decodes an OPEN body; hold times 1 and 2 are refused.
pub fn decode_open(b: &[u8]) -> (r: Result<Open, NotifErrorCode>)
    ensures
        match r {
            Ok(o) => decode_open_spec(b@) == Ok::<OpenModel, NotifErrorCode>(o@),
            Err(e) => decode_open_spec(b@) == Err::<OpenModel, NotifErrorCode>(e),
        },
{
    if b.len() < 10 {
        return Err(NotifErrorCode::MessageHeaderError(MsgHeaderErrSubcode::BadMsgLen));
    }
    if b[0] != BGP_VERSION {
        return Err(NotifErrorCode::OpenMessageError(OpenMsgErrSubcode::UnsupportedVerNum));
    }
    let hold = read_be(b, 3, 2);
    if hold == 1 || hold == 2 {
        return Err(NotifErrorCode::OpenMessageError(OpenMsgErrSubcode::UnacceptableHoldTime));
    }
    let opt_len = b[9];
    if b.len() != 10 + opt_len as usize {
        return Err(NotifErrorCode::MessageHeaderError(MsgHeaderErrSubcode::BadMsgLen));
    }
    let ghost s = b@.skip(10);
    let mut params: Vec<Tlv> = Vec::new();
    let mut pos: usize = 10;
    let n = b.len();
    while pos < n
        invariant
            n == b@.len(),
            10 <= pos <= n,
            s == b@.skip(10),
            b@.len() >= 10,
            b@[0] == BGP_VERSION,
            hold as nat == be_value(b@.subrange(3, 5)),
            hold != 1 && hold != 2,
            opt_len == b@[9],
            b@.len() == 10 + b@[9],
            parse_tlvs(s) == prepend_opt(tlv_views(params@), parse_tlvs(b@.skip(pos as int))),
        decreases n - pos,
    {
        let ghost rest = b@.skip(pos as int);
        if n - pos < 2 {
            assert(parse_tlvs(rest) is None);
            return Err(NotifErrorCode::OpenMessageError(OpenMsgErrSubcode::UnsupportedOptParam));
        }
        let l = b[pos + 1] as usize;
        if n - pos < 2 + l {
            assert(rest[1] == b@[pos + 1]);
            assert(parse_tlvs(rest) is None);
            return Err(NotifErrorCode::OpenMessageError(OpenMsgErrSubcode::UnsupportedOptParam));
        }
        let value = copy_range(b, pos + 2, pos + 2 + l);
        let t = Tlv::new(b[pos], value);
        proof {
            assert(rest[0] == b@[pos as int] && rest[1] == b@[pos + 1]);
            assert(rest.skip(2 + rest[1]) =~= b@.skip(pos + 2 + l));
            assert(rest.subrange(2, 2 + rest[1]) =~= b@.subrange(pos + 2, pos + 2 + l));
        }
        let ghost before = tlv_views(params@);
        params.push(t);
        proof {
            assert(tlv_views(params@) =~= before.push(t@));
            match parse_tlvs(b@.skip(pos + 2 + l)) {
                Some(r2) => {
                    assert(before + (seq![t@] + r2) =~= before.push(t@) + r2);
                },
                None => {},
            }
        }
        pos = pos + 2 + l;
    }
    proof {
        assert(b@.skip(pos as int) =~= Seq::<u8>::empty());
        assert(tlv_views(params@) + Seq::<TlvModel>::empty() =~= tlv_views(params@));
    }
    let my_as = read_be(b, 1, 2);
    let bgp_id = read_be(b, 5, 4);
    proof {
        crate::octets::lemma_be_value_bound(b@.subrange(1, 3));
        crate::octets::lemma_be_value_bound(b@.subrange(3, 5));
        crate::octets::lemma_be_value_bound(b@.subrange(5, 9));
        lemma_pow256_values();
    }
    Ok(Open::from_parts(b[0], my_as as u16, hold as u16, bgp_id as u32, opt_len, params))
}

proof fn lemma_tlvs_front(ts: Seq<TlvModel>)
    requires
        ts.len() > 0,
    ensures
        tlvs_octets(ts) == tlv_octets(ts[0]) + tlvs_octets(ts.drop_first()),
    decreases ts.len(),
{
    if ts.len() > 1 {
        lemma_tlvs_front(ts.drop_last());
        assert(ts.drop_last().drop_first() =~= ts.drop_first().drop_last());
        assert(ts.drop_first().last() == ts.last());
        assert(ts.drop_last()[0] == ts[0]);
    } else {
        assert(ts.drop_first() =~= Seq::<TlvModel>::empty());
        assert(ts.drop_last() =~= Seq::<TlvModel>::empty());
    }
}

/// Parameters whose length fields match their values parse back.
proof fn lemma_parse_tlvs_round_trip(ts: Seq<TlvModel>)
    requires
        forall|i: int| 0 <= i < ts.len() ==> (#[trigger] ts[i]).param_length == ts[i].param_value.len(),
    ensures
        parse_tlvs(tlvs_octets(ts)) == Some(ts),
    decreases ts.len(),
{
    if ts.len() == 0 {
        assert(tlvs_octets(ts) =~= Seq::<u8>::empty());
    } else {
        lemma_tlvs_front(ts);
        let t = ts[0];
        let rest = ts.drop_first();
        assert forall|i: int| 0 <= i < rest.len() implies (#[trigger] rest[i]).param_length == rest[i].param_value.len() by {
            assert(rest[i] == ts[i + 1]);
        }
        lemma_parse_tlvs_round_trip(rest);
        let s = tlvs_octets(ts);
        assert(s[1] == t.param_length);
        assert(s.skip(2 + s[1]) =~= tlvs_octets(rest));
        assert(s.subrange(2, 2 + s[1]) =~= t.param_value);
        assert(seq![TlvModel { param_type: s[0], param_length: s[1], param_value: s.subrange(2, 2 + s[1]) }] + rest =~= ts);
    }
}

proof fn lemma_tlvs_octets_len(ts: Seq<TlvModel>)
    requires
        forall|i: int| 0 <= i < ts.len() ==> (#[trigger] ts[i]).param_length == ts[i].param_value.len(),
    ensures
        tlvs_octets(ts).len() == crate::message_types::tlvs_len(ts),
    decreases ts.len(),
{
    if ts.len() > 0 {
        let t = ts.drop_last();
        assert forall|i: int| 0 <= i < t.len() implies (#[trigger] t[i]).param_length == t[i].param_value.len() by {
            assert(t[i] == ts[i]);
        }
        lemma_tlvs_octets_len(t);
        assert(ts.last() == ts[ts.len() - 1]);
    }
}

/// An OPEN of version 4 with an acceptable hold time, whose parameter
/// length counts its parameters, decodes to itself.
pub proof fn lemma_open_round_trip(o: OpenModel)
    requires
        o.version == BGP_VERSION,
        o.hold_time != 1 && o.hold_time != 2,
        o.opt_params_len == crate::message_types::tlvs_len(o.opt_params),
        forall|i: int| 0 <= i < o.opt_params.len() ==> (#[trigger] o.opt_params[i]).param_length
            == o.opt_params[i].param_value.len(),
    ensures
        decode_open_spec(open_octets(o)) == Ok::<OpenModel, NotifErrorCode>(o),
{
    let b = open_octets(o);
    lemma_pow256_values();
    lemma_be_round_trip(o.my_as as nat, 2);
    lemma_be_round_trip(o.hold_time as nat, 2);
    lemma_be_round_trip(o.bgp_id as nat, 4);
    lemma_tlvs_octets_len(o.opt_params);
    lemma_parse_tlvs_round_trip(o.opt_params);
    if o.opt_params.len() > 0 {
        assert(crate::message_types::tlvs_len(o.opt_params) >= 2);
    } else {
        assert(tlvs_octets(o.opt_params) =~= Seq::<u8>::empty());
    }
    assert(b.subrange(1, 3) =~= be_octets(o.my_as as nat, 2));
    assert(b.subrange(3, 5) =~= be_octets(o.hold_time as nat, 2));
    assert(b.subrange(5, 9) =~= be_octets(o.bgp_id as nat, 4));
    assert(b.skip(10) =~= tlvs_octets(o.opt_params));
}

pub open spec fn zeros(n: nat) -> Seq<u8> {
    Seq::new(n, |i: int| 0u8)
}

/// An IPv4 route: prefix length (at most 32), then the covered octets.
pub open spec fn decode_route_v4_spec(b: Seq<u8>) -> Result<((u8, IpAddress), nat), NotifErrorCode> {
    if b.len() < 1 || b[0] > 32 {
        Err(update_err(UpdateMsgErrSubcode::InvalidNetworkField))
    } else {
        let c = (b[0] + 7) / 8;
        if b.len() < 1 + c {
            Err(update_err(UpdateMsgErrSubcode::InvalidNetworkField))
        } else {
            let addr = be_value(b.subrange(1, 1 + c) + zeros((4 - c) as nat));
            Ok(((b[0], IpAddress::V4(addr as u32)), (1 + c) as nat))
        }
    }
}

/// Decodes one IPv4 route at the start of `b`; returns it and the octets read.
pub fn decode_route_v4(b: &[u8]) -> (r: Result<(Route, usize), NotifErrorCode>)
    ensures
        match r {
            Ok((rt, used)) => decode_route_v4_spec(b@) == Ok::<((u8, IpAddress), nat), NotifErrorCode>((rt@, used as nat)),
            Err(e) => decode_route_v4_spec(b@) == Err::<((u8, IpAddress), nat), NotifErrorCode>(e),
        },
{
    if b.len() < 1 || b[0] > 32 {
        return Err(NotifErrorCode::UpdateMessageError(UpdateMsgErrSubcode::InvalidNetworkField));
    }
    let pl = b[0];
    let c = (pl as usize + 7) / 8;
    if b.len() < 1 + c {
        return Err(NotifErrorCode::UpdateMessageError(UpdateMsgErrSubcode::InvalidNetworkField));
    }
    let mut padded = copy_range(b, 1, 1 + c);
    let mut k: usize = c;
    while k < 4
        invariant
            c <= k <= 4,
            padded@ == b@.subrange(1, 1 + c as int) + zeros((k - c) as nat),
        decreases 4 - k,
    {
        padded.push(0);
        assert(padded@ =~= b@.subrange(1, 1 + c as int) + zeros((k + 1 - c) as nat));
        k = k + 1;
    }
    let addr = read_be(padded.as_slice(), 0, 4);
    proof {
        assert(padded@.subrange(0, 4) =~= padded@);
        crate::octets::lemma_be_value_bound(padded@);
        lemma_pow256_values();
    }
    Ok((Route::new(pl, IpAddress::V4(addr as u32)), 1 + c))
}

/// An IPv4 route whose address has no bits set past its covered octets
/// decodes to itself.
pub proof fn lemma_route_round_trip(len: u8, x: u32)
    requires
        len <= 32,
        ip_octets(IpAddress::V4(x)).skip((len as int + 7) / 8) == zeros((4 - (len as int + 7) / 8) as nat),
    ensures
        decode_route_v4_spec(route_octets((len, IpAddress::V4(x))))
            == Ok::<((u8, IpAddress), nat), NotifErrorCode>(((len, IpAddress::V4(x)), (1 + (len as int + 7) / 8) as nat)),
{
    let r = (len, IpAddress::V4(x));
    let b = route_octets(r);
    let c = (len as int + 7) / 8;
    let o = be_octets(x as nat, 4);
    assert(crate::message_types::prefix_octet_count(len, IpAddress::V4(x)) == c);
    assert(b.subrange(1, 1 + c) =~= o.take(c));
    assert(o.take(c) + o.skip(c) =~= o);
    lemma_pow256_values();
    lemma_be_round_trip(x as nat, 4);
}

/// An IPv6 route: prefix length (at most 128), then the covered octets.
pub open spec fn decode_route_v6_spec(b: Seq<u8>) -> Result<((u8, IpAddress), nat), NotifErrorCode> {
    if b.len() < 1 || b[0] > 128 {
        Err(update_err(UpdateMsgErrSubcode::InvalidNetworkField))
    } else {
        let c = (b[0] + 7) / 8;
        if b.len() < 1 + c {
            Err(update_err(UpdateMsgErrSubcode::InvalidNetworkField))
        } else {
            let addr = be_value(b.subrange(1, 1 + c) + zeros((16 - c) as nat));
            Ok(((b[0], IpAddress::V6(addr as u128)), (1 + c) as nat))
        }
    }
}

/// Decodes one IPv6 route at the start of `b`; returns it and the octets read.
pub fn decode_route_v6(b: &[u8]) -> (r: Result<(Route, usize), NotifErrorCode>)
    ensures
        match r {
            Ok((rt, used)) => decode_route_v6_spec(b@) == Ok::<((u8, IpAddress), nat), NotifErrorCode>((rt@, used as nat)),
            Err(e) => decode_route_v6_spec(b@) == Err::<((u8, IpAddress), nat), NotifErrorCode>(e),
        },
{
    if b.len() < 1 || b[0] > 128 {
        return Err(NotifErrorCode::UpdateMessageError(UpdateMsgErrSubcode::InvalidNetworkField));
    }
    let pl = b[0];
    let c = (pl as usize + 7) / 8;
    if b.len() < 1 + c {
        return Err(NotifErrorCode::UpdateMessageError(UpdateMsgErrSubcode::InvalidNetworkField));
    }
    let mut padded = copy_range(b, 1, 1 + c);
    let mut k: usize = c;
    while k < 16
        invariant
            c <= k <= 16,
            padded@ == b@.subrange(1, 1 + c as int) + zeros((k - c) as nat),
        decreases 16 - k,
    {
        padded.push(0);
        assert(padded@ =~= b@.subrange(1, 1 + c as int) + zeros((k + 1 - c) as nat));
        k = k + 1;
    }
    let addr = crate::octets::read_be_wide(padded.as_slice(), 0, 16);
    proof {
        assert(padded@.subrange(0, 16) =~= padded@);
    }
    Ok((Route::new(pl, IpAddress::V6(addr)), 1 + c))
}

/// An IPv6 route whose address has no bits set past its covered octets
/// decodes to itself.
pub proof fn lemma_route_v6_round_trip(len: u8, x: u128)
    requires
        len <= 128,
        ip_octets(IpAddress::V6(x)).skip((len as int + 7) / 8) == zeros((16 - (len as int + 7) / 8) as nat),
    ensures
        decode_route_v6_spec(route_octets((len, IpAddress::V6(x))))
            == Ok::<((u8, IpAddress), nat), NotifErrorCode>(((len, IpAddress::V6(x)), (1 + (len as int + 7) / 8) as nat)),
{
    let r = (len, IpAddress::V6(x));
    let b = route_octets(r);
    let c = (len as int + 7) / 8;
    let o = be_octets(x as nat, 16);
    assert(crate::message_types::prefix_octet_count(len, IpAddress::V6(x)) == c);
    assert(b.subrange(1, 1 + c) =~= o.take(c));
    assert(o.take(c) + o.skip(c) =~= o);
    lemma_pow256_values();
    lemma_be_round_trip(x as nat, 16);
}

/// Checks an AS_PATH value.
pub fn validate_as_path(v: &[u8]) -> (r: Result<(), NotifErrorCode>)
    ensures
        r is Ok <==> as_path_valid(v@),
        r matches Err(e) ==> e == update_err(UpdateMsgErrSubcode::MalformedAsPath),
{
    let n = v.len();
    let mut pos: usize = 0;
    assert(v@.skip(0) =~= v@);
    while pos < n
        invariant
            n == v@.len(),
            pos <= n,
            as_path_valid(v@) == as_path_valid(v@.skip(pos as int)),
        decreases n - pos,
    {
        let ghost rest = v@.skip(pos as int);
        if n - pos < 2 {
            return Err(NotifErrorCode::UpdateMessageError(UpdateMsgErrSubcode::MalformedAsPath));
        }
        let t = v[pos];
        let cnt = v[pos + 1] as usize;
        assert(rest[0] == t && rest[1] == cnt);
        if (t != 1 && t != 2) || cnt == 0 || n - pos < 2 + 2 * cnt {
            return Err(NotifErrorCode::UpdateMessageError(UpdateMsgErrSubcode::MalformedAsPath));
        }
        assert(rest.skip(2 + 2 * rest[1]) =~= v@.skip(pos + 2 + 2 * cnt));
        pos = pos + 2 + 2 * cnt;
    }
    assert(v@.skip(pos as int) =~= Seq::<u8>::empty());
    Ok(())
}

/// One path attribute at the start of `b`, and the octets it takes.
pub open spec fn decode_attr_spec(b: Seq<u8>) -> Result<(PathAttrModel, nat), NotifErrorCode> {
    if b.len() < 3 {
        Err(update_err(UpdateMsgErrSubcode::AttrLengthError))
    } else if !low_bits_clear(b[0]) || (!is_optional(b[0]) && has_partial_bit(b[0])) {
        Err(update_err(UpdateMsgErrSubcode::AttrFlagsError))
    } else if has_ext_bit(b[0]) && b.len() < 4 {
        Err(update_err(UpdateMsgErrSubcode::AttrLengthError))
    } else {
        let hdr: nat = if has_ext_bit(b[0]) { 4 } else { 3 };
        let len: nat = if has_ext_bit(b[0]) { be_value(b.subrange(2, 4)) } else { b[2] as nat };
        let lf = if has_ext_bit(b[0]) { PathAttrLen::Ext(len as u16) } else { PathAttrLen::Std(len as u8) };
        if b.len() < hdr + len {
            Err(update_err(UpdateMsgErrSubcode::AttrLengthError))
        } else if b[1] == AS_PATH && !as_path_valid(b.subrange(hdr as int, (hdr + len) as int)) {
            Err(update_err(UpdateMsgErrSubcode::MalformedAsPath))
        } else {
            Ok((PathAttrModel { flags: b[0], type_code: b[1], len: lf, value: b.subrange(hdr as int, (hdr + len) as int) }, hdr + len))
        }
    }
}

/// Decodes one path attribute; returns it and the octets read.
pub fn decode_path_attr(b: &[u8]) -> (r: Result<(PathAttr, usize), NotifErrorCode>)
    ensures
        match r {
            Ok((a, used)) => decode_attr_spec(b@) == Ok::<(PathAttrModel, nat), NotifErrorCode>((a@, used as nat)),
            Err(e) => decode_attr_spec(b@) == Err::<(PathAttrModel, nat), NotifErrorCode>(e),
        },
{
    if b.len() < 3 {
        return Err(NotifErrorCode::UpdateMessageError(UpdateMsgErrSubcode::AttrLengthError));
    }
    let flags = b[0];
    if flags & 0x0F != 0 || (flags & OPTIONAL_BIT == 0 && flags & PARTIAL_BIT != 0) {
        return Err(NotifErrorCode::UpdateMessageError(UpdateMsgErrSubcode::AttrFlagsError));
    }
    let ext = flags & EXTENDED_BIT != 0;
    if ext && b.len() < 4 {
        return Err(NotifErrorCode::UpdateMessageError(UpdateMsgErrSubcode::AttrLengthError));
    }
    let hdr: usize = if ext { 4 } else { 3 };
    let len: usize = if ext { read_be(b, 2, 2) as usize } else { b[2] as usize };
    proof {
        if ext {
            crate::octets::lemma_be_value_bound(b@.subrange(2, 4));
            lemma_pow256_values();
        }
    }
    if b.len() < hdr + len {
        return Err(NotifErrorCode::UpdateMessageError(UpdateMsgErrSubcode::AttrLengthError));
    }
    let value = copy_range(b, hdr, hdr + len);
    if b[1] == AS_PATH {
        if validate_as_path(value.as_slice()).is_err() {
            return Err(NotifErrorCode::UpdateMessageError(UpdateMsgErrSubcode::MalformedAsPath));
        }
    }
    let lf = if ext { PathAttrLen::Ext(len as u16) } else { PathAttrLen::Std(len as u8) };
    match PathAttr::from_parts(flags, b[1], lf, value) {
        Ok(a) => Ok((a, hdr + len)),
        Err(e) => Err(e),
    }
}

/// An attribute with clean flags, a length form that matches its
/// extended-length bit, a length that counts its value and (for AS_PATH) a
/// well-formed value, decodes to itself.
pub proof fn lemma_attr_round_trip(a: PathAttrModel)
    requires
        attr_wf(a),
        !(!is_optional(a.flags) && has_partial_bit(a.flags)),
        a.type_code == AS_PATH ==> as_path_valid(a.value),
    ensures
        decode_attr_spec(attr_octets(a)) == Ok::<(PathAttrModel, nat), NotifErrorCode>(
            (a, (if a.len is Ext { 4nat } else { 3nat }) + a.value.len()),
        ),
{
    let b = attr_octets(a);
    lemma_pow256_values();
    match a.len {
        PathAttrLen::Std(x) => {
            assert(b.subrange(3, 3 + a.value.len() as int) =~= a.value);
        },
        PathAttrLen::Ext(x) => {
            lemma_be_round_trip(x as nat, 2);
            assert(b.subrange(2, 4) =~= be_octets(x as nat, 2));
            assert(b.subrange(4, 4 + a.value.len() as int) =~= a.value);
        },
    }
}

/// Whether no route appears in both lists; an UPDATE that announces and
/// withdraws the same route is refused before it reaches the table.
pub fn routes_disjoint(nlri: &[Route], withdrawn: &[Route]) -> (r: bool)
    ensures
        r == crate::comms::share_no_route(nlri@, withdrawn@),
{
    let mut i: usize = 0;
    while i < nlri.len()
        invariant
            i <= nlri@.len(),
            forall|a: int, c: int| 0 <= a < i && 0 <= c < withdrawn@.len() ==> nlri@[a] != withdrawn@[c],
        decreases nlri@.len() - i,
    {
        let mut j: usize = 0;
        while j < withdrawn.len()
            invariant
                i < nlri@.len(),
                j <= withdrawn@.len(),
                forall|a: int, c: int| 0 <= a < i && 0 <= c < withdrawn@.len() ==> nlri@[a] != withdrawn@[c],
                forall|c: int| 0 <= c < j ==> nlri@[i as int] != withdrawn@[c],
            decreases withdrawn@.len() - j,
        {
            if nlri[i] == withdrawn[j] {
                return false;
            }
            j = j + 1;
        }
        i = i + 1;
    }
    true
}


/// IPv4 routes packed back to back, read front to back.
pub open spec fn parse_routes(s: Seq<u8>) -> Result<Seq<(u8, IpAddress)>, NotifErrorCode>
    decreases s.len(),
{
    if s.len() == 0 {
        Ok(Seq::empty())
    } else {
        match decode_route_v4_spec(s) {
            Err(e) => Err(e),
            Ok((r, n)) => if 1 <= n <= s.len() {
                match parse_routes(s.skip(n as int)) {
                    Ok(rest) => Ok(seq![r] + rest),
                    Err(e) => Err(e),
                }
            } else {
                Err(update_err(UpdateMsgErrSubcode::InvalidNetworkField))
            },
        }
    }
}

/// Path attributes packed back to back, read front to back.
pub open spec fn parse_attrs(s: Seq<u8>) -> Result<Seq<PathAttrModel>, NotifErrorCode>
    decreases s.len(),
{
    if s.len() == 0 {
        Ok(Seq::empty())
    } else {
        match decode_attr_spec(s) {
            Err(e) => Err(e),
            Ok((a, n)) => if 1 <= n <= s.len() {
                match parse_attrs(s.skip(n as int)) {
                    Ok(rest) => Ok(seq![a] + rest),
                    Err(e) => Err(e),
                }
            } else {
                Err(update_err(UpdateMsgErrSubcode::MalformedAttrList))
            },
        }
    }
}

pub open spec fn prepend_ok<T>(a: Seq<T>, r: Result<Seq<T>, NotifErrorCode>) -> Result<Seq<T>, NotifErrorCode> {
    match r {
        Ok(rest) => Ok(a + rest),
        Err(e) => Err(e),
    }
}

pub open spec fn route_views(s: Seq<Route>) -> Seq<(u8, IpAddress)> {
    s.map_values(|r: Route| r@)
}

pub open spec fn attr_list_views(s: Seq<PathAttr>) -> Seq<PathAttrModel> {
    s.map_values(|a: PathAttr| a@)
}

/// Decodes the routes in `b[start..end]`.
fn decode_routes(b: &[u8], start: usize, end: usize) -> (r: Result<Vec<Route>, NotifErrorCode>)
    requires
        start <= end <= b@.len(),
    ensures
        match r {
            Ok(v) => parse_routes(b@.subrange(start as int, end as int)) == Ok::<Seq<(u8, IpAddress)>, NotifErrorCode>(route_views(v@)),
            Err(e) => parse_routes(b@.subrange(start as int, end as int)) == Err::<Seq<(u8, IpAddress)>, NotifErrorCode>(e),
        },
{
    let ghost s = b@.subrange(start as int, end as int);
    let mut out: Vec<Route> = Vec::new();
    let mut pos: usize = start;
    proof {
        assert(s.skip(0) =~= s);
        assert(route_views(out@) + Seq::<(u8, IpAddress)>::empty() =~= route_views(out@));
    }
    while pos < end
        invariant
            start <= pos <= end,
            end <= b@.len(),
            s == b@.subrange(start as int, end as int),
            parse_routes(s) == prepend_ok(route_views(out@), parse_routes(b@.subrange(pos as int, end as int))),
        decreases end - pos,
    {
        let piece = copy_range(b, pos, end);
        let ghost rest = b@.subrange(pos as int, end as int);
        assert(piece@ == rest);
        match decode_route_v4(piece.as_slice()) {
            Err(e) => {
                return Err(e);
            },
            Ok((rt, used)) => {
                proof {
                    assert(rest.skip(used as int) =~= b@.subrange(pos + used, end as int));
                }
                let ghost before = route_views(out@);
                out.push(rt);
                proof {
                    assert(route_views(out@) =~= before.push(rt@));
                    match parse_routes(b@.subrange(pos + used, end as int)) {
                        Ok(r2) => {
                            assert(before + (seq![rt@] + r2) =~= before.push(rt@) + r2);
                        },
                        Err(_) => {},
                    }
                }
                pos = pos + used;
            },
        }
    }
    proof {
        assert(b@.subrange(pos as int, end as int) =~= Seq::<u8>::empty());
        assert(route_views(out@) + Seq::<(u8, IpAddress)>::empty() =~= route_views(out@));
    }
    Ok(out)
}

/// Decodes the attributes in `b[start..end]`.
fn decode_attrs(b: &[u8], start: usize, end: usize) -> (r: Result<Vec<PathAttr>, NotifErrorCode>)
    requires
        start <= end <= b@.len(),
    ensures
        match r {
            Ok(v) => parse_attrs(b@.subrange(start as int, end as int)) == Ok::<Seq<PathAttrModel>, NotifErrorCode>(attr_list_views(v@)),
            Err(e) => parse_attrs(b@.subrange(start as int, end as int)) == Err::<Seq<PathAttrModel>, NotifErrorCode>(e),
        },
{
    let ghost s = b@.subrange(start as int, end as int);
    let mut out: Vec<PathAttr> = Vec::new();
    let mut pos: usize = start;
    proof {
        assert(attr_list_views(out@) + Seq::<PathAttrModel>::empty() =~= attr_list_views(out@));
    }
    while pos < end
        invariant
            start <= pos <= end,
            end <= b@.len(),
            s == b@.subrange(start as int, end as int),
            parse_attrs(s) == prepend_ok(attr_list_views(out@), parse_attrs(b@.subrange(pos as int, end as int))),
        decreases end - pos,
    {
        let piece = copy_range(b, pos, end);
        let ghost rest = b@.subrange(pos as int, end as int);
        assert(piece@ == rest);
        match decode_path_attr(piece.as_slice()) {
            Err(e) => {
                return Err(e);
            },
            Ok((a, used)) => {
                proof {
                    assert(rest.skip(used as int) =~= b@.subrange(pos + used, end as int));
                }
                let ghost before = attr_list_views(out@);
                let ghost av = a@;
                out.push(a);
                proof {
                    assert(attr_list_views(out@) =~= before.push(av));
                    match parse_attrs(b@.subrange(pos + used, end as int)) {
                        Ok(r2) => {
                            assert(before + (seq![av] + r2) =~= before.push(av) + r2);
                        },
                        Err(_) => {},
                    }
                }
                pos = pos + used;
            },
        }
    }
    proof {
        assert(b@.subrange(pos as int, end as int) =~= Seq::<u8>::empty());
        assert(attr_list_views(out@) + Seq::<PathAttrModel>::empty() =~= attr_list_views(out@));
    }
    Ok(out)
}

/// An UPDATE body: withdrawn length and routes, attribute length and
/// attributes, then reachable routes up to the end.
pub open spec fn decode_update_spec(b: Seq<u8>) -> Result<
    (u16, Seq<(u8, IpAddress)>, u16, Seq<PathAttrModel>, Seq<(u8, IpAddress)>),
    NotifErrorCode,
> {
    if b.len() < 4 {
        Err(update_err(UpdateMsgErrSubcode::MalformedAttrList))
    } else {
        let wlen = be_value(b.subrange(0, 2)) as int;
        if b.len() < 4 + wlen {
            Err(update_err(UpdateMsgErrSubcode::MalformedAttrList))
        } else {
            let alen = be_value(b.subrange(2 + wlen, 4 + wlen)) as int;
            if b.len() < 4 + wlen + alen {
                Err(update_err(UpdateMsgErrSubcode::MalformedAttrList))
            } else {
                match parse_routes(b.subrange(2, 2 + wlen)) {
                    Err(e) => Err(e),
                    Ok(w) => match parse_attrs(b.subrange(4 + wlen, 4 + wlen + alen)) {
                        Err(e) => Err(e),
                        Ok(a) => match parse_routes(b.subrange(4 + wlen + alen, b.len() as int)) {
                            Err(e) => Err(e),
                            Ok(n) => Ok((wlen as u16, w, alen as u16, a, n)),
                        },
                    },
                }
            }
        }
    }
}

/// Decodes an UPDATE body; an empty list comes back as `None`.
pub fn decode_update(b: &[u8]) -> (r: Result<Update, NotifErrorCode>)
    ensures
        match r {
            Ok(u) => decode_update_spec(b@) matches Ok((wl, w, al, a, n)) && u.spec_withdrawn_len() == wl
                && u.spec_attrs_len() == al
                && route_views(opt_routes_seq(u.spec_withdrawn())) == w
                && attr_list_views(opt_attrs_seq(u.spec_attrs())) == a
                && route_views(opt_routes_seq(u.spec_nlri())) == n
                && (u.spec_withdrawn() is Some <==> w.len() > 0)
                && (u.spec_attrs() is Some <==> a.len() > 0)
                && (u.spec_nlri() is Some <==> n.len() > 0),
            Err(e) => decode_update_spec(b@) == Err::<(u16, Seq<(u8, IpAddress)>, u16, Seq<PathAttrModel>, Seq<(u8, IpAddress)>), NotifErrorCode>(e),
        },
{
    let n = b.len();
    if n < 4 {
        return Err(NotifErrorCode::UpdateMessageError(UpdateMsgErrSubcode::MalformedAttrList));
    }
    proof {
        lemma_pow256_values();
        crate::octets::lemma_be_value_bound(b@.subrange(0, 2));
    }
    let wlen = read_be(b, 0, 2) as usize;
    if n - 4 < wlen {
        return Err(NotifErrorCode::UpdateMessageError(UpdateMsgErrSubcode::MalformedAttrList));
    }
    proof {
        crate::octets::lemma_be_value_bound(b@.subrange(2 + wlen, 4 + wlen));
    }
    let alen = read_be(b, 2 + wlen, 2) as usize;
    if n - 4 - wlen < alen {
        return Err(NotifErrorCode::UpdateMessageError(UpdateMsgErrSubcode::MalformedAttrList));
    }
    let w = match decode_routes(b, 2, 2 + wlen) {
        Ok(v) => v,
        Err(e) => {
            return Err(e);
        },
    };
    let a = match decode_attrs(b, 4 + wlen, 4 + wlen + alen) {
        Ok(v) => v,
        Err(e) => {
            return Err(e);
        },
    };
    let nl = match decode_routes(b, 4 + wlen + alen, n) {
        Ok(v) => v,
        Err(e) => {
            return Err(e);
        },
    };
    let wo = if w.len() == 0 { None } else { Some(w) };
    let ao = if a.len() == 0 { None } else { Some(a) };
    let no = if nl.len() == 0 { None } else { Some(nl) };
    Ok(Update::from_parts(wlen as u16, wo, alen as u16, ao, no))
}

pub open spec fn opt_routes_seq(o: Option<Seq<Route>>) -> Seq<Route> {
    match o {
        Some(s) => s,
        None => Seq::empty(),
    }
}

pub open spec fn opt_attrs_seq(o: Option<Seq<PathAttr>>) -> Seq<PathAttr> {
    match o {
        Some(s) => s,
        None => Seq::empty(),
    }
}

} // verus!
