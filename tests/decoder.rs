use bgp4::errors::{MsgHeaderErrSubcode, NotifErrorCode, OpenMsgErrSubcode, UpdateMsgErrSubcode};
use bgp4::message_types::{Header, MessageType, Nlri, Notification, OpenBuilder, Route, Tlv, UpdateBuilder};
use bgp4::msg_decoder::{
    decode_header, decode_notification, decode_open, decode_path_attr, decode_route_v4, decode_route_v6, decode_update,
    routes_disjoint, validate_as_path,
};
use bgp4::msg_encoder::{
    HeaderSerializer, NotificationSerializer, OpenSerializer, PathAttrSerializer, RouteSerializer, UpdateSerializer,
};
use bgp4::octets::IpAddress;
use bgp4::path_attrs::{AsPath, AsSegment, Med, Origin, OriginValue, PaBuilder, PathAttr, PathAttrBuilder, PathAttrLen};

fn open_bytes(hold: u16) -> Vec<u8> {
    let mut b = vec![4u8];
    b.extend_from_slice(&65000u16.to_be_bytes());
    b.extend_from_slice(&hold.to_be_bytes());
    b.extend_from_slice(&1u32.to_be_bytes());
    b.push(0);
    b
}

#[test]
fn header_round_trip() {
    let bytes = Vec::<u8>::from(HeaderSerializer::new(Header::new(100, MessageType::Update)).serialize());
    let h = decode_header(&bytes).unwrap();
    assert_eq!(h.length(), 100);
    assert_eq!(h.message_type(), 2);
    assert_eq!(h.marker(), &[0xFFu8; 16]);
}

#[test]
fn header_errors() {
    let mut bytes = Vec::<u8>::from(HeaderSerializer::new(Header::new(100, MessageType::Open)).serialize());
    bytes[3] = 0x01;
    assert_eq!(decode_header(&bytes).err(), Some(NotifErrorCode::MessageHeaderError(MsgHeaderErrSubcode::ConnNotSynced)));
    let bytes = Vec::<u8>::from(HeaderSerializer::new(Header::new(18, MessageType::Open)).serialize());
    assert_eq!(decode_header(&bytes).err(), Some(NotifErrorCode::MessageHeaderError(MsgHeaderErrSubcode::BadMsgLen)));
    let bytes = Vec::<u8>::from(HeaderSerializer::new(Header::new(4097, MessageType::Open)).serialize());
    assert_eq!(decode_header(&bytes).err(), Some(NotifErrorCode::MessageHeaderError(MsgHeaderErrSubcode::BadMsgLen)));
    let mut bytes = Vec::<u8>::from(HeaderSerializer::new(Header::new(19, MessageType::Open)).serialize());
    bytes[18] = 5;
    assert_eq!(decode_header(&bytes).err(), Some(NotifErrorCode::MessageHeaderError(MsgHeaderErrSubcode::BadMsgType)));
    assert_eq!(decode_header(&[0xFF; 10]).err(), Some(NotifErrorCode::MessageHeaderError(MsgHeaderErrSubcode::BadMsgLen)));
}

#[test]
fn notification_round_trip() {
    let n = Notification::new(NotifErrorCode::HoldTimerExpired, 7);
    let bytes = Vec::<u8>::from(NotificationSerializer::new(n).serialize());
    let d = decode_notification(&bytes).unwrap();
    assert_eq!(d.err_code(), 4);
    assert_eq!(d.err_subcode(), 0);
    assert_eq!(d.data(), &[0u8, 0, 0, 0, 0, 0, 0, 7]);
    assert!(decode_notification(&[1]).is_err());
}

#[test]
fn open_round_trip_with_params() {
    let msg = OpenBuilder::new(4, 65001, 90, 0x0A00_0001)
        .opt_param(Tlv::new(2, vec![1, 4, 0, 1, 0, 1]))
        .build().unwrap();
    let bytes = Vec::<u8>::from(OpenSerializer::new(msg).serialize());
    let o = decode_open(&bytes).unwrap();
    assert_eq!(o.version(), 4);
    assert_eq!(o.my_as(), 65001);
    assert_eq!(o.hold_time(), 90);
    assert_eq!(o.bgp_id(), 0x0A00_0001);
    assert_eq!(o.opt_params_len(), 8);
    assert_eq!(o.opt_params_slice().len(), 1);
    assert_eq!(o.opt_params_slice()[0].param_value(), &[1u8, 4, 0, 1, 0, 1]);
}

#[test]
fn open_hold_time_one_and_two_refused() {
    let err = Some(NotifErrorCode::OpenMessageError(OpenMsgErrSubcode::UnacceptableHoldTime));
    assert_eq!(decode_open(&open_bytes(1)).err(), err);
    assert_eq!(decode_open(&open_bytes(2)).err(), err);
    assert!(decode_open(&open_bytes(0)).is_ok());
    assert!(decode_open(&open_bytes(3)).is_ok());
}

#[test]
fn open_errors() {
    let mut b = open_bytes(90);
    b[0] = 3;
    assert_eq!(decode_open(&b).err(), Some(NotifErrorCode::OpenMessageError(OpenMsgErrSubcode::UnsupportedVerNum)));
    let mut b = open_bytes(90);
    b[9] = 3;
    b.extend_from_slice(&[1, 5, 0]);
    assert_eq!(decode_open(&b).err(), Some(NotifErrorCode::OpenMessageError(OpenMsgErrSubcode::UnsupportedOptParam)));
    assert_eq!(decode_open(&[4, 0, 1]).err(), Some(NotifErrorCode::MessageHeaderError(MsgHeaderErrSubcode::BadMsgLen)));
}

#[test]
fn route_round_trip() {
    let r = Route::new(20, IpAddress::v4(172, 16, 16, 0));
    let bytes = Vec::<u8>::from(RouteSerializer::new(r).serialize());
    assert_eq!(bytes, vec![20u8, 172, 16, 16]);
    let (d, used) = decode_route_v4(&bytes).unwrap();
    assert_eq!(d, r);
    assert_eq!(used, 4);
    assert_eq!(decode_route_v4(&[33, 1, 2, 3, 4, 5]).err(), Some(NotifErrorCode::UpdateMessageError(UpdateMsgErrSubcode::InvalidNetworkField)));
    assert!(decode_route_v4(&[24, 1, 2]).is_err());
}

#[test]
fn as_path_attr_round_trip() {
    let segs = vec![AsSegment::AsSet(vec![65000u16, 65001]), AsSegment::AsSequence(vec![131u16, 30437])];
    let a = PathAttrBuilder::<AsPath>::new().as_segments(segs).unwrap().build();
    let bytes = Vec::<u8>::from(PathAttrSerializer::new(a.clone()).serialize());
    let (d, used) = decode_path_attr(&bytes).unwrap();
    assert_eq!(used, 15);
    assert_eq!(d, a);
}

#[test]
fn as_path_empty_segment_malformed() {
    assert!(validate_as_path(&[2, 1, 0, 1]).is_ok());
    assert_eq!(validate_as_path(&[2, 0]).err(), Some(NotifErrorCode::UpdateMessageError(UpdateMsgErrSubcode::MalformedAsPath)));
    assert!(validate_as_path(&[3, 1, 0, 1]).is_err());
    let bytes = vec![0x40u8, 2, 2, 2, 0];
    assert_eq!(decode_path_attr(&bytes).err(), Some(NotifErrorCode::UpdateMessageError(UpdateMsgErrSubcode::MalformedAsPath)));
}

#[test]
fn attr_length_mismatch_malformed() {
    // Standard form declares five octets, four follow.
    let bytes = vec![0x80u8, 4, 5, 0, 0, 3, 232];
    assert_eq!(decode_path_attr(&bytes).err(), Some(NotifErrorCode::UpdateMessageError(UpdateMsgErrSubcode::AttrLengthError)));
    // Extended form: the length takes two octets.
    let bytes = vec![0x90u8, 4, 0, 4, 0, 0, 3, 232];
    let (d, used) = decode_path_attr(&bytes).unwrap();
    assert_eq!(used, 8);
    assert_eq!(d.attr_len(), &PathAttrLen::Ext(4));
    let bytes = vec![0x90u8, 4, 0, 5, 0, 0, 3, 232];
    assert!(decode_path_attr(&bytes).is_err());
}

#[test]
fn partial_bit_on_well_known_refused() {
    let bytes = vec![0x60u8, 1, 1, 0];
    assert_eq!(decode_path_attr(&bytes).err(), Some(NotifErrorCode::UpdateMessageError(UpdateMsgErrSubcode::AttrFlagsError)));
    let bytes = vec![0xE0u8, 7, 0];
    assert!(decode_path_attr(&bytes).is_ok());
    let bytes = vec![0x41u8, 1, 1, 0];
    assert!(decode_path_attr(&bytes).is_err());
    let opaque = PathAttr::from_parts(0xC0, 99, PathAttrLen::Std(2), vec![7, 7]).unwrap();
    let (d, _) = decode_path_attr(&Vec::<u8>::from(PathAttrSerializer::new(opaque.clone()).serialize())).unwrap();
    assert_eq!(d, opaque);
}

#[test]
fn update_with_same_route_announced_and_withdrawn_refused() {
    let a = vec![Route::new(24, IpAddress::v4(192, 168, 1, 0))];
    let b = vec![Route::new(24, IpAddress::v4(192, 168, 1, 0))];
    let c = vec![Route::new(24, IpAddress::v4(192, 168, 2, 0))];
    assert!(!routes_disjoint(&a, &b));
    assert!(routes_disjoint(&a, &c));
    assert!(routes_disjoint(&a, &[]));
}

#[test]
fn update_round_trip() {
    let w = vec![Route::new(16, IpAddress::v4(10, 1, 0, 0)), Route::new(32, IpAddress::v4(10, 2, 3, 4))];
    let n = vec![Route::new(8, IpAddress::v4(20, 0, 0, 0))];
    let pas = vec![
        PathAttrBuilder::<Origin>::new().origin(OriginValue::Egp).build(),
        PathAttrBuilder::<Med>::new().metric(77).build(),
    ];
    let nlri = Nlri::new(n.as_slice(), pas.as_slice());
    let update = UpdateBuilder::new().withdrawn_routes(w.clone()).nlri(nlri).build();
    let bytes = Vec::<u8>::from(UpdateSerializer::new(update).serialize());
    let d = decode_update(&bytes).unwrap();
    assert_eq!(d.withdrawn_routes_len(), 3 + 5);
    assert_eq!(d.withdrawn_routes().unwrap(), w.as_slice());
    assert_eq!(d.total_path_attr_len(), 4 + 7);
    assert_eq!(d.path_attrs().unwrap(), pas.as_slice());
    assert_eq!(d.nlri().unwrap(), n.as_slice());
}

#[test]
fn update_withdrawal_only_and_errors() {
    let bytes = vec![0u8, 4, 24, 192, 168, 1, 0, 0];
    let d = decode_update(&bytes).unwrap();
    assert_eq!(d.withdrawn_routes().unwrap(), &[Route::new(24, IpAddress::v4(192, 168, 1, 0))]);
    assert!(d.path_attrs().is_none());
    assert!(d.nlri().is_none());
    // Withdrawn length runs past the end.
    assert_eq!(decode_update(&[0u8, 9, 24, 1, 0, 0]).err(), Some(NotifErrorCode::UpdateMessageError(UpdateMsgErrSubcode::MalformedAttrList)));
    // A reachable route whose prefix length is above 32.
    assert_eq!(decode_update(&[0u8, 0, 0, 0, 40, 1, 2, 3, 4, 5]).err(), Some(NotifErrorCode::UpdateMessageError(UpdateMsgErrSubcode::InvalidNetworkField)));
    // An empty UPDATE is allowed.
    let d = decode_update(&[0u8, 0, 0, 0]).unwrap();
    assert!(d.withdrawn_routes().is_none() && d.nlri().is_none());
}

#[test]
fn route_v6_round_trip() {
    let addr: u128 = 0x2001_0db8_0000_0000_0000_0000_0000_0000;
    let r = Route::new(32, IpAddress::V6(addr));
    let bytes = Vec::<u8>::from(RouteSerializer::new(r).serialize());
    assert_eq!(bytes, vec![32u8, 0x20, 0x01, 0x0d, 0xb8]);
    let (d, used) = decode_route_v6(&bytes).unwrap();
    assert_eq!(d, r);
    assert_eq!(used, 5);
    assert_eq!(decode_route_v6(&[129, 0]).err(), Some(NotifErrorCode::UpdateMessageError(UpdateMsgErrSubcode::InvalidNetworkField)));
}
