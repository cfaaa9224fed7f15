use bgp4::errors::{NotifErrorCode, OpenMsgErrSubcode};
use bgp4::message_types::{Header, MessageType, Nlri, Notification, OpenBuilder, Route, Tlv, UpdateBuilder};
use bgp4::msg_encoder::{
    HeaderSerializer, NotificationSerializer, OpenSerializer, PathAttrSerializer, RouteSerializer,
    UpdateSerializer,
};
use bgp4::octets::IpAddress;
use bgp4::path_attrs::{Med, Origin, OriginValue, PaBuilder, PathAttrBuilder};

#[test]
fn serialize_header_open() {
    let header = Header::new(100, MessageType::Open);
    let buf = Vec::<u8>::from(HeaderSerializer::new(header).serialize());
    assert_eq!(buf.len(), 19);
    let extracted_marker = buf.get(0..16).unwrap();
    assert_eq!(&[0xFFu8; 16], extracted_marker);
    let extracted_length = buf.get(16..18).unwrap();
    assert_eq!(100u16.to_be_bytes(), extracted_length);
    let extracted_msg_type = buf.get(18).unwrap();
    assert_eq!(1u8, *extracted_msg_type);
}

#[test]
fn test_serialize_header() {
    let msg = Header::new(1, MessageType::Open);
    let serializer = HeaderSerializer::new(msg);
    let correct = vec![
        0xFFu8, 0xFF, 0xFF, 0xFF, 0xFF, 0xFF, 0xFF, 0xFF, 0xFF, 0xFF, 0xFF, 0xFF, 0xFF, 0xFF, 0xFF, 0xFF, 0, 1, 1,
    ];
    let serialized: Vec<u8> = serializer.serialize().into();
    assert_eq!(correct, serialized);
}

#[test]
fn test_serialize_notification() {
    let code = NotifErrorCode::OpenMessageError(OpenMsgErrSubcode::BadPeerAs);
    let msg = Notification::new(code, 1);
    let serializer = NotificationSerializer::new(msg);
    let correct = vec![2u8, 2, 0, 0, 0, 0, 0, 0, 0, 1];
    let serialized: Vec<u8> = serializer.serialize().into();
    assert_eq!(correct, serialized);
}

#[test]
fn test_serialize_open_no_params() {
    let msg = OpenBuilder::new(4, 65000, 180, 1).build().unwrap();
    let serializer = OpenSerializer::new(msg);
    let mut correct: Vec<u8> = Vec::new();
    correct.push(4u8);
    correct.extend_from_slice(65000u16.to_be_bytes().as_slice());
    correct.extend_from_slice(180u16.to_be_bytes().as_slice());
    correct.extend_from_slice(1u32.to_be_bytes().as_slice());
    correct.push(0u8);
    let serialized: Vec<u8> = serializer.serialize().into();
    assert_eq!(correct, serialized);
}

#[test]
fn test_serialize_open_with_params() {
    let param1 = Tlv::new(1, vec![1, 1, 1, 1, 1, 1]);
    let param2 = Tlv::new(1, vec![1]);
    let msg = OpenBuilder::new(4, 65000, 180, 1)
        .opt_param(param1)
        .opt_param(param2)
        .build().unwrap();
    let serializer = OpenSerializer::new(msg);
    let mut correct: Vec<u8> = Vec::new();
    correct.push(4u8);
    correct.extend_from_slice(65000u16.to_be_bytes().as_slice());
    correct.extend_from_slice(180u16.to_be_bytes().as_slice());
    correct.extend_from_slice(1u32.to_be_bytes().as_slice());
    correct.push(11u8);
    correct.push(1u8);
    correct.push(6u8);
    correct.extend_from_slice(vec![1u8, 1, 1, 1, 1, 1].as_slice());
    correct.push(1u8);
    correct.push(1u8);
    correct.push(1u8);
    let serialized: Vec<u8> = serializer.serialize().into();
    assert_eq!(correct, serialized);
}

#[test]
fn serialize_route_covers_prefix_octets() {
    let r = Route::new(24, IpAddress::v4(192, 168, 1, 0));
    let out = Vec::<u8>::from(RouteSerializer::new(r).serialize());
    assert_eq!(out, vec![24u8, 192, 168, 1]);
    let r = Route::new(32, IpAddress::v4(10, 0, 0, 1));
    assert_eq!(Vec::<u8>::from(RouteSerializer::new(r).serialize()), vec![32u8, 10, 0, 0, 1]);
}

#[test]
fn serialize_path_attr_std_form() {
    let med = PathAttrBuilder::<Med>::new().metric(1000).build();
    let out = Vec::<u8>::from(PathAttrSerializer::new(med).serialize());
    assert_eq!(out, vec![0x80u8, 4, 4, 0, 0, 3, 232]);
}

#[test]
fn serialize_update_layout() {
    let w = vec![Route::new(16, IpAddress::v4(10, 1, 0, 0))];
    let n = vec![Route::new(8, IpAddress::v4(20, 0, 0, 0))];
    let pas = vec![PathAttrBuilder::<Origin>::new().origin(OriginValue::Egp).build()];
    let nlri = Nlri::new(n.as_slice(), pas.as_slice());
    let update = UpdateBuilder::new().withdrawn_routes(w).nlri(nlri).build();
    let out = Vec::<u8>::from(UpdateSerializer::new(update).serialize());
    assert_eq!(out, vec![0u8, 3, 16, 10, 1, 0, 4, 0x40, 1, 1, 1, 8, 20]);
}
