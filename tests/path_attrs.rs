use bgp4::errors::{NotifErrorCode, UpdateMsgErrSubcode};
use bgp4::octets::IpAddress;
use bgp4::path_attrs::{
    Aggregator, AsPath, AsSegment, AtomicAggregate, LocalPref, Med, NextHop, Origin, OriginValue, PaBuilder,
    PathAttr, PathAttrBuilder, PathAttrLen,
};

#[test]
fn build_origin() {
    let variants = vec![OriginValue::Igp, OriginValue::Egp, OriginValue::Incomplete];
    for (idx, v) in variants.into_iter().enumerate() {
        let origin = PathAttrBuilder::<Origin>::new().origin(v).build();
        assert_eq!(64, origin.attr_flags());
        assert_eq!(1, origin.attr_type_code());
        assert_eq!(&PathAttrLen::Std(1), origin.attr_len());
        assert_eq!(idx as u8, origin.attr_value()[0]);
    }
}

#[test]
fn build_as_path() {
    let as_segs = vec![AsSegment::AsSet(vec![65000u16, 65001]), AsSegment::AsSequence(vec![131u16, 30437])];
    let aspath = PathAttrBuilder::<AsPath>::new().as_segments(as_segs).unwrap().build();

    assert_eq!(aspath.attr_flags(), 64);
    assert_eq!(aspath.attr_type_code(), 2);
    assert_eq!(aspath.attr_len(), &PathAttrLen::Std(12));
    let v = aspath.attr_value();
    assert_eq!(v[0], 1);
    assert_eq!(v[1], 2);
    assert_eq!(v[2], 253);
    assert_eq!(v[3], 232);
    assert_eq!(v[4], 253);
    assert_eq!(v[5], 233);
    assert_eq!(v[6], 2);
    assert_eq!(v[7], 2);
    assert_eq!(v[8], 0);
    assert_eq!(v[9], 131);
    assert_eq!(v[10], 118);
    assert_eq!(v[11], 229);
}

#[test]
fn build_next_hop_v4() {
    let ip = IpAddress::v4(192, 168, 0, 0);
    let n_hop = PathAttrBuilder::<NextHop>::new().next_hop(ip).build();
    assert_eq!(n_hop.attr_flags(), 64u8);
    assert_eq!(n_hop.attr_type_code(), 3u8);
    assert_eq!(n_hop.attr_len(), &PathAttrLen::Std(4));
    let mut bytes = [0u8; 4];
    bytes.copy_from_slice(n_hop.attr_value());
    assert_eq!(bytes, [192u8, 168, 0, 0]);
}

#[test]
fn build_next_hop_v6() {
    let segs: [u16; 8] = [0xFF02, 0, 0, 0, 0, 0x0001, 0xFFCC, 0xCCCC];
    let mut value: u128 = 0;
    for s in segs.iter() {
        value = (value << 16) | *s as u128;
    }
    let ip = IpAddress::V6(value);
    let n_hop = PathAttrBuilder::<NextHop>::new().next_hop(ip).build();
    assert_eq!(n_hop.attr_flags(), 64u8);
    assert_eq!(n_hop.attr_type_code(), 3u8);
    assert_eq!(n_hop.attr_len(), &PathAttrLen::Std(16));
    assert_eq!(n_hop.attr_value(), &value.to_be_bytes());
}

#[test]
fn build_med() {
    let med = PathAttrBuilder::<Med>::new().metric(1000u32).build();
    assert_eq!(med.attr_flags(), 128);
    assert_eq!(med.attr_type_code(), 4);
    assert_eq!(med.attr_len(), &PathAttrLen::Std(4));
    assert_eq!(med.attr_value(), &[0u8, 0, 3, 232]);
}

#[test]
fn build_local_pref() {
    let lp = PathAttrBuilder::<LocalPref>::new().local_pref(1000).build();
    assert_eq!(lp.attr_flags(), 64);
    assert_eq!(lp.attr_type_code(), 5);
    assert_eq!(lp.attr_len(), &PathAttrLen::Std(4));
    assert_eq!(lp.attr_value(), &[0u8, 0, 3, 232]);
}

#[test]
fn build_atomic_agg() {
    let aa = PathAttrBuilder::<AtomicAggregate>::new().build();
    assert_eq!(aa.attr_flags(), 64);
    assert_eq!(aa.attr_type_code(), 6);
    assert_eq!(aa.attr_len(), &PathAttrLen::Std(0));
    assert_eq!(aa.attr_value().is_empty(), true);
    assert_eq!(aa.attr_value().len(), 0);
}

#[test]
fn build_aggregator_v4() {
    let ag = PathAttrBuilder::<Aggregator>::new()
        .aggregator(65000, 0x0101_0101)
        .build();
    assert_eq!(ag.attr_flags(), 192);
    assert_eq!(ag.attr_type_code(), 7);
    assert_eq!(ag.attr_len(), &PathAttrLen::Std(6));
    let mut last_as_bytes: [u8; 2] = [0u8; 2];
    let mut ip_bytes: [u8; 4] = [0u8; 4];
    last_as_bytes.copy_from_slice(&ag.attr_value()[0..=1]);
    ip_bytes.copy_from_slice(&ag.attr_value()[2..=5]);
    assert_eq!(u16::from_be_bytes(last_as_bytes), 65000u16);
    assert_eq!(ip_bytes, [1u8, 1, 1, 1]);
}

#[test]
fn origin_values_and_wire_length() {
    let v: u8 = OriginValue::Incomplete.into();
    assert_eq!(v, 2);
    let o = PathAttrBuilder::<Origin>::new().origin(OriginValue::Egp).build();
    assert_eq!(o.byte_len(), 4);
}

#[test]
fn empty_as_segment_refused_by_builder() {
    let segs = vec![AsSegment::AsSequence(vec![65000u16]), AsSegment::AsSet(vec![])];
    let r = PathAttrBuilder::<AsPath>::new().as_segments(segs);
    assert!(r.is_err());
    let segs = vec![AsSegment::AsSequence(vec![])];
    match PathAttrBuilder::<AsPath>::new().as_segments(segs) {
        Err(e) => assert_eq!(e, NotifErrorCode::UpdateMessageError(UpdateMsgErrSubcode::MalformedAsPath)),
        Ok(_) => panic!("an empty segment must be refused"),
    }
}

#[test]
fn free_form_attributes_are_checked() {
    let len_err = NotifErrorCode::UpdateMessageError(UpdateMsgErrSubcode::AttrLengthError);
    let flags_err = NotifErrorCode::UpdateMessageError(UpdateMsgErrSubcode::AttrFlagsError);
    assert_eq!(PathAttr::new(99, PathAttrLen::Std(3), vec![1, 2]).err(), Some(len_err));
    let ext = PathAttr::new(99, PathAttrLen::Ext(2), vec![1, 2]).unwrap();
    assert_eq!(ext.attr_flags(), 0x10);
    let std_form = PathAttr::new(99, PathAttrLen::Std(2), vec![1, 2]).unwrap();
    assert_eq!(std_form.attr_flags(), 0);
    // Extended-Length bit clear with an extended length, and the reverse.
    assert_eq!(PathAttr::from_parts(0xC0, 99, PathAttrLen::Ext(1), vec![1]).err(), Some(flags_err));
    assert_eq!(PathAttr::from_parts(0xD0, 99, PathAttrLen::Std(1), vec![1]).err(), Some(flags_err));
    // An unused low bit.
    assert_eq!(PathAttr::from_parts(0xC1, 99, PathAttrLen::Std(1), vec![1]).err(), Some(flags_err));
    assert_eq!(PathAttr::from_parts(0xC0, 99, PathAttrLen::Std(2), vec![1]).err(), Some(len_err));
    assert!(PathAttr::from_parts(0xD0, 99, PathAttrLen::Ext(1), vec![1]).is_ok());
}
