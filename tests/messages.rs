use bgp4::errors::{NotifErrorCode, OpenMsgErrSubcode};
use bgp4::message_types::{Header, MessageType, Nlri, Notification, OpenBuilder, Route, Tlv, UpdateBuilder};
use bgp4::octets::IpAddress;
use bgp4::path_attrs::{Med, PaBuilder, PathAttrBuilder};

#[test]
fn build_header_open() {
    let header = Header::new(100, MessageType::Open);
    assert_eq!(header.length(), 100);
    assert_eq!(header.marker(), &[0xFFu8; 16]);
    assert_eq!(header.message_type(), 1u8);
}

#[test]
fn build_header_update() {
    let header = Header::new(100, MessageType::Update);
    assert_eq!(header.length(), 100);
    assert_eq!(header.marker(), &[0xFFu8; 16]);
    assert_eq!(header.message_type(), 2u8);
}

#[test]
fn build_header_keep() {
    let header = Header::new(100, MessageType::KeepAlive);
    assert_eq!(header.length(), 100);
    assert_eq!(header.marker(), &[0xFFu8; 16]);
    assert_eq!(header.message_type(), 4u8);
}

#[test]
fn build_header_not() {
    let header = Header::new(100, MessageType::Notification);
    assert_eq!(header.length(), 100);
    assert_eq!(header.marker(), &[0xFFu8; 16]);
    assert_eq!(header.message_type(), 3u8);
}

#[test]
fn new_tlv() {
    let tlv = Tlv::new(2, vec![9, 8]);
    assert_eq!(tlv.param_length(), 2);
    assert_eq!(tlv.param_type(), 2);
}

#[test]
fn build_notification_with_subcode() {
    let err_code = NotifErrorCode::OpenMessageError(OpenMsgErrSubcode::BadBgpId);
    let msg = Notification::new(err_code, 1);
    assert_eq!(msg.err_code(), 2);
    assert_eq!(msg.err_subcode(), 3);

    let mut data: [u8; 8] = [0; 8];
    data.copy_from_slice(msg.data());
    assert_eq!(usize::from_be_bytes(data), 1);
}

#[test]
fn build_notification_no_subcode() {
    let err_code = NotifErrorCode::Cease;
    let msg = Notification::new(err_code, 1);
    assert_eq!(msg.err_code(), 6);
    assert_eq!(msg.err_subcode(), 0);

    let mut data: [u8; 8] = [0; 8];
    data.copy_from_slice(msg.data());
    assert_eq!(usize::from_be_bytes(data), 1);
}

#[test]
fn build_open_no_opt_param() {
    let msg = OpenBuilder::new(4, 65000, 180, 1).build().unwrap();
    assert_eq!(msg.version(), 4);
    assert_eq!(msg.my_as(), 65000);
    assert_eq!(msg.hold_time(), 180);
    assert_eq!(msg.bgp_id(), 1);
    assert!(msg.opt_params_slice().is_empty());
    assert_eq!(msg.opt_params_len(), 0);
}

#[test]
fn build_open_with_opt_params() {
    let param1 = Tlv::new(1, vec![1, 1, 1, 1, 1, 1]);
    let param2 = Tlv::new(1, vec![1]);
    let msg = OpenBuilder::new(4, 65000, 180, 1)
        .opt_param(param1)
        .opt_param(param2)
        .build().unwrap();

    assert_eq!(msg.version(), 4);
    assert_eq!(msg.my_as(), 65000);
    assert_eq!(msg.hold_time(), 180);
    assert_eq!(msg.bgp_id(), 1);
    assert_eq!(msg.opt_params_slice().len(), 2);
    assert_eq!(msg.opt_params_len(), 11);
}

// A /24 covers three octets of the address: one length octet plus three.
#[test]
fn build_update_withdrawn_only() {
    let route = Route::new(24, IpAddress::v4(192, 168, 1, 0));
    let mut routes: Vec<Route> = Vec::new();
    routes.push(route);

    let update = UpdateBuilder::new().withdrawn_routes(routes).build();

    assert_eq!(update.withdrawn_routes_len(), 1 + 3);
    match update.path_attrs() {
        Some(_) => panic!("Expected no PAs!"),
        None => (),
    }
    assert_eq!(update.total_path_attr_len(), 0);
    match update.nlri() {
        Some(_) => panic!("Expected no NLRI!"),
        None => (),
    }
}

#[test]
fn build_update_nlri_only() {
    let route = Route::new(24, IpAddress::v4(192, 168, 1, 0));
    let mut routes: Vec<Route> = Vec::new();
    routes.push(route);

    let pa = PathAttrBuilder::<Med>::new().metric(1000).build();
    let pas = vec![pa];
    let pa_len = pas.iter().map(|pa| pa.attr_len_octets()).sum::<usize>() as u16;

    let nlri = Nlri::new(routes.as_slice(), pas.as_slice());
    let update = UpdateBuilder::new().nlri(nlri).build();

    assert_eq!(update.withdrawn_routes_len(), 0);
    match update.path_attrs() {
        Some(_) => (),
        None => panic!("Expected to see PAs!"),
    }
    assert_eq!(update.total_path_attr_len(), pa_len);
    match update.nlri() {
        Some(_) => (),
        None => panic!("Expected to see NLRI!"),
    }
}

#[test]
fn build_update_nlri_and_withdrawn() {
    let w_route = Route::new(24, IpAddress::v4(192, 168, 1, 0));
    let mut w_routes: Vec<Route> = Vec::new();
    w_routes.push(w_route);

    let n_route = Route::new(24, IpAddress::v4(192, 168, 1, 0));
    let mut n_routes: Vec<Route> = Vec::new();
    n_routes.push(n_route);

    let pa = PathAttrBuilder::<Med>::new().metric(1000).build();
    let pas = vec![pa];
    let pa_len = pas.iter().map(|pa| pa.attr_len_octets()).sum::<usize>() as u16;

    let nlri = Nlri::new(n_routes.as_slice(), pas.as_slice());
    let update = UpdateBuilder::new().withdrawn_routes(w_routes).nlri(nlri).build();

    assert_eq!(update.withdrawn_routes_len(), 1 + 3);
    match update.withdrawn_routes() {
        Some(_) => (),
        None => panic!("Expected to see Withdrawn routes!"),
    }
    match update.path_attrs() {
        Some(_) => (),
        None => panic!("Expected to see PAs!"),
    }
    assert_eq!(update.total_path_attr_len(), pa_len);
    match update.nlri() {
        Some(_) => (),
        None => panic!("Expected to see NLRI!"),
    }
}

#[test]
fn route_lengths_follow_prefix_length() {
    assert_eq!(Route::new(0, IpAddress::v4(0, 0, 0, 0)).len(), 1);
    assert_eq!(Route::new(8, IpAddress::v4(10, 0, 0, 0)).len(), 2);
    assert_eq!(Route::new(25, IpAddress::v4(10, 0, 0, 128)).len(), 5);
    assert_eq!(Route::new(32, IpAddress::v4(10, 0, 0, 1)).len(), 5);
    assert_eq!(Route::new(64, IpAddress::V6(1)).len(), 9);
    assert_eq!(Route::new(24, IpAddress::v4(1, 2, 3, 0)).prefix_v4(), Some(0x0102_0300));
    assert_eq!(Route::new(24, IpAddress::v4(1, 2, 3, 0)).prefix_v6(), None);
}

#[test]
fn empty_lists_leave_update_unchanged() {
    let update = UpdateBuilder::new().withdrawn_routes(Vec::new()).build();
    assert!(update.withdrawn_routes().is_none());
    assert_eq!(update.withdrawn_routes_len(), 0);
    let routes = vec![Route::new(24, IpAddress::v4(192, 168, 1, 0))];
    let nlri = Nlri::new(routes.as_slice(), &[]);
    let update = UpdateBuilder::new().nlri(nlri).build();
    assert!(update.nlri().is_none());
    assert!(update.path_attrs().is_none());
}

#[test]
fn open_builder_refuses_hold_time_one_and_two() {
    let err = NotifErrorCode::OpenMessageError(OpenMsgErrSubcode::UnacceptableHoldTime);
    assert_eq!(OpenBuilder::new(4, 65000, 1, 1).build().err(), Some(err));
    assert_eq!(OpenBuilder::new(4, 65000, 2, 1).opt_param(Tlv::new(1, vec![1])).build().err(), Some(err));
    assert!(OpenBuilder::new(4, 65000, 0, 1).build().is_ok());
    assert!(OpenBuilder::new(4, 65000, 3, 1).build().is_ok());
}
