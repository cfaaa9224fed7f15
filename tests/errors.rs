use bgp4::errors::{MsgHeaderErrSubcode, NotifErrorCode, OpenMsgErrSubcode, TaxonomyError, UpdateMsgErrSubcode};

#[test]
fn convert_hold_timer_exp() {
    let val = 4u8;
    let err = NotifErrorCode::HoldTimerExpired.as_ref();
    let converted: u8 = err.into();
    assert_eq!(val, converted);
}

#[test]
fn convert_fsm_err() {
    let val = 5u8;
    let err = NotifErrorCode::FiniteStateMachineError.as_ref();
    let converted: u8 = err.into();
    assert_eq!(val, converted);
}

#[test]
fn convert_cease() {
    let val = 6u8;
    let err = NotifErrorCode::Cease.as_ref();
    let converted: u8 = err.into();
    assert_eq!(val, converted);
}

#[test]
fn convert_msg_header_err_and_conn_not_synced() {
    let code = 1u8;
    let subcode = 1u8;
    let err = &NotifErrorCode::MessageHeaderError(MsgHeaderErrSubcode::ConnNotSynced);
    if let NotifErrorCode::MessageHeaderError(inner_subcode) = err {
        let inner_converted: u8 = inner_subcode.into();
        let outer_converted: u8 = err.into();
        assert_eq!(inner_converted, subcode);
        assert_eq!(outer_converted, code);
    }
}

#[test]
fn subcode_wire_values() {
    assert_eq!(NotifErrorCode::OpenMessageError(OpenMsgErrSubcode::UnacceptableHoldTime).subcode(), 6);
    assert_eq!(NotifErrorCode::UpdateMessageError(UpdateMsgErrSubcode::InvalidNextHopAttr).subcode(), 8);
    assert_eq!(NotifErrorCode::UpdateMessageError(UpdateMsgErrSubcode::MalformedAsPath).subcode(), 11);
    assert_eq!(NotifErrorCode::MessageHeaderError(MsgHeaderErrSubcode::BadMsgType).subcode(), 3);
    assert_eq!(NotifErrorCode::Cease.subcode(), 0);
    assert_eq!(NotifErrorCode::UpdateMessageError(UpdateMsgErrSubcode::MalformedAttrList).code(), 3);
    let v: u8 = (&UpdateMsgErrSubcode::OptionalAttrError).into();
    assert_eq!(v, 9);
    let o: u8 = (&OpenMsgErrSubcode::BadPeerAs).into();
    assert_eq!(o, 2);
}

#[test]
fn codes_from_the_wire() {
    assert_eq!(NotifErrorCode::from_codes(2, 6), Ok(NotifErrorCode::OpenMessageError(OpenMsgErrSubcode::UnacceptableHoldTime)));
    assert_eq!(NotifErrorCode::from_codes(1, 2), Ok(NotifErrorCode::MessageHeaderError(MsgHeaderErrSubcode::BadMsgLen)));
    assert_eq!(NotifErrorCode::from_codes(3, 11), Ok(NotifErrorCode::UpdateMessageError(UpdateMsgErrSubcode::MalformedAsPath)));
    assert_eq!(NotifErrorCode::from_codes(6, 0), Ok(NotifErrorCode::Cease));
    assert_eq!(NotifErrorCode::from_codes(2, 5), Err(TaxonomyError::InvalidSubcode));
    assert_eq!(NotifErrorCode::from_codes(3, 7), Err(TaxonomyError::InvalidSubcode));
    assert_eq!(NotifErrorCode::from_codes(1, 4), Err(TaxonomyError::InvalidSubcode));
    assert_eq!(NotifErrorCode::from_codes(4, 1), Err(TaxonomyError::InvalidSubcode));
    assert_eq!(NotifErrorCode::from_codes(7, 0), Err(TaxonomyError::InvalidCode));
    assert_eq!(NotifErrorCode::from_codes(0, 0), Err(TaxonomyError::InvalidCode));
}
