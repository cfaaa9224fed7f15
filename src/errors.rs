//! NOTIFICATION error codes and subcodes, with their wire values.
use vstd::prelude::*;

verus! {

/// Notification error code: Message Header Error.
pub const MSG_HEADER_ERR: u8 = 1;
/// Notification error code: OPEN Message Error.
pub const OPEN_MSG_ERR: u8 = 2;
/// Notification error code: UPDATE Message Error.
pub const UPDATE_MSG_ERR: u8 = 3;
/// Notification error code: Hold Timer Expired.
pub const HOLD_TIMER_EXP_ERR: u8 = 4;
/// Notification error code: Finite State Machine Error.
pub const FSM_ERR: u8 = 5;
/// Notification error code: Cease.
pub const CEASE_ERR: u8 = 6;

pub const MALFORMED_ATTR_LIST: u8 = 1;
pub const UNRECOGNIZED_WK_ATTR: u8 = 2;
pub const MISSING_WK_ATTR: u8 = 3;
pub const ATTR_FLAGS_ERROR: u8 = 4;
pub const ATTR_LENGTH_ERROR: u8 = 5;
pub const INVALID_ORIGIN_ATTR: u8 = 6;
pub const INVALID_NEXT_HOP_ATTR: u8 = 8;
pub const OPTIONAL_ATTR_ERROR: u8 = 9;
pub const INVALID_NETWORK_FIELD: u8 = 10;
pub const MALFORMED_AS_PATH: u8 = 11;

pub const UNSUPPORTED_VER_NUM: u8 = 1;
pub const BAD_PEER_AS: u8 = 2;
pub const BAD_BGP_ID: u8 = 3;
pub const UNSUPPORTED_OPT_PARAM: u8 = 4;
pub const UNACCEPTABLE_HOLD_TIME: u8 = 6;

pub const CONN_NOT_SYNCED: u8 = 1;
pub const BAD_MSG_LEN: u8 = 2;
pub const BAD_MSG_TYPE: u8 = 3;

#[derive(Debug, Clone, Copy, PartialEq, Eq, Structural)]
pub enum NotifErrorCode {
    MessageHeaderError(MsgHeaderErrSubcode),
    OpenMessageError(OpenMsgErrSubcode),
    UpdateMessageError(UpdateMsgErrSubcode),
    HoldTimerExpired,
    FiniteStateMachineError,
    Cease,
}

#[derive(Debug, Clone, Copy, PartialEq, Eq, Structural)]
pub enum OpenMsgErrSubcode {
    UnsupportedVerNum,
    BadPeerAs,
    BadBgpId,
    UnsupportedOptParam,
    UnacceptableHoldTime,
}

#[derive(Debug, Clone, Copy, PartialEq, Eq, Structural)]
pub enum MsgHeaderErrSubcode {
    ConnNotSynced,
    BadMsgLen,
    BadMsgType,
}

#[derive(Debug, Clone, Copy, PartialEq, Eq, Structural)]
pub enum UpdateMsgErrSubcode {
    MalformedAttrList,
    UnrecognizedWkAttr,
    MissingWkAttr,
    AttrFlagsError,
    AttrLengthError,
    InvalidOriginAttr,
    InvalidNextHopAttr,
    OptionalAttrError,
    InvalidNetworkField,
    MalformedAsPath,
}

/// Wire value of a top-level error code.
pub open spec fn code_value(e: NotifErrorCode) -> u8 {
    match e {
        NotifErrorCode::MessageHeaderError(_) => MSG_HEADER_ERR,
        NotifErrorCode::OpenMessageError(_) => OPEN_MSG_ERR,
        NotifErrorCode::UpdateMessageError(_) => UPDATE_MSG_ERR,
        NotifErrorCode::HoldTimerExpired => HOLD_TIMER_EXP_ERR,
        NotifErrorCode::FiniteStateMachineError => FSM_ERR,
        NotifErrorCode::Cease => CEASE_ERR,
    }
}

pub open spec fn open_subcode_value(s: OpenMsgErrSubcode) -> u8 {
    match s {
        OpenMsgErrSubcode::UnsupportedVerNum => UNSUPPORTED_VER_NUM,
        OpenMsgErrSubcode::BadPeerAs => BAD_PEER_AS,
        OpenMsgErrSubcode::BadBgpId => BAD_BGP_ID,
        OpenMsgErrSubcode::UnsupportedOptParam => UNSUPPORTED_OPT_PARAM,
        OpenMsgErrSubcode::UnacceptableHoldTime => UNACCEPTABLE_HOLD_TIME,
    }
}

pub open spec fn header_subcode_value(s: MsgHeaderErrSubcode) -> u8 {
    match s {
        MsgHeaderErrSubcode::ConnNotSynced => CONN_NOT_SYNCED,
        MsgHeaderErrSubcode::BadMsgLen => BAD_MSG_LEN,
        MsgHeaderErrSubcode::BadMsgType => BAD_MSG_TYPE,
    }
}

pub open spec fn update_subcode_value(s: UpdateMsgErrSubcode) -> u8 {
    match s {
        UpdateMsgErrSubcode::MalformedAttrList => MALFORMED_ATTR_LIST,
        UpdateMsgErrSubcode::UnrecognizedWkAttr => UNRECOGNIZED_WK_ATTR,
        UpdateMsgErrSubcode::MissingWkAttr => MISSING_WK_ATTR,
        UpdateMsgErrSubcode::AttrFlagsError => ATTR_FLAGS_ERROR,
        UpdateMsgErrSubcode::AttrLengthError => ATTR_LENGTH_ERROR,
        UpdateMsgErrSubcode::InvalidOriginAttr => INVALID_ORIGIN_ATTR,
        UpdateMsgErrSubcode::InvalidNextHopAttr => INVALID_NEXT_HOP_ATTR,
        UpdateMsgErrSubcode::OptionalAttrError => OPTIONAL_ATTR_ERROR,
        UpdateMsgErrSubcode::InvalidNetworkField => INVALID_NETWORK_FIELD,
        UpdateMsgErrSubcode::MalformedAsPath => MALFORMED_AS_PATH,
    }
}

/// Wire value of the subcode; codes without defined subcodes carry 0.
pub open spec fn subcode_value(e: NotifErrorCode) -> u8 {
    match e {
        NotifErrorCode::MessageHeaderError(s) => header_subcode_value(s),
        NotifErrorCode::OpenMessageError(s) => open_subcode_value(s),
        NotifErrorCode::UpdateMessageError(s) => update_subcode_value(s),
        _ => 0,
    }
}

impl NotifErrorCode {
    pub fn as_ref(&self) -> (r: &Self)
        ensures
            *r == *self,
    {
        self
    }

    /// The wire value of the error code.
    pub fn code(&self) -> (r: u8)
        ensures
            r == code_value(*self),
    {
        match self {
            NotifErrorCode::MessageHeaderError(_) => MSG_HEADER_ERR,
            NotifErrorCode::OpenMessageError(_) => OPEN_MSG_ERR,
            NotifErrorCode::UpdateMessageError(_) => UPDATE_MSG_ERR,
            NotifErrorCode::HoldTimerExpired => HOLD_TIMER_EXP_ERR,
            NotifErrorCode::FiniteStateMachineError => FSM_ERR,
            NotifErrorCode::Cease => CEASE_ERR,
        }
    }

    /// The wire value of the subcode (0 for codes without subcodes).
    pub fn subcode(&self) -> (r: u8)
        ensures
            r == subcode_value(*self),
    {
        match self {
            NotifErrorCode::MessageHeaderError(s) => s.value(),
            NotifErrorCode::OpenMessageError(s) => s.value(),
            NotifErrorCode::UpdateMessageError(s) => s.value(),
            _ => 0,
        }
    }
}

impl OpenMsgErrSubcode {
    pub fn as_ref(&self) -> (r: &Self)
        ensures
            *r == *self,
    {
        self
    }

    pub fn value(&self) -> (r: u8)
        ensures
            r == open_subcode_value(*self),
    {
        match self {
            OpenMsgErrSubcode::UnsupportedVerNum => UNSUPPORTED_VER_NUM,
            OpenMsgErrSubcode::BadPeerAs => BAD_PEER_AS,
            OpenMsgErrSubcode::BadBgpId => BAD_BGP_ID,
            OpenMsgErrSubcode::UnsupportedOptParam => UNSUPPORTED_OPT_PARAM,
            OpenMsgErrSubcode::UnacceptableHoldTime => UNACCEPTABLE_HOLD_TIME,
        }
    }
}

impl MsgHeaderErrSubcode {
    pub fn as_ref(&self) -> (r: &Self)
        ensures
            *r == *self,
    {
        self
    }

    pub fn value(&self) -> (r: u8)
        ensures
            r == header_subcode_value(*self),
    {
        match self {
            MsgHeaderErrSubcode::ConnNotSynced => CONN_NOT_SYNCED,
            MsgHeaderErrSubcode::BadMsgLen => BAD_MSG_LEN,
            MsgHeaderErrSubcode::BadMsgType => BAD_MSG_TYPE,
        }
    }
}

impl UpdateMsgErrSubcode {
    pub fn as_ref(&self) -> (r: &Self)
        ensures
            *r == *self,
    {
        self
    }

    pub fn value(&self) -> (r: u8)
        ensures
            r == update_subcode_value(*self),
    {
        match self {
            UpdateMsgErrSubcode::MalformedAttrList => MALFORMED_ATTR_LIST,
            UpdateMsgErrSubcode::UnrecognizedWkAttr => UNRECOGNIZED_WK_ATTR,
            UpdateMsgErrSubcode::MissingWkAttr => MISSING_WK_ATTR,
            UpdateMsgErrSubcode::AttrFlagsError => ATTR_FLAGS_ERROR,
            UpdateMsgErrSubcode::AttrLengthError => ATTR_LENGTH_ERROR,
            UpdateMsgErrSubcode::InvalidOriginAttr => INVALID_ORIGIN_ATTR,
            UpdateMsgErrSubcode::InvalidNextHopAttr => INVALID_NEXT_HOP_ATTR,
            UpdateMsgErrSubcode::OptionalAttrError => OPTIONAL_ATTR_ERROR,
            UpdateMsgErrSubcode::InvalidNetworkField => INVALID_NETWORK_FIELD,
            UpdateMsgErrSubcode::MalformedAsPath => MALFORMED_AS_PATH,
        }
    }
}

impl<'a> From<&'a NotifErrorCode> for u8 {
    fn from(value: &'a NotifErrorCode) -> (r: u8) {
        value.code()
    }
}

impl<'a> vstd::std_specs::convert::FromSpecImpl<&'a NotifErrorCode> for u8 {
    open spec fn obeys_from_spec() -> bool {
        true
    }

    open spec fn from_spec(v: &'a NotifErrorCode) -> u8 {
        code_value(*v)
    }
}

impl<'a> From<&'a OpenMsgErrSubcode> for u8 {
    fn from(value: &'a OpenMsgErrSubcode) -> (r: u8) {
        value.value()
    }
}

impl<'a> vstd::std_specs::convert::FromSpecImpl<&'a OpenMsgErrSubcode> for u8 {
    open spec fn obeys_from_spec() -> bool {
        true
    }

    open spec fn from_spec(v: &'a OpenMsgErrSubcode) -> u8 {
        open_subcode_value(*v)
    }
}

impl<'a> From<&'a MsgHeaderErrSubcode> for u8 {
    fn from(value: &'a MsgHeaderErrSubcode) -> (r: u8) {
        value.value()
    }
}

impl<'a> vstd::std_specs::convert::FromSpecImpl<&'a MsgHeaderErrSubcode> for u8 {
    open spec fn obeys_from_spec() -> bool {
        true
    }

    open spec fn from_spec(v: &'a MsgHeaderErrSubcode) -> u8 {
        header_subcode_value(*v)
    }
}

impl<'a> From<&'a UpdateMsgErrSubcode> for u8 {
    fn from(value: &'a UpdateMsgErrSubcode) -> (r: u8) {
        value.value()
    }
}

impl<'a> vstd::std_specs::convert::FromSpecImpl<&'a UpdateMsgErrSubcode> for u8 {
    open spec fn obeys_from_spec() -> bool {
        true
    }

    open spec fn from_spec(v: &'a UpdateMsgErrSubcode) -> u8 {
        update_subcode_value(*v)
    }
}


/// Why a code/subcode pair names no error of the taxonomy.
#[derive(Debug, Clone, Copy, PartialEq, Eq, Structural)]
pub enum TaxonomyError {
    InvalidCode,
    InvalidSubcode,
}

/// The subcode names an error of the given code (0 where the code has none).
pub open spec fn subcode_allowed(code: u8, subcode: u8) -> bool {
    if code == MSG_HEADER_ERR {
        1 <= subcode <= 3
    } else if code == OPEN_MSG_ERR {
        1 <= subcode <= 6 && subcode != 5
    } else if code == UPDATE_MSG_ERR {
        1 <= subcode <= 11 && subcode != 7
    } else {
        subcode == 0
    }
}

fn header_subcode_from(subcode: u8) -> (r: Option<MsgHeaderErrSubcode>)
    ensures
        r matches Some(s) ==> header_subcode_value(s) == subcode,
        r is Some <==> 1 <= subcode <= 3,
{
    match subcode {
        1 => Some(MsgHeaderErrSubcode::ConnNotSynced),
        2 => Some(MsgHeaderErrSubcode::BadMsgLen),
        3 => Some(MsgHeaderErrSubcode::BadMsgType),
        _ => None,
    }
}

fn open_subcode_from(subcode: u8) -> (r: Option<OpenMsgErrSubcode>)
    ensures
        r matches Some(s) ==> open_subcode_value(s) == subcode,
        r is Some <==> (1 <= subcode <= 6 && subcode != 5),
{
    match subcode {
        1 => Some(OpenMsgErrSubcode::UnsupportedVerNum),
        2 => Some(OpenMsgErrSubcode::BadPeerAs),
        3 => Some(OpenMsgErrSubcode::BadBgpId),
        4 => Some(OpenMsgErrSubcode::UnsupportedOptParam),
        6 => Some(OpenMsgErrSubcode::UnacceptableHoldTime),
        _ => None,
    }
}

fn update_subcode_from(subcode: u8) -> (r: Option<UpdateMsgErrSubcode>)
    ensures
        r matches Some(s) ==> update_subcode_value(s) == subcode,
        r is Some <==> (1 <= subcode <= 11 && subcode != 7),
{
    match subcode {
        1 => Some(UpdateMsgErrSubcode::MalformedAttrList),
        2 => Some(UpdateMsgErrSubcode::UnrecognizedWkAttr),
        3 => Some(UpdateMsgErrSubcode::MissingWkAttr),
        4 => Some(UpdateMsgErrSubcode::AttrFlagsError),
        5 => Some(UpdateMsgErrSubcode::AttrLengthError),
        6 => Some(UpdateMsgErrSubcode::InvalidOriginAttr),
        8 => Some(UpdateMsgErrSubcode::InvalidNextHopAttr),
        9 => Some(UpdateMsgErrSubcode::OptionalAttrError),
        10 => Some(UpdateMsgErrSubcode::InvalidNetworkField),
        11 => Some(UpdateMsgErrSubcode::MalformedAsPath),
        _ => None,
    }
}

impl NotifErrorCode {
    /// The error that a code and subcode name on the wire.
    pub fn from_codes(code: u8, subcode: u8) -> (r: Result<NotifErrorCode, TaxonomyError>)
        ensures
            r matches Ok(e) ==> code_value(e) == code && subcode_value(e) == subcode,
            r is Ok <==> (1 <= code <= 6 && subcode_allowed(code, subcode)),
            r == Err::<NotifErrorCode, TaxonomyError>(TaxonomyError::InvalidCode) <==> !(1 <= code <= 6),
    {
        if code == MSG_HEADER_ERR {
            match header_subcode_from(subcode) {
                Some(s) => Ok(NotifErrorCode::MessageHeaderError(s)),
                None => Err(TaxonomyError::InvalidSubcode),
            }
        } else if code == OPEN_MSG_ERR {
            match open_subcode_from(subcode) {
                Some(s) => Ok(NotifErrorCode::OpenMessageError(s)),
                None => Err(TaxonomyError::InvalidSubcode),
            }
        } else if code == UPDATE_MSG_ERR {
            match update_subcode_from(subcode) {
                Some(s) => Ok(NotifErrorCode::UpdateMessageError(s)),
                None => Err(TaxonomyError::InvalidSubcode),
            }
        } else if code == HOLD_TIMER_EXP_ERR || code == FSM_ERR || code == CEASE_ERR {
            if subcode != 0 {
                Err(TaxonomyError::InvalidSubcode)
            } else if code == HOLD_TIMER_EXP_ERR {
                Ok(NotifErrorCode::HoldTimerExpired)
            } else if code == FSM_ERR {
                Ok(NotifErrorCode::FiniteStateMachineError)
            } else {
                Ok(NotifErrorCode::Cease)
            }
        } else {
            Err(TaxonomyError::InvalidCode)
        }
    }
}

/// Every error's wire code and subcode are a permitted pair, and they name
/// that error alone.
pub proof fn lemma_wire_values_identify(e: NotifErrorCode, f: NotifErrorCode)
    ensures
        1 <= code_value(e) <= 6,
        subcode_allowed(code_value(e), subcode_value(e)),
        (code_value(e) == code_value(f) && subcode_value(e) == subcode_value(f)) ==> e == f,
{
}

} // verus!
