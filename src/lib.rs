//! Core of a BGP-4 speaker (RFC 4271): wire types and their octet codec,
//! the NOTIFICATION error taxonomy, path-attribute builders, the decision
//! process order, the path-attribute intern pool, the per-destination BGP
//! table with its `walk`, and the peer session state machine.

pub mod errors;
pub mod octets;
pub mod path_attrs;
pub mod message_types;
pub mod decision;
pub mod comms;
pub mod table;
pub mod msg_encoder;
pub mod msg_decoder;
pub mod fsm_ds;
