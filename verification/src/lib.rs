//! A runtime whose rooms can be bound to IRC channels: the rooms and their
//! commands, the IRC line protocol, and the decisions about what is sent to
//! whom.

pub mod acl;
pub mod bridge;
pub mod channel;
pub mod collections;
pub mod config;
pub mod did_publish;
pub mod error;
pub mod ids;
pub mod kubo;
pub mod order;
pub mod root;
pub mod root_publish;
pub mod rpc_transport;
pub mod status;
pub mod term;
pub mod text;
pub mod yaml;
