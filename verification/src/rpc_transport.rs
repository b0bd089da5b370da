//! Requests that reach the runtime, and the answers to them.

pub mod dispatch;
pub mod laws;
pub mod request_laws;
pub mod sending;
pub mod wire;
pub mod wire_laws;
