//! Client-side implementation of a versioned binary request/response wire
//! protocol: a schema-driven codec whose on-wire layout depends on a
//! negotiated protocol version, and the state of a multiplexed connection
//! that matches pipelined responses to their requests by correlation id.

pub mod client;
pub mod error;
pub mod protocol;
