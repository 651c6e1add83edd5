//! The wire protocol: primitive and varint codecs, tagged fields, the
//! schema model with its versioned codec engine, and the message types.

pub mod api_key;
pub mod deserializer;
pub mod error;
pub mod header;
pub mod metadata;
pub mod messages;
pub mod schema;
pub mod version;
pub mod serializer;
pub mod wire;
