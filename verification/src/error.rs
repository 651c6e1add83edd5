use vstd::prelude::*;

use crate::protocol::error::SerializationError;

verus! {

/// A failure surfaced to users of the client.
#[derive(Debug, Clone, PartialEq, Eq)]
pub enum Error {
    /// The transport failed or ended unexpectedly.
    Io,
    /// A message could not be encoded or decoded.
    Serialization(SerializationError),
    /// A response body did not have the expected shape.
    Deserialize { message: String },
}

} // verus!
