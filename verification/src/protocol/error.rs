use vstd::prelude::*;

verus! {

/// An error code a broker can attach to a topic or partition in a
/// response. This layer does not interpret codes, it only carries them.
#[derive(Debug, Copy, Clone, PartialEq, Eq, Structural)]
pub enum Error {
    Code(i16),
}

/// A failure while encoding a message to, or decoding it from, its wire form.
#[derive(Debug, Copy, Clone, PartialEq, Eq, Structural)]
pub enum SerializationError {
    /// The underlying byte stream was exhausted before the value was
    /// complete, or the transport itself failed.
    Io,
    /// A decoded discriminant byte has no valid mapping for its type.
    UnknownValue,
    /// A length is too large for the representable range.
    Overflow,
    /// A structural violation: an unsigned varint that would exceed 64
    /// significant bits, or a tagged-field sequence whose tags are not
    /// strictly ascending.
    Malformed,
    /// The requested version exceeds the highest version the message's
    /// schema supports; detected before any byte is produced or consumed.
    UnsupportedVersion { max_version: i16, given_version: i16 },
}

} // verus!
