use vstd::prelude::*;

verus! {

/// Identifies a message type on the wire.
#[derive(Debug, Copy, Clone, PartialEq, Eq, Structural, Hash)]
pub enum ApiKey {
    /// The version-discovery handshake message.
    ApiVersions,
    /// The cluster metadata message.
    Metadata,
}

impl ApiKey {
    /// The key's wire code.
    pub open spec fn code_spec(&self) -> i16 {
        match self {
            ApiKey::ApiVersions => 18,
            ApiKey::Metadata => 3,
        }
    }

    /// The key's wire code, carried in every request header.
    pub fn code(&self) -> (r: i16)
        ensures
            r == self.code_spec(),
    {
        match self {
            ApiKey::ApiVersions => 18,
            ApiKey::Metadata => 3,
        }
    }
}

} // verus!
