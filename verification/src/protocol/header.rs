//! The request and response headers that frame every exchange.

use vstd::prelude::*;

use crate::protocol::api_key::ApiKey;
use crate::protocol::deserializer::DeserializeVersioned;
use crate::protocol::error::SerializationError;
use crate::protocol::messages::ApiVersion;
use crate::protocol::messages::TaggedFields;
use crate::protocol::serializer::SerializeVersioned;
use crate::protocol::serializer::serialize_compact_string;
use crate::protocol::wire::DecOut;
use crate::protocol::wire::be_dec;
use crate::protocol::wire::be_enc;
use crate::protocol::wire::compact_enc;
use crate::protocol::wire::tagged_dec;
use crate::protocol::wire::to_signed;
use crate::protocol::wire::to_unsigned;
use vstd::utf8::encode_utf8;

verus! {

/// The header of every request: the version and key of the message it
/// carries, the exchange's correlation id, and — from header version 1 —
/// the client's identity as a compact string.
#[derive(Debug, Clone, PartialEq, Eq)]
pub struct RequestHeader {
    pub request_api_version: ApiVersion,
    pub request_api_key: ApiKey,
    pub correlation_id: i32,
    pub client_id: String,
}

/// The header of every response: the correlation id echoed from the
/// request, and — where the exchange's negotiated version carries one —
/// the tagged-fields region.
#[derive(Debug, Clone, PartialEq, Eq)]
pub struct ResponseHeader {
    pub correlation_id: i32,
    pub tagged_fields: Option<TaggedFields>,
}

/// The highest request header version this codec can emit.
pub const REQUEST_HEADER_MAX_VERSION: i16 = 2;

/// The wire form of a request header at header version `v`.
pub open spec fn request_header_enc(h: RequestHeader, v: i16) -> Seq<u8> {
    be_enc(to_unsigned(h.request_api_version as int, 0x10000), 2) + be_enc(
        to_unsigned(h.request_api_key.code_spec() as int, 0x10000),
        2,
    ) + be_enc(to_unsigned(h.correlation_id as int, 0x100000000), 4) + (if v >= 1 {
        compact_enc(encode_utf8(h.client_id@))
    } else {
        seq![]
    })
}

impl RequestHeader {
    /// Append the header's wire form at header version `version` to `out`:
    /// the request's api version and key, the correlation id, and from
    /// header version 1 the client id.
    pub fn encode(&self, out: &mut Vec<u8>, version: i16) -> (r: Result<(), SerializationError>)
        requires
            encode_utf8(self.client_id@).len() < usize::MAX,
        ensures
            version > REQUEST_HEADER_MAX_VERSION ==> r == Err::<(), SerializationError>(
                SerializationError::UnsupportedVersion {
                    max_version: REQUEST_HEADER_MAX_VERSION,
                    given_version: version,
                },
            ) && final(out)@ == old(out)@,
            version <= REQUEST_HEADER_MAX_VERSION ==> r is Ok && final(out)@ == old(out)@
                + request_header_enc(*self, version),
    {
        if version > REQUEST_HEADER_MAX_VERSION {
            return Err(
                SerializationError::UnsupportedVersion {
                    max_version: REQUEST_HEADER_MAX_VERSION,
                    given_version: version,
                },
            );
        }
        match self.request_api_version.serialize_versioned(out, version) {
            Ok(()) => (),
            Err(e) => {
                return Err(e);
            },
        }
        let code: i16 = self.request_api_key.code();
        match code.serialize_versioned(out, version) {
            Ok(()) => (),
            Err(e) => {
                return Err(e);
            },
        }
        match self.correlation_id.serialize_versioned(out, version) {
            Ok(()) => (),
            Err(e) => {
                return Err(e);
            },
        }
        if version >= 1 {
            match serialize_compact_string(&self.client_id, out) {
                Ok(()) => (),
                Err(e) => {
                    return Err(e);
                },
            }
        }
        proof {
            assert(out@ =~= old(out)@ + request_header_enc(*self, version));
        }
        Ok(())
    }
}

/// The decoded shape of a response header at header version `v`: the
/// correlation id and, from header version 1, the tagged-fields region.
pub open spec fn response_header_dec(s: Seq<u8>, v: i16) -> DecOut<
    (int, Option<Seq<(u64, Seq<u8>)>>),
> {
    match be_dec(s, 4) {
        DecOut::Val(u, n) => if v >= 1 {
            match tagged_dec(s.skip(n)) {
                DecOut::Val(es, m) => DecOut::Val(
                    (to_signed(u, 0x100000000), Option::Some(es)),
                    n + m,
                ),
                DecOut::Bad => DecOut::Bad,
                DecOut::Short => DecOut::Short,
            }
        } else {
            DecOut::Val((to_signed(u, 0x100000000), Option::None), n)
        },
        DecOut::Bad => DecOut::Bad,
        DecOut::Short => DecOut::Short,
    }
}

impl ResponseHeader {
    /// Decode a response header at header version `version` from `data`
    /// starting at `pos`.
    pub fn decode(data: &[u8], pos: usize, version: i16) -> (r: Result<
        (Self, usize),
        SerializationError,
    >)
        requires
            pos <= data@.len(),
        ensures
            r matches Ok(p) ==> pos <= p.1 <= data@.len(),
            ({
                match response_header_dec(data@.skip(pos as int), version) {
                    DecOut::Val(h, n) => r matches Ok(p) && p.0.correlation_id as int == h.0 && (
                    match p.0.tagged_fields {
                        Option::Some(t) => h.1 matches Option::Some(es) && t@ == es && t.wf(),
                        Option::None => h.1 is None,
                    }) && p.1 == pos + n,
                    DecOut::Bad => r matches Err(e) && e == SerializationError::Malformed,
                    DecOut::Short => r matches Err(e) && e == SerializationError::Io,
                }
            }),
    {
        proof {
            crate::protocol::wire::lemma_pow256_values();
            crate::protocol::wire::lemma_be_val_bound(data@.skip(pos as int).take(4));
        }
        let cp = match i32::deserialize_versioned(data, pos, version) {
            Ok(p) => p,
            Err(e) => {
                return Err(e);
            },
        };
        if version >= 1 {
            proof {
                assert(data@.skip(pos as int).skip((cp.1 - pos) as int) =~= data@.skip(
                    cp.1 as int,
                ));
            }
            let tp = match TaggedFields::deserialize_versioned(data, cp.1, version) {
                Ok(p) => p,
                Err(e) => {
                    return Err(e);
                },
            };
            Ok((
                ResponseHeader { correlation_id: cp.0, tagged_fields: Option::Some(tp.0) },
                tp.1,
            ))
        } else {
            Ok((ResponseHeader { correlation_id: cp.0, tagged_fields: Option::None }, cp.1))
        }
    }
}

} // verus!
