//! The version-discovery handshake message: the one exchange that must be
//! negotiated before any other, since the remote's advertised ranges are
//! themselves learned through it.

use vstd::prelude::*;

use crate::protocol::api_key::ApiKey;
use crate::protocol::messages::ApiVersion;
use crate::protocol::messages::ApiVersionRange;
use crate::protocol::messages::KafkaRequest;
use crate::protocol::messages::KafkaResponse;
use crate::protocol::messages::TaggedFields;
use crate::protocol::schema::FieldCodec;
use crate::protocol::schema::FieldSpec;
use crate::protocol::schema::FieldValue;
use crate::protocol::schema::FieldValueV;
use crate::protocol::schema::FieldWindow;
use crate::protocol::schema::Message;
use crate::protocol::schema::Schema;
use vstd::string::StrSliceExecFns;
use vstd::utf8::encode_utf8;

verus! {

/// The handshake request: the client's software name and version (present
/// from message version 3 on, as compact strings) and the tagged-fields
/// slot (also present from version 3 on).
#[derive(Debug)]
pub struct ApiVersionsRequest {
    pub client_software_name: Option<String>,
    pub client_software_version: Option<String>,
    pub tagged_fields: Option<TaggedFields>,
}

/// The handshake response; this layer reads only its header, the body's
/// per-message-type version table is decoded by its own schema.
#[derive(Debug)]
pub struct ApiVersionsResponse {}

/// The field specification both compact-string fields of the handshake
/// request share: present from message version 3 on.
pub open spec fn handshake_string_field() -> FieldSpec {
    FieldSpec {
        codec: FieldCodec::CompactString,
        codec_override: Option::None,
        window: Option::Some(FieldWindow { min: 3, max: i16::MAX }),
        tag: Option::None,
    }
}

impl ApiVersionsRequest {
    /// The schema the codec engine drives the handshake request with.
    pub fn schema() -> (r: Schema)
        ensures
            r.fields@ =~= seq![handshake_string_field(), handshake_string_field()],
            r.max_version == 4,
            r.tag_version == Option::Some(3i16),
    {
        let f = FieldSpec {
            codec: FieldCodec::CompactString,
            codec_override: Option::None,
            window: Option::Some(FieldWindow { min: 3, max: i16::MAX }),
            tag: Option::None,
        };
        let mut fields: Vec<FieldSpec> = Vec::new();
        fields.push(f);
        fields.push(f);
        Schema { fields, max_version: 4, tag_version: Option::Some(3) }
    }

    /// The message instance the codec engine encodes: one value per schema
    /// field, and the tagged-fields container in the message-level slot.
    pub fn into_message(self) -> (r: Message)
        ensures
            r@.values =~= seq![
                match self.client_software_name {
                    Option::Some(s) => FieldValueV::Str(encode_utf8(s@)),
                    Option::None => FieldValueV::Absent,
                },
                match self.client_software_version {
                    Option::Some(s) => FieldValueV::Str(encode_utf8(s@)),
                    Option::None => FieldValueV::Absent,
                },
            ],
            r@.tagged == (match self.tagged_fields {
                Option::Some(t) => Option::Some(t@),
                Option::None => Option::None::<Seq<(u64, Seq<u8>)>>,
            }),
    {
        let name = match self.client_software_name {
            Option::Some(s) => FieldValue::Str(s.as_str().as_bytes_vec()),
            Option::None => FieldValue::Absent,
        };
        let version = match self.client_software_version {
            Option::Some(s) => FieldValue::Str(s.as_str().as_bytes_vec()),
            Option::None => FieldValue::Absent,
        };
        let mut values: Vec<FieldValue> = Vec::new();
        values.push(name);
        values.push(version);
        Message { values, tagged: self.tagged_fields }
    }
}

impl KafkaRequest for ApiVersionsRequest {
    type KafkaResponse = ApiVersionsResponse;

    fn api_key() -> (r: ApiKey)
        ensures
            r == ApiKey::ApiVersions,
    {
        ApiKey::ApiVersions
    }

    fn api_version_range() -> (r: ApiVersionRange)
        ensures
            r == (ApiVersionRange { min: 0i16, max: 4i16 }),
    {
        ApiVersionRange { min: 0, max: 4 }
    }

    fn tagged_fields_min_version() -> (r: Option<ApiVersion>)
        ensures
            r == Option::Some(3i16),
    {
        Option::Some(3)
    }
}

impl KafkaResponse for ApiVersionsResponse {
    fn tagged_fields_min_version() -> (r: Option<ApiVersion>)
        ensures
            r == Option::Some(3i16),
    {
        Option::Some(3)
    }
}

} // verus!
