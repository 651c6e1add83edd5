use kafcars::protocol::deserializer::DeserializeVersioned;
use kafcars::protocol::error::SerializationError;
use kafcars::protocol::messages::KafkaRequest;
use kafcars::protocol::messages::KafkaResponse;
use kafcars::protocol::messages::TaggedFields;
use kafcars::protocol::schema::FieldCodec;
use kafcars::protocol::schema::FieldSpec;
use kafcars::protocol::schema::FieldValue;
use kafcars::protocol::schema::FieldWindow;
use kafcars::protocol::schema::Message;
use kafcars::protocol::schema::Schema;
use kafcars::protocol::schema::deserialize_message;
use kafcars::protocol::schema::serialize_message;
use kafcars::protocol::serializer::SerializeVersioned;
use kafcars::protocol::version::ApiVersionsRequest;
use kafcars::protocol::version::ApiVersionsResponse;

fn windowed_int_schema() -> Schema {
    Schema {
        fields: vec![FieldSpec {
            codec: FieldCodec::Int32,
            codec_override: None,
            window: Some(FieldWindow { min: 1, max: 3 }),
            tag: None,
        }],
        max_version: 4,
        tag_version: None,
    }
}

#[test]
fn window_gates_field_out_at_low_and_high_versions() {
    let schema = windowed_int_schema();
    let opts_enc = schema.serialize_options();
    let opts_dec = schema.deserialize_options();
    for v in [0i16, 4] {
        // Encode: a gated-out field emits nothing.
        let msg = Message { values: vec![FieldValue::Absent], tagged: None };
        let mut out = Vec::new();
        serialize_message(&msg, &schema.fields, &opts_enc, v, &mut out).unwrap();
        assert_eq!(out, Vec::<u8>::new());
        // Decode: the slot decodes to absent without consuming bytes.
        let (m, end) = deserialize_message(&[], 0, &schema.fields, &opts_dec, v).unwrap();
        assert_eq!(m.values, vec![FieldValue::Absent]);
        assert_eq!(end, 0);
    }
    for v in [1i16, 2, 3] {
        let msg = Message { values: vec![FieldValue::Int32(77)], tagged: None };
        let mut out = Vec::new();
        serialize_message(&msg, &schema.fields, &opts_enc, v, &mut out).unwrap();
        assert_eq!(out, vec![0, 0, 0, 77]);
        let (m, end) = deserialize_message(&out, 0, &schema.fields, &opts_dec, v).unwrap();
        assert_eq!(m.values, vec![FieldValue::Int32(77)]);
        assert_eq!(end, 4);
    }
}

#[test]
fn unsupported_version_rejected_before_any_byte() {
    let schema = windowed_int_schema();
    let msg = Message { values: vec![FieldValue::Int32(1)], tagged: None };
    let mut out = Vec::new();
    let r = serialize_message(&msg, &schema.fields, &schema.serialize_options(), 5, &mut out);
    assert_eq!(
        r,
        Err(SerializationError::UnsupportedVersion { max_version: 4, given_version: 5 })
    );
    assert_eq!(out, Vec::<u8>::new());

    let data = vec![0u8, 0, 0, 77];
    let r = deserialize_message(&data, 0, &schema.fields, &schema.deserialize_options(), 5);
    assert_eq!(
        r,
        Err(SerializationError::UnsupportedVersion { max_version: 4, given_version: 5 })
    );
}

#[test]
fn tagged_container_round_trips_byte_for_byte() {
    let mut tf = TaggedFields::new();
    tf.insert(2, vec![0xAA]).unwrap();
    tf.insert(5, vec![1, 2]).unwrap();
    let mut out = Vec::new();
    tf.serialize_versioned(&mut out, 0).unwrap();
    assert_eq!(out, vec![2, 2, 1, 0xAA, 5, 2, 1, 2]);
    let (back, end) = TaggedFields::deserialize_versioned(&out, 0, 0).unwrap();
    assert_eq!(end, out.len());
    let mut again = Vec::new();
    back.serialize_versioned(&mut again, 0).unwrap();
    assert_eq!(again, out);
}

#[test]
fn tagged_duplicate_tag_is_malformed() {
    // count 2; entries tagged 3 and 3.
    let data = vec![2u8, 3, 1, 0xAA, 3, 1, 0xBB];
    assert!(matches!(
        TaggedFields::deserialize_versioned(&data, 0, 0),
        Err(SerializationError::Malformed)
    ));
}

#[test]
fn tagged_descending_tags_are_malformed() {
    // count 2; entries tagged 5 and 2.
    let data = vec![2u8, 5, 1, 0xAA, 2, 1, 0xBB];
    assert!(matches!(
        TaggedFields::deserialize_versioned(&data, 0, 0),
        Err(SerializationError::Malformed)
    ));
}

#[test]
fn tagged_insert_refuses_out_of_order() {
    let mut tf = TaggedFields::new();
    tf.insert(4, vec![]).unwrap();
    assert_eq!(tf.insert(4, vec![]), Err(SerializationError::Malformed));
    assert_eq!(tf.insert(1, vec![]), Err(SerializationError::Malformed));
    assert_eq!(tf.fields.len(), 1);
}

#[test]
fn tagged_empty_container_is_one_zero_byte() {
    let tf = TaggedFields::new();
    let mut out = Vec::new();
    tf.serialize_versioned(&mut out, 0).unwrap();
    assert_eq!(out, vec![0]);
    let (back, end) = TaggedFields::deserialize_versioned(&out, 0, 0).unwrap();
    assert_eq!(back.fields.len(), 0);
    assert_eq!(end, 1);
}

#[test]
fn handshake_message_round_trips_at_version_three() {
    let mut tf = TaggedFields::new();
    tf.insert(1, vec![9, 9]).unwrap();
    let req = ApiVersionsRequest {
        client_software_name: Some(String::from("kafcars")),
        client_software_version: Some(String::from("0.1")),
        tagged_fields: Some(tf),
    };
    let schema = ApiVersionsRequest::schema();
    let msg = req.into_message();
    let mut out = Vec::new();
    serialize_message(&msg, &schema.fields, &schema.serialize_options(), 3, &mut out).unwrap();
    let (back, end) = deserialize_message(&out, 0, &schema.fields, &schema.deserialize_options(), 3)
        .unwrap();
    assert_eq!(end, out.len());
    assert_eq!(back, msg);
    assert_eq!(
        back.values,
        vec![
            FieldValue::Str(b"kafcars".to_vec()),
            FieldValue::Str(b"0.1".to_vec()),
        ]
    );
}

#[test]
fn handshake_message_is_empty_below_version_three() {
    let req = ApiVersionsRequest {
        client_software_name: None,
        client_software_version: None,
        tagged_fields: None,
    };
    let schema = ApiVersionsRequest::schema();
    let msg = req.into_message();
    let mut out = Vec::new();
    serialize_message(&msg, &schema.fields, &schema.serialize_options(), 0, &mut out).unwrap();
    assert_eq!(out, Vec::<u8>::new());
}

#[test]
fn handshake_constants_match_schema() {
    assert_eq!(
        <ApiVersionsRequest as KafkaRequest>::api_key(),
        kafcars::protocol::api_key::ApiKey::ApiVersions
    );
    let range = <ApiVersionsRequest as KafkaRequest>::api_version_range();
    assert_eq!((range.min, range.max), (0, 4));
    assert_eq!(<ApiVersionsRequest as KafkaRequest>::tagged_fields_min_version(), Some(3));
    assert_eq!(<ApiVersionsResponse as KafkaResponse>::tagged_fields_min_version(), Some(3));
    let schema = ApiVersionsRequest::schema();
    assert_eq!(schema.max_version, 4);
    assert_eq!(schema.tag_version, Some(3));
    assert_eq!(schema.fields.len(), 2);
}

#[test]
fn versioned_engines_drive_the_schema() {
    let schema = windowed_int_schema();
    let msg = Message { values: vec![FieldValue::Int32(-9)], tagged: None };
    let ser = kafcars::protocol::serializer::VersionedSerializer::new(2);
    let mut out = Vec::new();
    ser.serialize_message(&msg, &schema, &mut out).unwrap();
    assert_eq!(out, vec![0xFF, 0xFF, 0xFF, 0xF7]);
    let de = kafcars::protocol::deserializer::VersionedDeserializer::new(2);
    let (m, end) = de.deserialize_message(&out, 0, &schema).unwrap();
    assert_eq!(m, msg);
    assert_eq!(end, 4);
    let de5 = kafcars::protocol::deserializer::VersionedDeserializer::new(5);
    assert_eq!(
        de5.deserialize_message(&out, 0, &schema),
        Err(SerializationError::UnsupportedVersion { max_version: 4, given_version: 5 })
    );
}

#[test]
fn field_decode_failure_propagates_verbatim() {
    let schema = Schema {
        fields: vec![FieldSpec {
            codec: FieldCodec::Bool,
            codec_override: None,
            window: None,
            tag: None,
        }],
        max_version: 0,
        tag_version: None,
    };
    let r = deserialize_message(&[9u8], 0, &schema.fields, &schema.deserialize_options(), 0);
    assert_eq!(r, Err(SerializationError::UnknownValue));
    let r = deserialize_message(&[], 0, &schema.fields, &schema.deserialize_options(), 0);
    assert_eq!(r, Err(SerializationError::Io));
}

#[test]
fn codec_override_takes_effect() {
    let schema = Schema {
        fields: vec![FieldSpec {
            codec: FieldCodec::Int32,
            codec_override: Some(FieldCodec::Int16),
            window: None,
            tag: None,
        }],
        max_version: 0,
        tag_version: None,
    };
    let msg = Message { values: vec![FieldValue::Int16(5)], tagged: None };
    let mut out = Vec::new();
    serialize_message(&msg, &schema.fields, &schema.serialize_options(), 0, &mut out).unwrap();
    assert_eq!(out, vec![0, 5]);
    let (m, _) = deserialize_message(&out, 0, &schema.fields, &schema.deserialize_options(), 0)
        .unwrap();
    assert_eq!(m.values, vec![FieldValue::Int16(5)]);
}

#[test]
fn tagged_slot_reserved_even_when_empty() {
    let schema = Schema { fields: vec![], max_version: 2, tag_version: Some(1) };
    let msg = Message { values: vec![], tagged: None };
    let mut out = Vec::new();
    serialize_message(&msg, &schema.fields, &schema.serialize_options(), 1, &mut out).unwrap();
    assert_eq!(out, vec![0]);
    let (m, end) = deserialize_message(&out, 0, &schema.fields, &schema.deserialize_options(), 1)
        .unwrap();
    assert_eq!(end, 1);
    assert!(m.tagged.is_some());
    let mut out0 = Vec::new();
    serialize_message(&msg, &schema.fields, &schema.serialize_options(), 0, &mut out0).unwrap();
    assert_eq!(out0, Vec::<u8>::new());
}
