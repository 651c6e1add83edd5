use kafcars::protocol::deserializer::DeserializeVersioned;
use kafcars::protocol::deserializer::DeserializeVersionedInto;
use kafcars::protocol::deserializer::VersionedDeserializer;
use kafcars::protocol::deserializer::deserialize_compact_bytes;
use kafcars::protocol::deserializer::deserialize_unsigned_var_int;
use kafcars::protocol::error::SerializationError;
use kafcars::protocol::serializer::SerializeVersioned;
use kafcars::protocol::serializer::VersionedSerializer;
use kafcars::protocol::serializer::serialize_compact_string;
use kafcars::protocol::serializer::serialize_unsigned_var_int;

fn varint_bytes(x: u64) -> Vec<u8> {
    let mut out = Vec::new();
    serialize_unsigned_var_int(x, &mut out).unwrap();
    out
}

#[test]
fn varint_round_trips_small_and_large() {
    for &x in &[0u64, 1, 127, 128, 300, 16383, 16384, 1 << 32, u64::MAX] {
        let enc = varint_bytes(x);
        let (back, end) = deserialize_unsigned_var_int(&enc, 0).unwrap();
        assert_eq!(back, x);
        assert_eq!(end, enc.len());
    }
}

#[test]
fn varint_minimal_encodings() {
    assert_eq!(varint_bytes(0), vec![0x00]);
    assert_eq!(varint_bytes(1), vec![0x01]);
    assert_eq!(varint_bytes(127), vec![0x7F]);
    assert_eq!(varint_bytes(128), vec![0x80, 0x01]);
    assert_eq!(varint_bytes(300), vec![0xAC, 0x02]);
    assert_eq!(
        varint_bytes(u64::MAX),
        vec![0xFF, 0xFF, 0xFF, 0xFF, 0xFF, 0xFF, 0xFF, 0xFF, 0xFF, 0x01]
    );
}

#[test]
fn varint_overflow_is_malformed() {
    // Ten continuation bytes: the value would need more than 64 bits.
    let too_long = vec![0x80u8; 10];
    assert_eq!(
        deserialize_unsigned_var_int(&too_long, 0),
        Err(SerializationError::Malformed)
    );
    // Nine continuation bytes then a final byte above 1: bit 64 and up.
    let mut wide = vec![0x80u8; 9];
    wide.push(0x02);
    assert_eq!(
        deserialize_unsigned_var_int(&wide, 0),
        Err(SerializationError::Malformed)
    );
}

#[test]
fn varint_truncated_is_io() {
    assert_eq!(
        deserialize_unsigned_var_int(&[0x80], 0),
        Err(SerializationError::Io)
    );
    assert_eq!(deserialize_unsigned_var_int(&[], 0), Err(SerializationError::Io));
}

#[test]
fn fixed_width_integers_round_trip() {
    let mut out = Vec::new();
    (-2i16).serialize_versioned(&mut out, 0).unwrap();
    assert_eq!(out, vec![0xFF, 0xFE]);
    let (v, end) = i16::deserialize_versioned(&out, 0, 0).unwrap();
    assert_eq!(v, -2);
    assert_eq!(end, 2);

    let mut out = Vec::new();
    0x01020304i32.serialize_versioned(&mut out, 0).unwrap();
    assert_eq!(out, vec![1, 2, 3, 4]);
    let (v, _) = i32::deserialize_versioned(&out, 0, 0).unwrap();
    assert_eq!(v, 0x01020304);

    let mut out = Vec::new();
    (-1i64).serialize_versioned(&mut out, 0).unwrap();
    assert_eq!(out, vec![0xFF; 8]);
    let (v, _) = i64::deserialize_versioned(&out, 0, 0).unwrap();
    assert_eq!(v, -1);

    let mut out = Vec::new();
    0xDEADBEEFu32.serialize_versioned(&mut out, 0).unwrap();
    assert_eq!(out, vec![0xDE, 0xAD, 0xBE, 0xEF]);
    let (v, _) = u32::deserialize_versioned(&out, 0, 0).unwrap();
    assert_eq!(v, 0xDEADBEEF);

    let mut out = Vec::new();
    (-128i8).serialize_versioned(&mut out, 0).unwrap();
    assert_eq!(out, vec![0x80]);
    let (v, _) = i8::deserialize_versioned(&out, 0, 0).unwrap();
    assert_eq!(v, -128);
}

#[test]
fn fixed_width_truncated_is_io() {
    assert_eq!(
        i32::deserialize_versioned(&[0, 1, 2], 0, 0),
        Err(SerializationError::Io)
    );
    assert_eq!(i16::deserialize_versioned(&[7], 0, 0), Err(SerializationError::Io));
}

#[test]
fn bool_codec_and_unknown_value() {
    let mut out = Vec::new();
    true.serialize_versioned(&mut out, 0).unwrap();
    false.serialize_versioned(&mut out, 0).unwrap();
    assert_eq!(out, vec![1, 0]);
    assert_eq!(bool::deserialize_versioned(&out, 0, 0).unwrap(), (true, 1));
    assert_eq!(bool::deserialize_versioned(&out, 1, 0).unwrap(), (false, 2));
    assert_eq!(
        bool::deserialize_versioned(&[2], 0, 0),
        Err(SerializationError::UnknownValue)
    );
}

#[test]
fn compact_string_frames_length_plus_one() {
    let mut out = Vec::new();
    serialize_compact_string(&String::from("hi"), &mut out).unwrap();
    assert_eq!(out, vec![0x03, b'h', b'i']);
    let (bytes, end) = deserialize_compact_bytes(&out, 0).unwrap();
    assert_eq!(bytes, b"hi".to_vec());
    assert_eq!(end, 3);
}

#[test]
fn compact_string_null_marker_rejected() {
    assert_eq!(
        deserialize_compact_bytes(&[0x00], 0),
        Err(SerializationError::Malformed)
    );
}

#[test]
fn compact_string_truncated_is_io() {
    assert_eq!(
        deserialize_compact_bytes(&[0x05, b'a'], 0),
        Err(SerializationError::Io)
    );
}

#[test]
fn versioned_codecs_carry_their_version() {
    let s = VersionedSerializer::new(7);
    assert_eq!(s.api_version, 7);
    let d = VersionedDeserializer::new(3);
    assert_eq!(d.api_version, 3);
}

#[test]
fn payload_passthrough_returns_bytes_unchanged() {
    let data = vec![1u8, 2, 3];
    let back = <Vec<u8> as DeserializeVersionedInto>::deserialize_versioned_into(data.clone(), 0)
        .unwrap();
    assert_eq!(back, data);
}
