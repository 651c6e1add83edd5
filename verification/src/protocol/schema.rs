//! The schema model and the versioned codec engine: given a message's
//! field specifications and a runtime version, the engine derives the
//! encode and decode procedures, gating each field by its version window
//! and framing the tagged-fields region where the schema asks for it.

use vstd::prelude::*;

use crate::protocol::deserializer::DeserializeVersioned;
use crate::protocol::deserializer::deserialize_compact_bytes;
use crate::protocol::error::SerializationError;
use crate::protocol::messages::TaggedFields;
use crate::protocol::serializer::SerializeVersioned;
use crate::protocol::serializer::serialize_compact_bytes;
use crate::protocol::wire::DecOut;
use crate::protocol::wire::be_dec;
use crate::protocol::wire::be_enc;
use crate::protocol::wire::bool_dec;
use crate::protocol::wire::bool_enc;
use crate::protocol::wire::compact_dec;
use crate::protocol::wire::compact_enc;
use crate::protocol::wire::tagged_dec;
use crate::protocol::wire::tagged_enc;
use crate::protocol::wire::tagged_wf;
use crate::protocol::wire::to_signed;
use crate::protocol::wire::to_unsigned;

verus! {

/// How one field's value is laid out on the wire.
#[derive(Debug, Copy, Clone, PartialEq, Eq, Structural)]
pub enum FieldCodec {
    Bool,
    Int8,
    Int16,
    Int32,
    UInt32,
    Int64,
    CompactString,
}

/// An inclusive version window in which a field is present on the wire.
#[derive(Debug, Copy, Clone, PartialEq, Eq, Structural)]
pub struct FieldWindow {
    pub min: i16,
    pub max: i16,
}

/// Per-field metadata of a schema: the field's default codec, an optional
/// codec overriding it (the runtime form of a custom encode/decode hook),
/// an optional visibility window, and an optional tag. A field with a tag
/// has no plain wire position: it travels in the tagged-fields region.
#[derive(Debug, Copy, Clone, PartialEq, Eq, Structural)]
pub struct FieldSpec {
    pub codec: FieldCodec,
    pub codec_override: Option<FieldCodec>,
    pub window: Option<FieldWindow>,
    pub tag: Option<u64>,
}

/// One field's in-memory value; `Absent` stands for an optional value not
/// present at the current version.
#[derive(Debug, Clone, PartialEq, Eq)]
pub enum FieldValue {
    Bool(bool),
    Int8(i8),
    Int16(i16),
    Int32(i32),
    UInt32(u32),
    Int64(i64),
    Str(Vec<u8>),
    Absent,
}

/// The mathematical value of a `FieldValue`.
pub enum FieldValueV {
    Bool(bool),
    Int8(i8),
    Int16(i16),
    Int32(i32),
    UInt32(u32),
    Int64(i64),
    Str(Seq<u8>),
    Absent,
}

impl View for FieldValue {
    type V = FieldValueV;

    open spec fn view(&self) -> FieldValueV {
        match self {
            FieldValue::Bool(b) => FieldValueV::Bool(*b),
            FieldValue::Int8(x) => FieldValueV::Int8(*x),
            FieldValue::Int16(x) => FieldValueV::Int16(*x),
            FieldValue::Int32(x) => FieldValueV::Int32(*x),
            FieldValue::UInt32(x) => FieldValueV::UInt32(*x),
            FieldValue::Int64(x) => FieldValueV::Int64(*x),
            FieldValue::Str(b) => FieldValueV::Str(b@),
            FieldValue::Absent => FieldValueV::Absent,
        }
    }
}

/// A message instance for a schema: one value per field in declaration
/// order, and the tagged-fields container where the version carries one.
#[derive(Debug, Clone, PartialEq, Eq)]
pub struct Message {
    pub values: Vec<FieldValue>,
    pub tagged: Option<TaggedFields>,
}

/// The mathematical value of a `Message`.
pub struct MessageV {
    pub values: Seq<FieldValueV>,
    pub tagged: Option<Seq<(u64, Seq<u8>)>>,
}

impl View for Message {
    type V = MessageV;

    open spec fn view(&self) -> MessageV {
        MessageV {
            values: self.values@.map_values(|v: FieldValue| v@),
            tagged: match &self.tagged {
                Option::Some(t) => Option::Some(t@),
                Option::None => Option::None,
            },
        }
    }
}

/// Message-level metadata the serializer derives its procedure from.
#[derive(Debug, Copy, Clone, PartialEq, Eq, Structural)]
pub struct VersionedSerializeOptions {
    pub max_version: i16,
    pub tag_version: Option<i16>,
}

/// Message-level metadata the deserializer derives its procedure from.
#[derive(Debug, Copy, Clone, PartialEq, Eq, Structural)]
pub struct VersionedDeserializeOptions {
    pub max_version: i16,
    pub tag_version: Option<i16>,
}

/// A message schema: its fields in declaration order, the highest version
/// it supports, and the version from which the tagged-fields region is
/// present, if ever.
#[derive(Debug, Clone, PartialEq, Eq)]
pub struct Schema {
    pub fields: Vec<FieldSpec>,
    pub max_version: i16,
    pub tag_version: Option<i16>,
}

impl Schema {
    /// The metadata the serializer needs.
    pub fn serialize_options(&self) -> (r: VersionedSerializeOptions)
        ensures
            r.max_version == self.max_version,
            r.tag_version == self.tag_version,
    {
        VersionedSerializeOptions { max_version: self.max_version, tag_version: self.tag_version }
    }

    /// The metadata the deserializer needs.
    pub fn deserialize_options(&self) -> (r: VersionedDeserializeOptions)
        ensures
            r.max_version == self.max_version,
            r.tag_version == self.tag_version,
    {
        VersionedDeserializeOptions { max_version: self.max_version, tag_version: self.tag_version }
    }
}

/// Whether a field's window admits version `v`; a field with no window is
/// present at every version.
pub open spec fn window_admits(f: FieldSpec, v: i16) -> bool {
    match f.window {
        Option::Some(w) => w.min <= v && v <= w.max,
        Option::None => true,
    }
}

/// The codec a field actually uses: its override hook where one is given.
pub open spec fn effective_codec(f: FieldSpec) -> FieldCodec {
    match f.codec_override {
        Option::Some(c) => c,
        Option::None => f.codec,
    }
}

/// A value has the shape its field's codec expects (or is absent).
pub open spec fn value_fits(c: FieldCodec, val: FieldValueV) -> bool {
    match val {
        FieldValueV::Absent => true,
        FieldValueV::Bool(_) => c == FieldCodec::Bool,
        FieldValueV::Int8(_) => c == FieldCodec::Int8,
        FieldValueV::Int16(_) => c == FieldCodec::Int16,
        FieldValueV::Int32(_) => c == FieldCodec::Int32,
        FieldValueV::UInt32(_) => c == FieldCodec::UInt32,
        FieldValueV::Int64(_) => c == FieldCodec::Int64,
        FieldValueV::Str(_) => c == FieldCodec::CompactString,
    }
}

/// A message instance belongs to a field list: one value per field, each
/// of its codec's shape.
pub open spec fn msg_fits(fields: Seq<FieldSpec>, m: MessageV) -> bool {
    &&& m.values.len() == fields.len()
    &&& forall|i: int|
        0 <= i < fields.len() ==> value_fits(
            effective_codec(#[trigger] fields[i]),
            #[trigger] m.values[i],
        )
}

/// Every string value is short enough for the machine to frame.
pub open spec fn str_lens_ok(m: MessageV) -> bool {
    forall|i: int|
        0 <= i < m.values.len() ==> ((#[trigger] m.values[i]) matches FieldValueV::Str(b) ==> b.len()
            < usize::MAX)
}

/// The wire form of one present field value.
pub open spec fn value_enc(val: FieldValueV) -> Seq<u8> {
    match val {
        FieldValueV::Bool(b) => bool_enc(b),
        FieldValueV::Int8(x) => be_enc(to_unsigned(x as int, 0x100), 1),
        FieldValueV::Int16(x) => be_enc(to_unsigned(x as int, 0x10000), 2),
        FieldValueV::Int32(x) => be_enc(to_unsigned(x as int, 0x100000000), 4),
        FieldValueV::UInt32(x) => be_enc(x as nat, 4),
        FieldValueV::Int64(x) => be_enc(to_unsigned(x as int, 0x10000000000000000), 8),
        FieldValueV::Str(b) => compact_enc(b),
        FieldValueV::Absent => seq![],
    }
}

/// Decoding one field value by its codec.
pub open spec fn value_dec(c: FieldCodec, s: Seq<u8>) -> DecOut<FieldValueV> {
    match c {
        FieldCodec::Bool => match bool_dec(s) {
            DecOut::Val(b, n) => DecOut::Val(FieldValueV::Bool(b), n),
            DecOut::Bad => DecOut::Bad,
            DecOut::Short => DecOut::Short,
        },
        FieldCodec::Int8 => match be_dec(s, 1) {
            DecOut::Val(u, n) => DecOut::Val(FieldValueV::Int8(to_signed(u, 0x100) as i8), n),
            DecOut::Bad => DecOut::Bad,
            DecOut::Short => DecOut::Short,
        },
        FieldCodec::Int16 => match be_dec(s, 2) {
            DecOut::Val(u, n) => DecOut::Val(FieldValueV::Int16(to_signed(u, 0x10000) as i16), n),
            DecOut::Bad => DecOut::Bad,
            DecOut::Short => DecOut::Short,
        },
        FieldCodec::Int32 => match be_dec(s, 4) {
            DecOut::Val(u, n) => DecOut::Val(
                FieldValueV::Int32(to_signed(u, 0x100000000) as i32),
                n,
            ),
            DecOut::Bad => DecOut::Bad,
            DecOut::Short => DecOut::Short,
        },
        FieldCodec::UInt32 => match be_dec(s, 4) {
            DecOut::Val(u, n) => DecOut::Val(FieldValueV::UInt32(u as u32), n),
            DecOut::Bad => DecOut::Bad,
            DecOut::Short => DecOut::Short,
        },
        FieldCodec::Int64 => match be_dec(s, 8) {
            DecOut::Val(u, n) => DecOut::Val(
                FieldValueV::Int64(to_signed(u, 0x10000000000000000) as i64),
                n,
            ),
            DecOut::Bad => DecOut::Bad,
            DecOut::Short => DecOut::Short,
        },
        FieldCodec::CompactString => match compact_dec(s) {
            DecOut::Val(b, n) => DecOut::Val(FieldValueV::Str(b), n),
            DecOut::Bad => DecOut::Bad,
            DecOut::Short => DecOut::Short,
        },
    }
}

/// The error a codec reports for a structurally rejected value.
pub open spec fn value_dec_bad_err(c: FieldCodec) -> SerializationError {
    match c {
        FieldCodec::Bool => SerializationError::UnknownValue,
        _ => SerializationError::Malformed,
    }
}

/// Whether a field is written at version `v` for this value: tagged fields
/// never are, gated-out fields never are, absent optional values never are.
pub open spec fn field_emitted(f: FieldSpec, val: FieldValueV, v: i16) -> bool {
    f.tag is None && window_admits(f, v) && !(val is Absent)
}

/// Whether a field is read at version `v`: tagged fields and gated-out
/// fields are skipped, their in-memory value left absent.
pub open spec fn field_read(f: FieldSpec, v: i16) -> bool {
    f.tag is None && window_admits(f, v)
}

/// The wire form of a field list at version `v`.
pub open spec fn fields_enc(fields: Seq<FieldSpec>, vals: Seq<FieldValueV>, v: i16) -> Seq<u8>
    decreases fields.len(),
{
    if fields.len() == 0 {
        seq![]
    } else {
        (if field_emitted(fields[0], vals[0], v) {
            value_enc(vals[0])
        } else {
            seq![]
        }) + fields_enc(fields.drop_first(), vals.drop_first(), v)
    }
}

/// Decoding a field list at version `v`.
pub open spec fn fields_dec(fields: Seq<FieldSpec>, s: Seq<u8>, v: i16) -> DecOut<Seq<FieldValueV>>
    decreases fields.len(),
{
    if fields.len() == 0 {
        DecOut::Val(seq![], 0)
    } else if !field_read(fields[0], v) {
        match fields_dec(fields.drop_first(), s, v) {
            DecOut::Val(vs, m) => DecOut::Val(seq![FieldValueV::Absent] + vs, m),
            DecOut::Bad => DecOut::Bad,
            DecOut::Short => DecOut::Short,
        }
    } else {
        match value_dec(effective_codec(fields[0]), s) {
            DecOut::Val(x, n) => match fields_dec(fields.drop_first(), s.skip(n), v) {
                DecOut::Val(vs, m) => DecOut::Val(seq![x] + vs, n + m),
                DecOut::Bad => DecOut::Bad,
                DecOut::Short => DecOut::Short,
            },
            DecOut::Bad => DecOut::Bad,
            DecOut::Short => DecOut::Short,
        }
    }
}

/// The error reported when decoding a field list is structurally rejected.
pub open spec fn fields_dec_err(fields: Seq<FieldSpec>, s: Seq<u8>, v: i16) -> SerializationError
    decreases fields.len(),
{
    if fields.len() == 0 {
        SerializationError::Malformed
    } else if !field_read(fields[0], v) {
        fields_dec_err(fields.drop_first(), s, v)
    } else {
        match value_dec(effective_codec(fields[0]), s) {
            DecOut::Val(x, n) => fields_dec_err(fields.drop_first(), s.skip(n), v),
            DecOut::Bad => value_dec_bad_err(effective_codec(fields[0])),
            DecOut::Short => SerializationError::Malformed,
        }
    }
}

/// Whether the tagged-fields region is present at version `v`.
pub open spec fn tagged_applicable(tag_version: Option<i16>, v: i16) -> bool {
    match tag_version {
        Option::Some(tv) => v >= tv,
        Option::None => false,
    }
}

/// Whether a message type's wire form carries the tagged-fields region
/// at a negotiated version, given the type's threshold. Request and
/// response sides are decided independently, each from its own schema.
pub fn use_tagged_fields_at(threshold: Option<i16>, version: i16) -> (r: bool)
    ensures
        r == tagged_applicable(threshold, version),
{
    match threshold {
        Option::Some(t) => version >= t,
        Option::None => false,
    }
}

/// The wire form of a whole message at version `v`: the gated fields in
/// declaration order, then the tagged-fields region whenever the schema
/// reserves the slot at `v` — even when no entries are present.
pub open spec fn msg_enc(
    fields: Seq<FieldSpec>,
    tag_version: Option<i16>,
    v: i16,
    m: MessageV,
) -> Seq<u8> {
    fields_enc(fields, m.values, v) + (if tagged_applicable(tag_version, v) {
        tagged_enc(
            match m.tagged {
                Option::Some(es) => es,
                Option::None => seq![],
            },
        )
    } else {
        seq![]
    })
}

/// Decoding a whole message at version `v`.
pub open spec fn msg_dec(
    fields: Seq<FieldSpec>,
    tag_version: Option<i16>,
    v: i16,
    s: Seq<u8>,
) -> DecOut<MessageV> {
    match fields_dec(fields, s, v) {
        DecOut::Val(vs, n) => if tagged_applicable(tag_version, v) {
            match tagged_dec(s.skip(n)) {
                DecOut::Val(es, m) => DecOut::Val(
                    MessageV { values: vs, tagged: Option::Some(es) },
                    n + m,
                ),
                DecOut::Bad => DecOut::Bad,
                DecOut::Short => DecOut::Short,
            }
        } else {
            DecOut::Val(MessageV { values: vs, tagged: Option::None }, n)
        },
        DecOut::Bad => DecOut::Bad,
        DecOut::Short => DecOut::Short,
    }
}

/// The error reported when decoding a whole message is rejected.
pub open spec fn msg_dec_err(
    fields: Seq<FieldSpec>,
    tag_version: Option<i16>,
    v: i16,
    s: Seq<u8>,
) -> SerializationError {
    match fields_dec(fields, s, v) {
        DecOut::Val(vs, n) => SerializationError::Malformed,
        _ => fields_dec_err(fields, s, v),
    }
}

/// Append the wire form of one present field value.
fn serialize_field_value(val: &FieldValue, out: &mut Vec<u8>, version: i16) -> (r: Result<
    (),
    SerializationError,
>)
    requires
        val@ matches FieldValueV::Str(b) ==> b.len() < usize::MAX,
    ensures
        r is Ok,
        final(out)@ == old(out)@ + value_enc(val@),
{
    match val {
        FieldValue::Bool(b) => b.serialize_versioned(out, version),
        FieldValue::Int8(x) => x.serialize_versioned(out, version),
        FieldValue::Int16(x) => x.serialize_versioned(out, version),
        FieldValue::Int32(x) => x.serialize_versioned(out, version),
        FieldValue::UInt32(x) => x.serialize_versioned(out, version),
        FieldValue::Int64(x) => x.serialize_versioned(out, version),
        FieldValue::Str(b) => serialize_compact_bytes(b.as_slice(), out),
        FieldValue::Absent => {
            proof {
                assert(old(out)@ + value_enc(val@) =~= old(out)@);
            }
            Ok(())
        },
    }
}

/// Appending one field to a list appends its (possibly empty) wire form.
pub proof fn lemma_fields_enc_snoc(
    fields: Seq<FieldSpec>,
    vals: Seq<FieldValueV>,
    f: FieldSpec,
    x: FieldValueV,
    v: i16,
)
    requires
        vals.len() == fields.len(),
    ensures
        fields_enc(fields.push(f), vals.push(x), v) == fields_enc(fields, vals, v) + (
        if field_emitted(f, x, v) {
            value_enc(x)
        } else {
            seq![]
        }),
    decreases fields.len(),
{
    let tailpiece: Seq<u8> = if field_emitted(f, x, v) {
        value_enc(x)
    } else {
        seq![]
    };
    if fields.len() == 0 {
        assert(fields.push(f)[0] == f);
        assert(vals.push(x)[0] == x);
        assert(fields.push(f).drop_first() =~= Seq::<FieldSpec>::empty());
        assert(vals.push(x).drop_first() =~= Seq::<FieldValueV>::empty());
        assert(fields_enc(fields, vals, v) == Seq::<u8>::empty());
        assert(fields_enc(fields.push(f).drop_first(), vals.push(x).drop_first(), v)
            == Seq::<u8>::empty());
        assert(fields_enc(fields.push(f), vals.push(x), v) == (if field_emitted(f, x, v) {
            value_enc(x)
        } else {
            seq![]
        }) + fields_enc(fields.push(f).drop_first(), vals.push(x).drop_first(), v));
        assert(fields_enc(fields.push(f), vals.push(x), v) =~= fields_enc(fields, vals, v)
            + tailpiece);
    } else {
        assert(fields.push(f)[0] == fields[0]);
        assert(vals.push(x)[0] == vals[0]);
        assert(fields.push(f).drop_first() =~= fields.drop_first().push(f));
        assert(vals.push(x).drop_first() =~= vals.drop_first().push(x));
        lemma_fields_enc_snoc(fields.drop_first(), vals.drop_first(), f, x, v);
        assert(fields_enc(fields.push(f), vals.push(x), v) =~= fields_enc(fields, vals, v)
            + tailpiece);
    }
}

/// Encode `msg` at `version` against a field list and message options,
/// appending the wire form to `out`. A version above the schema's maximum
/// is rejected before any byte is produced.
pub fn serialize_message(
    msg: &Message,
    fields: &Vec<FieldSpec>,
    opts: &VersionedSerializeOptions,
    version: i16,
    out: &mut Vec<u8>,
) -> (r: Result<(), SerializationError>)
    requires
        msg_fits(fields@, msg@),
        str_lens_ok(msg@),
        msg@.tagged matches Option::Some(es) ==> tagged_wf(es),
    ensures
        version > opts.max_version ==> r == Err::<(), SerializationError>(
            SerializationError::UnsupportedVersion {
                max_version: opts.max_version,
                given_version: version,
            },
        ) && final(out)@ == old(out)@,
        version <= opts.max_version ==> r is Ok && final(out)@ == old(out)@ + msg_enc(
            fields@,
            opts.tag_version,
            version,
            msg@,
        ),
{
    if version > opts.max_version {
        return Err(
            SerializationError::UnsupportedVersion {
                max_version: opts.max_version,
                given_version: version,
            },
        );
    }
    let mut j: usize = 0;
    while j < fields.len()
        invariant
            msg_fits(fields@, msg@),
            str_lens_ok(msg@),
            j <= fields@.len(),
            out@ == old(out)@ + fields_enc(
                fields@.take(j as int),
                msg@.values.take(j as int),
                version,
            ),
        decreases fields@.len() - j,
    {
        let f = &fields[j];
        let in_window: bool = match &f.window {
            Option::Some(w) => w.min <= version && version <= w.max,
            Option::None => true,
        };
        let present: bool = !matches!(msg.values[j], FieldValue::Absent);
        let emit: bool = f.tag.is_none() && in_window && present;
        proof {
            assert(emit == field_emitted(fields@[j as int], msg@.values[j as int], version));
        }
        if emit {
            match serialize_field_value(&msg.values[j], out, version) {
                Ok(()) => (),
                Err(e) => {
                    return Err(e);
                },
            }
        }
        proof {
            assert(fields@.take(j + 1) =~= fields@.take(j as int).push(fields@[j as int]));
            assert(msg@.values.take(j + 1) =~= msg@.values.take(j as int).push(
                msg@.values[j as int],
            ));
            lemma_fields_enc_snoc(
                fields@.take(j as int),
                msg@.values.take(j as int),
                fields@[j as int],
                msg@.values[j as int],
                version,
            );
            assert(out@ =~= old(out)@ + fields_enc(
                fields@.take(j + 1),
                msg@.values.take(j + 1),
                version,
            ));
        }
        j = j + 1;
    }
    proof {
        assert(fields@.take(fields@.len() as int) =~= fields@);
        assert(msg@.values.take(fields@.len() as int) =~= msg@.values);
    }
    if let Option::Some(tv) = opts.tag_version {
        if version >= tv {
            match &msg.tagged {
                Option::Some(t) => {
                    match t.serialize_versioned(out, version) {
                        Ok(()) => (),
                        Err(e) => {
                            return Err(e);
                        },
                    }
                },
                Option::None => {
                    let empty = TaggedFields::new();
                    match empty.serialize_versioned(out, version) {
                        Ok(()) => (),
                        Err(e) => {
                            return Err(e);
                        },
                    }
                    proof {
                        assert(empty@ =~= Seq::<(u64, Seq<u8>)>::empty());
                    }
                },
            }
        }
    }
    proof {
        assert(out@ =~= old(out)@ + msg_enc(fields@, opts.tag_version, version, msg@));
    }
    Ok(())
}

/// Decode one field value by its codec.
fn deserialize_field_value(data: &[u8], pos: usize, codec: FieldCodec, version: i16) -> (r: Result<
    (FieldValue, usize),
    SerializationError,
>)
    requires
        pos <= data@.len(),
    ensures
        r matches Ok(p) ==> pos <= p.1 <= data@.len(),
        ({
            match value_dec(codec, data@.skip(pos as int)) {
                DecOut::Val(x, n) => r matches Ok(p) && p.0@ == x && p.1 == pos + n,
                DecOut::Bad => r matches Err(e) && e == value_dec_bad_err(codec),
                DecOut::Short => r matches Err(e) && e == SerializationError::Io,
            }
        }),
{
    proof {
        crate::protocol::wire::lemma_pow256_values();
        crate::protocol::wire::lemma_be_val_bound(data@.skip(pos as int).take(1));
        crate::protocol::wire::lemma_be_val_bound(data@.skip(pos as int).take(2));
        crate::protocol::wire::lemma_be_val_bound(data@.skip(pos as int).take(4));
        crate::protocol::wire::lemma_be_val_bound(data@.skip(pos as int).take(8));
    }
    match codec {
        FieldCodec::Bool => match bool::deserialize_versioned(data, pos, version) {
            Ok(p) => Ok((FieldValue::Bool(p.0), p.1)),
            Err(e) => Err(e),
        },
        FieldCodec::Int8 => match i8::deserialize_versioned(data, pos, version) {
            Ok(p) => Ok((FieldValue::Int8(p.0), p.1)),
            Err(e) => Err(e),
        },
        FieldCodec::Int16 => match i16::deserialize_versioned(data, pos, version) {
            Ok(p) => Ok((FieldValue::Int16(p.0), p.1)),
            Err(e) => Err(e),
        },
        FieldCodec::Int32 => match i32::deserialize_versioned(data, pos, version) {
            Ok(p) => Ok((FieldValue::Int32(p.0), p.1)),
            Err(e) => Err(e),
        },
        FieldCodec::UInt32 => match u32::deserialize_versioned(data, pos, version) {
            Ok(p) => Ok((FieldValue::UInt32(p.0), p.1)),
            Err(e) => Err(e),
        },
        FieldCodec::Int64 => match i64::deserialize_versioned(data, pos, version) {
            Ok(p) => Ok((FieldValue::Int64(p.0), p.1)),
            Err(e) => Err(e),
        },
        FieldCodec::CompactString => match deserialize_compact_bytes(data, pos) {
            Ok(p) => Ok((FieldValue::Str(p.0), p.1)),
            Err(e) => Err(e),
        },
    }
}

/// Decode a message at `version` against a field list and message
/// options. A version above the schema's maximum is rejected before any
/// byte is consumed; a field that the version gates out is left absent.
pub fn deserialize_message(
    data: &[u8],
    pos: usize,
    fields: &Vec<FieldSpec>,
    opts: &VersionedDeserializeOptions,
    version: i16,
) -> (r: Result<(Message, usize), SerializationError>)
    requires
        pos <= data@.len(),
    ensures
        version > opts.max_version ==> r == Err::<(Message, usize), SerializationError>(
            SerializationError::UnsupportedVersion {
                max_version: opts.max_version,
                given_version: version,
            },
        ),
        version <= opts.max_version ==> ({
            match msg_dec(fields@, opts.tag_version, version, data@.skip(pos as int)) {
                DecOut::Val(m, n) => r matches Ok(p) && p.0@ == m && p.1 == pos + n && (
                p.0.tagged matches Option::Some(t) ==> t.wf()),
                DecOut::Bad => r matches Err(e) && e == msg_dec_err(
                    fields@,
                    opts.tag_version,
                    version,
                    data@.skip(pos as int),
                ),
                DecOut::Short => r matches Err(e) && e == SerializationError::Io,
            }
        }),
{
    if version > opts.max_version {
        return Err(
            SerializationError::UnsupportedVersion {
                max_version: opts.max_version,
                given_version: version,
            },
        );
    }
    let ghost s0 = data@.skip(pos as int);
    let mut values: Vec<FieldValue> = Vec::new();
    proof {
        assert(fields@.skip(0) =~= fields@);
        assert(values@.map_values(|v: FieldValue| v@) =~= Seq::<FieldValueV>::empty());
        match fields_dec(fields@, data@.skip(pos as int), version) {
            DecOut::Val(vs, m) => {
                assert(values@.map_values(|v: FieldValue| v@) + vs =~= vs);
            },
            _ => {},
        }
    }
    let mut i: usize = pos;
    let mut j: usize = 0;
    while j < fields.len()
        invariant
            pos <= i <= data@.len(),
            j <= fields@.len(),
            values@.len() == j,
            version <= opts.max_version,
            s0 == data@.skip(pos as int),
            ({
                match fields_dec(fields@.skip(j as int), data@.skip(i as int), version) {
                    DecOut::Val(vs, m) => fields_dec(fields@, s0, version) == DecOut::Val(
                        values@.map_values(|v: FieldValue| v@) + vs,
                        (i - pos) + m,
                    ),
                    DecOut::Bad => fields_dec(fields@, s0, version) is Bad && fields_dec_err(
                        fields@,
                        s0,
                        version,
                    ) == fields_dec_err(
                        fields@.skip(j as int),
                        data@.skip(i as int),
                        version,
                    ),
                    DecOut::Short => fields_dec(fields@, s0, version) is Short,
                }
            }),
        decreases fields@.len() - j,
    {
        let f = &fields[j];
        let in_window: bool = match &f.window {
            Option::Some(w) => w.min <= version && version <= w.max,
            Option::None => true,
        };
        let is_read: bool = f.tag.is_none() && in_window;
        let ghost vmap = values@.map_values(|v: FieldValue| v@);
        proof {
            assert(is_read == field_read(fields@[j as int], version));
            assert(fields@.skip(j as int)[0] == fields@[j as int]);
            assert(fields@.skip(j as int).drop_first() =~= fields@.skip(j + 1));
        }
        if !is_read {
            values.push(FieldValue::Absent);
            proof {
                assert(values@.map_values(|v: FieldValue| v@) =~= vmap.push(FieldValueV::Absent));
                match fields_dec(fields@.skip(j + 1), data@.skip(i as int), version) {
                    DecOut::Val(vs2, m2) => {
                        assert(vmap + (seq![FieldValueV::Absent] + vs2) =~= vmap.push(
                            FieldValueV::Absent,
                        ) + vs2);
                    },
                    _ => {},
                }
            }
        } else {
            let c: FieldCodec = match f.codec_override {
                Option::Some(c) => c,
                Option::None => f.codec,
            };
            proof {
                assert(c == effective_codec(fields@[j as int]));
            }
            let p = match deserialize_field_value(data, i, c, version) {
                Ok(p) => p,
                Err(e) => {
                    return Err(e);
                },
            };
            let ghost x = p.0@;
            let ghost n = (p.1 - i) as int;
            proof {
                assert(data@.skip(i as int).skip(n) =~= data@.skip(p.1 as int));
            }
            values.push(p.0);
            proof {
                assert(values@.map_values(|v: FieldValue| v@) =~= vmap.push(x));
                match fields_dec(fields@.skip(j + 1), data@.skip(p.1 as int), version) {
                    DecOut::Val(vs2, m2) => {
                        assert(vmap + (seq![x] + vs2) =~= vmap.push(x) + vs2);
                    },
                    _ => {},
                }
            }
            i = p.1;
        }
        j = j + 1;
    }
    proof {
        assert(fields@.skip(fields@.len() as int) =~= Seq::<FieldSpec>::empty());
        assert(fields_dec(Seq::<FieldSpec>::empty(), data@.skip(i as int), version)
            == DecOut::Val(Seq::<FieldValueV>::empty(), 0));
        assert(values@.map_values(|v: FieldValue| v@) + Seq::<FieldValueV>::empty()
            =~= values@.map_values(|v: FieldValue| v@));
    }
    proof {
        assert(s0.skip((i - pos) as int) =~= data@.skip(i as int));
    }
    if let Option::Some(tv) = opts.tag_version {
        if version >= tv {
            let tp = match TaggedFields::deserialize_versioned(data, i, version) {
                Ok(p) => p,
                Err(e) => {
                    return Err(e);
                },
            };
            return Ok((Message { values, tagged: Option::Some(tp.0) }, tp.1));
        }
    }
    Ok((Message { values, tagged: Option::None }, i))
}

impl crate::protocol::serializer::VersionedSerializer {
    /// Encode `msg` against a schema at this serializer's version.
    pub fn serialize_message(&self, msg: &Message, schema: &Schema, out: &mut Vec<u8>) -> (r:
        Result<(), SerializationError>)
        requires
            msg_fits(schema.fields@, msg@),
            str_lens_ok(msg@),
            msg@.tagged matches Option::Some(es) ==> tagged_wf(es),
        ensures
            self.api_version > schema.max_version ==> r == Err::<(), SerializationError>(
                SerializationError::UnsupportedVersion {
                    max_version: schema.max_version,
                    given_version: self.api_version,
                },
            ) && final(out)@ == old(out)@,
            self.api_version <= schema.max_version ==> r is Ok && final(out)@ == old(out)@
                + msg_enc(schema.fields@, schema.tag_version, self.api_version, msg@),
    {
        let opts = schema.serialize_options();
        serialize_message(msg, &schema.fields, &opts, self.api_version, out)
    }
}

impl crate::protocol::deserializer::VersionedDeserializer {
    /// Decode a message against a schema at this deserializer's version.
    pub fn deserialize_message(&self, data: &[u8], pos: usize, schema: &Schema) -> (r: Result<
        (Message, usize),
        SerializationError,
    >)
        requires
            pos <= data@.len(),
        ensures
            self.api_version > schema.max_version ==> r == Err::<
                (Message, usize),
                SerializationError,
            >(
                SerializationError::UnsupportedVersion {
                    max_version: schema.max_version,
                    given_version: self.api_version,
                },
            ),
            self.api_version <= schema.max_version ==> ({
                match msg_dec(
                    schema.fields@,
                    schema.tag_version,
                    self.api_version,
                    data@.skip(pos as int),
                ) {
                    DecOut::Val(m, n) => r matches Ok(p) && p.0@ == m && p.1 == pos + n,
                    DecOut::Bad => r matches Err(e) && e == msg_dec_err(
                        schema.fields@,
                        schema.tag_version,
                        self.api_version,
                        data@.skip(pos as int),
                    ),
                    DecOut::Short => r matches Err(e) && e == SerializationError::Io,
                }
            }),
    {
        let opts = schema.deserialize_options();
        deserialize_message(data, pos, &schema.fields, &opts, self.api_version)
    }
}

/// Round trip for one field value.
pub proof fn lemma_value_round_trip(c: FieldCodec, val: FieldValueV, rest: Seq<u8>)
    requires
        value_fits(c, val),
        !(val is Absent),
        val matches FieldValueV::Str(b) ==> b.len() + 1 < 0x10000000000000000,
    ensures
        value_dec(c, value_enc(val) + rest) == DecOut::Val(val, value_enc(val).len() as int),
{
    crate::protocol::wire::lemma_pow256_values();
    let s = value_enc(val) + rest;
    match val {
        FieldValueV::Bool(b) => {
            assert(s[0] == (if b {
                1u8
            } else {
                0u8
            }));
        },
        FieldValueV::Int8(x) => {
            let u = to_unsigned(x as int, 0x100);
            crate::protocol::wire::lemma_be_round_trip(u, 1);
            assert(s.take(1) =~= be_enc(u, 1));
        },
        FieldValueV::Int16(x) => {
            let u = to_unsigned(x as int, 0x10000);
            crate::protocol::wire::lemma_be_round_trip(u, 2);
            assert(s.take(2) =~= be_enc(u, 2));
        },
        FieldValueV::Int32(x) => {
            let u = to_unsigned(x as int, 0x100000000);
            crate::protocol::wire::lemma_be_round_trip(u, 4);
            assert(s.take(4) =~= be_enc(u, 4));
        },
        FieldValueV::UInt32(x) => {
            crate::protocol::wire::lemma_be_round_trip(x as nat, 4);
            assert(s.take(4) =~= be_enc(x as nat, 4));
        },
        FieldValueV::Int64(x) => {
            let u = to_unsigned(x as int, 0x10000000000000000);
            crate::protocol::wire::lemma_be_round_trip(u, 8);
            assert(s.take(8) =~= be_enc(u, 8));
        },
        FieldValueV::Str(b) => {
            crate::protocol::wire::lemma_compact_round_trip(b, rest);
        },
        FieldValueV::Absent => {},
    }
}

/// Round trip for a field list: decoding what was encoded at `v` yields
/// the same values, provided each value is present exactly where the
/// version window admits it.
pub proof fn lemma_fields_round_trip(
    fields: Seq<FieldSpec>,
    vals: Seq<FieldValueV>,
    v: i16,
    rest: Seq<u8>,
)
    requires
        vals.len() == fields.len(),
        forall|i: int|
            0 <= i < fields.len() ==> value_fits(
                effective_codec(#[trigger] fields[i]),
                #[trigger] vals[i],
            ),
        forall|i: int|
            0 <= i < fields.len() ==> (((#[trigger] vals[i]) is Absent) <==> !field_read(
                #[trigger] fields[i],
                v,
            )),
        forall|i: int|
            0 <= i < fields.len() ==> ((#[trigger] vals[i]) matches FieldValueV::Str(b) ==> b.len()
                + 1 < 0x10000000000000000),
    ensures
        fields_dec(fields, fields_enc(fields, vals, v) + rest, v) == DecOut::Val(
            vals,
            fields_enc(fields, vals, v).len() as int,
        ),
    decreases fields.len(),
{
    if fields.len() == 0 {
        assert(vals =~= Seq::<FieldValueV>::empty());
    } else {
        let f0 = fields[0];
        let x0 = vals[0];
        let ftail = fields.drop_first();
        let vtail = vals.drop_first();
        assert(forall|i: int| 0 <= i < ftail.len() ==> ftail[i] == fields[i + 1]);
        assert(forall|i: int| 0 <= i < vtail.len() ==> vtail[i] == vals[i + 1]);
        assert forall|i: int|
            0 <= i < ftail.len() implies value_fits(
            effective_codec(#[trigger] ftail[i]),
            #[trigger] vtail[i],
        ) by {
            assert(value_fits(effective_codec(fields[i + 1]), vals[i + 1]));
        }
        assert forall|i: int|
            0 <= i < ftail.len() implies (((#[trigger] vtail[i]) is Absent) <==> !field_read(
            #[trigger] ftail[i],
            v,
        )) by {
            assert((vals[i + 1] is Absent) <==> !field_read(fields[i + 1], v));
        }
        assert forall|i: int|
            0 <= i < ftail.len() implies ((#[trigger] vtail[i]) matches FieldValueV::Str(b)
            ==> b.len() + 1 < 0x10000000000000000) by {
            assert(vals[i + 1] matches FieldValueV::Str(b) ==> b.len() + 1
                < 0x10000000000000000);
        }
        let tailenc = fields_enc(ftail, vtail, v);
        let s = fields_enc(fields, vals, v) + rest;
        if !field_read(f0, v) {
            assert(x0 is Absent);
            assert(!field_emitted(f0, x0, v));
            assert(s =~= tailenc + rest);
            lemma_fields_round_trip(ftail, vtail, v, rest);
            assert(seq![x0] + vtail =~= vals);
        } else {
            assert(!(x0 is Absent));
            assert(field_emitted(f0, x0, v));
            let head = value_enc(x0);
            assert(s =~= head + (tailenc + rest));
            lemma_value_round_trip(effective_codec(f0), x0, tailenc + rest);
            let n0 = head.len() as int;
            assert(value_dec(effective_codec(f0), s) == DecOut::Val(x0, n0));
            assert(s.skip(n0) =~= tailenc + rest);
            lemma_fields_round_trip(ftail, vtail, v, rest);
            assert(seq![x0] + vtail =~= vals);
            assert(fields_dec(fields, s, v) == DecOut::Val(vals, n0 + tailenc.len()));
        }
    }
}

/// Round trip for the versioned codec engine: for every message whose
/// optional values are present exactly where the version's visibility
/// window admits them, and whose tagged-fields container is present
/// exactly where the schema reserves the slot, decoding the encoding at
/// the same version yields the message back.
pub proof fn lemma_message_round_trip(
    fields: Seq<FieldSpec>,
    tag_version: Option<i16>,
    v: i16,
    m: MessageV,
    rest: Seq<u8>,
)
    requires
        msg_fits(fields, m),
        forall|i: int|
            0 <= i < fields.len() ==> (((#[trigger] m.values[i]) is Absent) <==> !field_read(
                #[trigger] fields[i],
                v,
            )),
        forall|i: int|
            0 <= i < fields.len() ==> ((#[trigger] m.values[i]) matches FieldValueV::Str(b)
                ==> b.len() + 1 < 0x10000000000000000),
        (m.tagged is Some) <==> tagged_applicable(tag_version, v),
        m.tagged matches Option::Some(es) ==> tagged_wf(es),
    ensures
        msg_dec(fields, tag_version, v, msg_enc(fields, tag_version, v, m) + rest) == DecOut::Val(
            m,
            msg_enc(fields, tag_version, v, m).len() as int,
        ),
{
    let fenc = fields_enc(fields, m.values, v);
    let s = msg_enc(fields, tag_version, v, m) + rest;
    if tagged_applicable(tag_version, v) {
        let es = m.tagged->Some_0;
        let tenc = tagged_enc(es);
        assert(s =~= fenc + (tenc + rest));
        lemma_fields_round_trip(fields, m.values, v, tenc + rest);
        assert(fields_dec(fields, s, v) == DecOut::Val(m.values, fenc.len() as int));
        assert(s.skip(fenc.len() as int) =~= tenc + rest);
        crate::protocol::wire::lemma_tagged_round_trip(es, rest);
        assert(msg_dec(fields, tag_version, v, s) == DecOut::Val(
            MessageV { values: m.values, tagged: Option::Some(es) },
            fenc.len() + tenc.len() as int,
        ));
        assert(MessageV { values: m.values, tagged: Option::Some(es) } == m);
    } else {
        assert(s =~= fenc + rest);
        lemma_fields_round_trip(fields, m.values, v, rest);
        assert(msg_dec(fields, tag_version, v, s) == DecOut::Val(
            MessageV { values: m.values, tagged: Option::None },
            fenc.len() as int,
        ));
        assert(MessageV { values: m.values, tagged: Option::None } == m);
    }
}

} // verus!
