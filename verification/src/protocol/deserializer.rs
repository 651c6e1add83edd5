//! Decoders for the primitive wire types, each specified against the wire
//! model in `wire`.

use vstd::prelude::*;

use crate::protocol::error::SerializationError;
use crate::protocol::wire::DecOut;
use crate::protocol::wire::be_dec;
use crate::protocol::wire::be_val;
use crate::protocol::wire::bool_dec;
use crate::protocol::wire::compact_dec;
use crate::protocol::wire::lemma_be_val_bound;
use crate::protocol::wire::lemma_pow256_mono;
use crate::protocol::wire::lemma_pow256_values;
use crate::protocol::wire::to_signed;
use crate::protocol::wire::varint_dec;
use crate::protocol::wire::varint_mult;

verus! {

/// A value that can decode itself from a byte buffer at a given protocol
/// version, reporting the position after the value on success.
pub trait DeserializeVersioned where Self: Sized {
    /// Decode one value of this type from `data` starting at `pos`.
    fn deserialize_versioned(data: &[u8], pos: usize, version: i16) -> (r: Result<
        (Self, usize),
        SerializationError,
    >)
        requires
            pos <= data@.len(),
        ensures
            r matches Ok(p) ==> pos <= p.1 <= data@.len(),
    ;
}

/// A value that consumes a whole buffer to decode itself, used where a
/// frame's remaining bytes are handed through as one value.
pub trait DeserializeVersionedInto where Self: Sized {
    /// Decode one value of this type from the whole of `data`.
    fn deserialize_versioned_into(data: Vec<u8>, version: i16) -> (r: Result<
        Self,
        SerializationError,
    >);
}

impl DeserializeVersionedInto for Vec<u8> {
    /// The remaining bytes of a frame are themselves the value: a response
    /// body is decoded later, at its own negotiated version.
    fn deserialize_versioned_into(data: Vec<u8>, version: i16) -> (r: Result<
        Self,
        SerializationError,
    >)
        ensures
            r matches Ok(v) && v@ == data@,
    {
        Ok(data)
    }
}

/// Carries the version negotiated for one exchange and decodes messages at
/// that version.
pub struct VersionedDeserializer {
    pub api_version: i16,
}

impl VersionedDeserializer {
    /// A decoder fixed to `api_version`.
    pub fn new(api_version: i16) -> (r: Self)
        ensures
            r.api_version == api_version,
    {
        VersionedDeserializer { api_version }
    }
}

/// Decode an unsigned varint from `data` starting at `pos`. A sequence
/// that would exceed 64 significant bits is `Malformed`; one that ends
/// while its last byte still asks for more is an `Io` failure.
pub fn deserialize_unsigned_var_int(data: &[u8], pos: usize) -> (r: Result<
    (u64, usize),
    SerializationError,
>)
    requires
        pos <= data@.len(),
    ensures
        r matches Ok(p) ==> pos < p.1 <= data@.len(),
        ({
            match varint_dec(data@.skip(pos as int), 1) {
                DecOut::Val(v, n) => r matches Ok(p) && p.0 as nat == v && p.1 == pos + n,
                DecOut::Bad => r == Err::<(u64, usize), SerializationError>(
                    SerializationError::Malformed,
                ),
                DecOut::Short => r == Err::<(u64, usize), SerializationError>(
                    SerializationError::Io,
                ),
            }
        }),
{
    let mut res: u64 = 0;
    let mut mult: u64 = 1;
    let mut i: usize = pos;
    loop
        invariant
            pos <= i <= data@.len(),
            varint_mult(mult as nat),
            res < mult,
            ({
                match varint_dec(data@.skip(i as int), mult as nat) {
                    DecOut::Val(v, n) => varint_dec(data@.skip(pos as int), 1) == DecOut::Val(
                        res as nat + v,
                        (i - pos) + n,
                    ),
                    DecOut::Bad => varint_dec(data@.skip(pos as int), 1) is Bad,
                    DecOut::Short => varint_dec(data@.skip(pos as int), 1) is Short,
                }
            }),
        decreases data@.len() - i,
    {
        if i >= data.len() {
            proof {
                assert(data@.skip(i as int).len() == 0);
            }
            return Err(SerializationError::Io);
        }
        let c: u8 = data[i];
        proof {
            assert(data@.skip(i as int)[0] == c);
            assert(data@.skip(i as int).drop_first() =~= data@.skip(i as int + 1));
        }
        i = i + 1;
        if c < 128 {
            if mult == 0x8000000000000000 && c > 1 {
                return Err(SerializationError::Malformed);
            }
            proof {
                if mult != 0x8000000000000000 {
                    assert(c as nat * mult as nat <= 127 * 0x100000000000000)
                        by (nonlinear_arith)
                        requires
                            c < 128,
                            varint_mult(mult as nat),
                            mult != 0x8000000000000000,
                    {}
                }
            }
            let add: u64 = (c as u64) * mult;
            return Ok((res + add, i));
        }
        if mult == 0x8000000000000000 {
            return Err(SerializationError::Malformed);
        }
        let payload: u64 = (c as u64) - 128;
        proof {
            assert(payload as nat * mult as nat <= 127 * 0x100000000000000) by (nonlinear_arith)
                requires
                    payload < 128,
                    varint_mult(mult as nat),
                    mult != 0x8000000000000000,
            {}
            assert(res as nat + (payload as nat) * (mult as nat) < 128 * (mult as nat))
                by (nonlinear_arith)
                requires
                    res < mult,
                    payload < 128,
                    mult >= 1,
            {}
        }
        res = res + payload * mult;
        mult = mult * 128;
    }
}

/// Decode `width` big-endian bytes from `data` starting at `pos`.
pub fn deserialize_be(data: &[u8], pos: usize, width: usize) -> (r: Result<
    (u64, usize),
    SerializationError,
>)
    requires
        pos <= data@.len(),
        width <= 8,
    ensures
        r matches Ok(p) ==> pos <= p.1 <= data@.len(),
        ({
            match be_dec(data@.skip(pos as int), width as nat) {
                DecOut::Val(u, n) => r matches Ok(p) && p.0 as nat == u && p.1 == pos + n,
                DecOut::Short => r == Err::<(u64, usize), SerializationError>(
                    SerializationError::Io,
                ),
                DecOut::Bad => false,
            }
        }),
{
    let ghost s = data@.skip(pos as int);
    if data.len() - pos < width {
        return Err(SerializationError::Io);
    }
    let end: usize = pos + width;
    let mut acc: u64 = 0;
    let mut j: usize = 0;
    while j < width
        invariant
            j <= width,
            width <= 8,
            end == pos + width,
            pos + width <= data@.len(),
            s == data@.skip(pos as int),
            acc as nat == be_val(s.take(j as int)),
        decreases width - j,
    {
        proof {
            lemma_be_val_bound(s.take(j as int));
            lemma_pow256_mono(j as nat, 7);
            lemma_pow256_values();
        }
        let b: u8 = data[pos + j];
        proof {
            assert(s.take(j + 1).drop_last() =~= s.take(j as int));
            assert(s.take(j + 1).last() == b);
        }
        acc = acc * 256 + (b as u64);
        j = j + 1;
    }
    proof {
        assert(s.take(width as int) == s.take(j as int));
    }
    Ok((acc, pos + width))
}

impl DeserializeVersioned for bool {
    /// One byte: 0 is false and 1 is true; any other byte has no valid
    /// mapping.
    fn deserialize_versioned(data: &[u8], pos: usize, version: i16) -> (r: Result<
        (Self, usize),
        SerializationError,
    >)
        ensures
            ({
                match bool_dec(data@.skip(pos as int)) {
                    DecOut::Val(b, n) => r matches Ok(p) && p.0 == b && p.1 == pos + n,
                    DecOut::Bad => r == Err::<(bool, usize), SerializationError>(
                        SerializationError::UnknownValue,
                    ),
                    DecOut::Short => r == Err::<(bool, usize), SerializationError>(
                        SerializationError::Io,
                    ),
                }
            }),
    {
        if pos >= data.len() {
            proof {
                assert(data@.skip(pos as int).len() == 0);
            }
            return Err(SerializationError::Io);
        }
        let c: u8 = data[pos];
        proof {
            assert(data@.skip(pos as int)[0] == c);
        }
        if c == 0 {
            Ok((false, pos + 1))
        } else if c == 1 {
            Ok((true, pos + 1))
        } else {
            Err(SerializationError::UnknownValue)
        }
    }
}

impl DeserializeVersioned for i8 {
    fn deserialize_versioned(data: &[u8], pos: usize, version: i16) -> (r: Result<
        (Self, usize),
        SerializationError,
    >)
        ensures
            ({
                match be_dec(data@.skip(pos as int), 1) {
                    DecOut::Val(u, n) => r matches Ok(p) && p.0 as int == to_signed(u, 0x100)
                        && p.1 == pos + n,
                    DecOut::Bad => false,
                    DecOut::Short => r == Err::<(i8, usize), SerializationError>(
                        SerializationError::Io,
                    ),
                }
            }),
    {
        let p = match deserialize_be(data, pos, 1) {
            Ok(p) => p,
            Err(e) => { return Err(e) },
        };
        proof {
            lemma_be_val_bound(data@.skip(pos as int).take(1));
            lemma_pow256_values();
        }
        let u: u8 = p.0 as u8;
        let x: i8 = if u >= 0x80 {
            ((u as i16) - 0x100) as i8
        } else {
            u as i8
        };
        Ok((x, p.1))
    }
}

impl DeserializeVersioned for i16 {
    fn deserialize_versioned(data: &[u8], pos: usize, version: i16) -> (r: Result<
        (Self, usize),
        SerializationError,
    >)
        ensures
            ({
                match be_dec(data@.skip(pos as int), 2) {
                    DecOut::Val(u, n) => r matches Ok(p) && p.0 as int == to_signed(u, 0x10000)
                        && p.1 == pos + n,
                    DecOut::Bad => false,
                    DecOut::Short => r == Err::<(i16, usize), SerializationError>(
                        SerializationError::Io,
                    ),
                }
            }),
    {
        let p = match deserialize_be(data, pos, 2) {
            Ok(p) => p,
            Err(e) => { return Err(e) },
        };
        proof {
            lemma_be_val_bound(data@.skip(pos as int).take(2));
            lemma_pow256_values();
        }
        let u: u16 = p.0 as u16;
        let x: i16 = if u >= 0x8000 {
            ((u as i32) - 0x10000) as i16
        } else {
            u as i16
        };
        Ok((x, p.1))
    }
}

impl DeserializeVersioned for i32 {
    fn deserialize_versioned(data: &[u8], pos: usize, version: i16) -> (r: Result<
        (Self, usize),
        SerializationError,
    >)
        ensures
            ({
                match be_dec(data@.skip(pos as int), 4) {
                    DecOut::Val(u, n) => r matches Ok(p) && p.0 as int == to_signed(
                        u,
                        0x100000000,
                    ) && p.1 == pos + n,
                    DecOut::Bad => false,
                    DecOut::Short => r == Err::<(i32, usize), SerializationError>(
                        SerializationError::Io,
                    ),
                }
            }),
    {
        let p = match deserialize_be(data, pos, 4) {
            Ok(p) => p,
            Err(e) => { return Err(e) },
        };
        proof {
            lemma_be_val_bound(data@.skip(pos as int).take(4));
            lemma_pow256_values();
        }
        let u: u32 = p.0 as u32;
        let x: i32 = if u >= 0x80000000 {
            ((u as i64) - 0x100000000) as i32
        } else {
            u as i32
        };
        Ok((x, p.1))
    }
}

impl DeserializeVersioned for u32 {
    fn deserialize_versioned(data: &[u8], pos: usize, version: i16) -> (r: Result<
        (Self, usize),
        SerializationError,
    >)
        ensures
            ({
                match be_dec(data@.skip(pos as int), 4) {
                    DecOut::Val(u, n) => r matches Ok(p) && p.0 as nat == u && p.1 == pos + n,
                    DecOut::Bad => false,
                    DecOut::Short => r == Err::<(u32, usize), SerializationError>(
                        SerializationError::Io,
                    ),
                }
            }),
    {
        let p = match deserialize_be(data, pos, 4) {
            Ok(p) => p,
            Err(e) => { return Err(e) },
        };
        proof {
            lemma_be_val_bound(data@.skip(pos as int).take(4));
            lemma_pow256_values();
        }
        Ok((p.0 as u32, p.1))
    }
}

impl DeserializeVersioned for i64 {
    fn deserialize_versioned(data: &[u8], pos: usize, version: i16) -> (r: Result<
        (Self, usize),
        SerializationError,
    >)
        ensures
            ({
                match be_dec(data@.skip(pos as int), 8) {
                    DecOut::Val(u, n) => r matches Ok(p) && p.0 as int == to_signed(
                        u,
                        0x10000000000000000,
                    ) && p.1 == pos + n,
                    DecOut::Bad => false,
                    DecOut::Short => r == Err::<(i64, usize), SerializationError>(
                        SerializationError::Io,
                    ),
                }
            }),
    {
        let p = match deserialize_be(data, pos, 8) {
            Ok(p) => p,
            Err(e) => { return Err(e) },
        };
        let u: u64 = p.0;
        let x: i64 = if u >= 0x8000000000000000 {
            ((u as i128) - 0x10000000000000000) as i64
        } else {
            u as i64
        };
        Ok((x, p.1))
    }
}

/// Copy `len` bytes out of `data` starting at `pos`.
pub fn read_bytes(data: &[u8], pos: usize, len: usize) -> (r: Vec<u8>)
    requires
        pos + len <= data@.len(),
    ensures
        r@ == data@.subrange(pos as int, pos + len),
{
    let dlen: usize = data.len();
    let mut b: Vec<u8> = Vec::new();
    let mut j: usize = 0;
    while j < len
        invariant
            j <= len,
            pos + len <= data@.len(),
            data@.len() == dlen,
            b@ == data@.subrange(pos as int, pos + j as int),
        decreases len - j,
    {
        b.push(data[pos + j]);
        proof {
            assert(data@.subrange(pos as int, pos + j + 1) =~= data@.subrange(
                pos as int,
                pos + j as int,
            ).push(data@[pos + j]));
        }
        j = j + 1;
    }
    b
}

/// Decode a compact byte string from `data` starting at `pos`: a varint
/// length marker (the length plus one, zero meaning absent, which is not
/// admitted here), then the bytes themselves.
pub fn deserialize_compact_bytes(data: &[u8], pos: usize) -> (r: Result<
    (Vec<u8>, usize),
    SerializationError,
>)
    requires
        pos <= data@.len(),
    ensures
        r matches Ok(p) ==> pos <= p.1 <= data@.len(),
        ({
            match compact_dec(data@.skip(pos as int)) {
                DecOut::Val(b, n) => r matches Ok(p) && p.0@ == b && p.1 == pos + n,
                DecOut::Bad => r matches Err(e) && e == SerializationError::Malformed,
                DecOut::Short => r matches Err(e) && e == SerializationError::Io,
            }
        }),
{
    let ghost s = data@.skip(pos as int);
    let lp = match deserialize_unsigned_var_int(data, pos) {
        Ok(p) => p,
        Err(e) => { return Err(e) },
    };
    if lp.0 == 0 {
        return Err(SerializationError::Malformed);
    }
    let len64: u64 = lp.0 - 1;
    let avail: usize = data.len() - lp.1;
    if len64 > (avail as u64) {
        return Err(SerializationError::Io);
    }
    let len: usize = len64 as usize;
    let dlen: usize = data.len();
    let mut b: Vec<u8> = Vec::new();
    let mut j: usize = 0;
    while j < len
        invariant
            j <= len,
            lp.1 + len <= data@.len(),
            data@.len() == dlen,
            b@ == data@.subrange(lp.1 as int, lp.1 + j as int),
        decreases len - j,
    {
        b.push(data[lp.1 + j]);
        proof {
            assert(data@.subrange(lp.1 as int, lp.1 + j + 1) =~= data@.subrange(
                lp.1 as int,
                lp.1 + j as int,
            ).push(data@[lp.1 + j]));
        }
        j = j + 1;
    }
    proof {
        let n = (lp.1 - pos) as int;
        assert(s.subrange(n, n + len as int) =~= data@.subrange(lp.1 as int, lp.1 + len as int));
    }
    Ok((b, lp.1 + len))
}

} // verus!
