//! Encoders for the primitive wire types: fixed-width big-endian integers,
//! booleans, unsigned varints and compact strings.

use vstd::prelude::*;

use crate::protocol::error::SerializationError;
use crate::protocol::wire::be_enc;
use crate::protocol::wire::bool_enc;
use crate::protocol::wire::compact_enc;
use crate::protocol::wire::to_unsigned;
use crate::protocol::wire::varint_enc;
use vstd::utf8::encode_utf8;

verus! {

/// A value that can encode itself at a given protocol version by appending
/// its wire form to an output buffer.
pub trait SerializeVersioned where Self: Sized {
    /// The bytes this value occupies on the wire at `version`.
    spec fn wire_enc(&self, version: i16) -> Seq<u8>;

    /// Append the wire form of `self` at `version` to `out`.
    fn serialize_versioned(&self, out: &mut Vec<u8>, version: i16) -> (r: Result<
        (),
        SerializationError,
    >)
        ensures
            r is Ok,
            final(out)@ == old(out)@ + self.wire_enc(version),
    ;
}

/// Carries the version negotiated for one exchange and encodes messages at
/// that version.
pub struct VersionedSerializer {
    pub api_version: i16,
}

impl VersionedSerializer {
    /// An encoder fixed to `api_version`.
    pub fn new(api_version: i16) -> (r: Self)
        ensures
            r.api_version == api_version,
    {
        VersionedSerializer { api_version }
    }
}

/// Append the unsigned varint form of `val` to `out`: seven payload bits
/// per byte, least significant group first, high bit set iff more follow.
pub fn serialize_unsigned_var_int(val: u64, out: &mut Vec<u8>) -> (r: Result<
    (),
    SerializationError,
>)
    ensures
        r is Ok,
        final(out)@ == old(out)@ + varint_enc(val as nat),
{
    let mut curr: u64 = val;
    loop
        invariant
            old(out)@ + varint_enc(val as nat) == out@ + varint_enc(curr as nat),
        decreases curr,
    {
        if curr < 128 {
            out.push(curr as u8);
            proof {
                assert(varint_enc(curr as nat) == seq![curr as u8]);
                assert(old(out)@ + varint_enc(val as nat) =~= out@);
            }
            return Ok(());
        } else {
            let b: u8 = ((curr % 128) + 128) as u8;
            let next: u64 = curr / 128;
            out.push(b);
            proof {
                assert(varint_enc(curr as nat) == seq![b] + varint_enc(next as nat));
                assert(old(out)@ + varint_enc(val as nat) =~= out@ + varint_enc(next as nat));
            }
            curr = next;
        }
    }
}

/// Append `width` big-endian bytes of `u` to `out`.
pub fn serialize_be(u: u64, width: usize, out: &mut Vec<u8>)
    ensures
        final(out)@ == old(out)@ + be_enc(u as nat, width as nat),
    decreases width,
{
    if width == 0 {
        proof {
            assert(old(out)@ + be_enc(u as nat, 0nat) =~= old(out)@);
        }
        return ;
    }
    serialize_be(u / 256, width - 1, out);
    out.push((u % 256) as u8);
    proof {
        assert(old(out)@ + be_enc(u as nat, width as nat) =~= out@);
    }
}

/// Append every byte of `b` to `out`.
pub fn push_bytes(out: &mut Vec<u8>, b: &[u8])
    ensures
        final(out)@ == old(out)@ + b@,
{
    let mut j: usize = 0;
    while j < b.len()
        invariant
            j <= b@.len(),
            out@ == old(out)@ + b@.take(j as int),
        decreases b@.len() - j,
    {
        out.push(b[j]);
        proof {
            assert(old(out)@ + b@.take(j + 1) =~= (old(out)@ + b@.take(j as int)).push(b@[j as int]));
        }
        j = j + 1;
    }
    proof {
        assert(b@.take(b@.len() as int) =~= b@);
    }
}

/// Append the compact form of the byte string `b` to `out`: a varint
/// holding the length plus one, then the bytes. Only a length at the very
/// top of the machine's range cannot be represented.
pub fn serialize_compact_bytes(b: &[u8], out: &mut Vec<u8>) -> (r: Result<(), SerializationError>)
    ensures
        b@.len() < usize::MAX ==> r is Ok && final(out)@ == old(out)@ + compact_enc(b@),
        b@.len() == usize::MAX ==> r == Err::<(), SerializationError>(SerializationError::Overflow)
            && final(out)@ == old(out)@,
{
    if b.len() == usize::MAX {
        return Err(SerializationError::Overflow);
    }
    let lp1: u64 = (b.len() as u64) + 1;
    let r = serialize_unsigned_var_int(lp1, out);
    push_bytes(out, b);
    proof {
        assert(old(out)@ + compact_enc(b@) =~= out@);
    }
    r
}

/// Append the compact form of `val` to `out`: the varint byte length plus
/// one, then the string's UTF-8 bytes.
pub fn serialize_compact_string(val: &String, out: &mut Vec<u8>) -> (r: Result<
    (),
    SerializationError,
>)
    ensures
        encode_utf8(val@).len() < usize::MAX ==> r is Ok && final(out)@ == old(out)@ + compact_enc(
            encode_utf8(val@),
        ),
        encode_utf8(val@).len() == usize::MAX ==> r == Err::<(), SerializationError>(
            SerializationError::Overflow,
        ) && final(out)@ == old(out)@,
{
    serialize_compact_bytes(val.as_str().as_bytes(), out)
}

impl SerializeVersioned for bool {
    open spec fn wire_enc(&self, version: i16) -> Seq<u8> {
        bool_enc(*self)
    }

    /// One byte: 1 for true, 0 for false, at every version.
    fn serialize_versioned(&self, out: &mut Vec<u8>, version: i16) -> (r: Result<
        (),
        SerializationError,
    >) {
        out.push(if *self { 1 } else { 0 });
        proof {
            assert(old(out)@ + bool_enc(*self) =~= out@);
        }
        Ok(())
    }
}

impl SerializeVersioned for i8 {
    open spec fn wire_enc(&self, version: i16) -> Seq<u8> {
        be_enc(to_unsigned(*self as int, 0x100), 1)
    }

    fn serialize_versioned(&self, out: &mut Vec<u8>, version: i16) -> (r: Result<
        (),
        SerializationError,
    >) {
        let u: u8 = if *self >= 0 {
            *self as u8
        } else {
            ((*self as i16) + 0x100) as u8
        };
        serialize_be(u as u64, 1, out);
        Ok(())
    }
}

impl SerializeVersioned for i16 {
    open spec fn wire_enc(&self, version: i16) -> Seq<u8> {
        be_enc(to_unsigned(*self as int, 0x10000), 2)
    }

    fn serialize_versioned(&self, out: &mut Vec<u8>, version: i16) -> (r: Result<
        (),
        SerializationError,
    >) {
        let u: u16 = if *self >= 0 {
            *self as u16
        } else {
            ((*self as i32) + 0x10000) as u16
        };
        serialize_be(u as u64, 2, out);
        Ok(())
    }
}

impl SerializeVersioned for i32 {
    open spec fn wire_enc(&self, version: i16) -> Seq<u8> {
        be_enc(to_unsigned(*self as int, 0x100000000), 4)
    }

    fn serialize_versioned(&self, out: &mut Vec<u8>, version: i16) -> (r: Result<
        (),
        SerializationError,
    >) {
        let u: u32 = if *self >= 0 {
            *self as u32
        } else {
            ((*self as i64) + 0x100000000) as u32
        };
        serialize_be(u as u64, 4, out);
        Ok(())
    }
}

impl SerializeVersioned for u32 {
    open spec fn wire_enc(&self, version: i16) -> Seq<u8> {
        be_enc(*self as nat, 4)
    }

    fn serialize_versioned(&self, out: &mut Vec<u8>, version: i16) -> (r: Result<
        (),
        SerializationError,
    >) {
        serialize_be(*self as u64, 4, out);
        Ok(())
    }
}

impl SerializeVersioned for i64 {
    open spec fn wire_enc(&self, version: i16) -> Seq<u8> {
        be_enc(to_unsigned(*self as int, 0x10000000000000000), 8)
    }

    fn serialize_versioned(&self, out: &mut Vec<u8>, version: i16) -> (r: Result<
        (),
        SerializationError,
    >) {
        let u: u64 = if *self >= 0 {
            *self as u64
        } else {
            (((*self as i128) + 0x10000000000000000) as u64)
        };
        serialize_be(u, 8, out);
        Ok(())
    }
}

} // verus!
