//! The mathematical model of the wire format. Every encoder and decoder in
//! this crate is specified against the functions in this module.

use vstd::prelude::*;

verus! {

/// Outcome of decoding one value at the head of a byte sequence: the value
/// together with the number of bytes it occupied, a structural rejection,
/// or an input that ended before the value was complete.
pub enum DecOut<T> {
    Val(T, int),
    Bad,
    Short,
}

/// The unsigned varint encoding: seven payload bits per byte, least
/// significant group first, high bit of a byte set iff more bytes follow.
pub open spec fn varint_enc(x: nat) -> Seq<u8>
    decreases x,
{
    if x < 128 {
        seq![x as u8]
    } else {
        seq![((x % 128) + 128) as u8] + varint_enc(x / 128)
    }
}

/// The powers of 128 that can arise as the place value of a varint byte
/// while the accumulated value still fits in 64 bits.
pub open spec fn varint_mult(m: nat) -> bool {
    ||| m == 1
    ||| m == 0x80
    ||| m == 0x4000
    ||| m == 0x200000
    ||| m == 0x10000000
    ||| m == 0x800000000
    ||| m == 0x40000000000
    ||| m == 0x2000000000000
    ||| m == 0x100000000000000
    ||| m == 0x8000000000000000
}

/// Decoding an unsigned varint whose next byte has place value `mult`.
/// A sequence that would exceed 64 significant bits is rejected (`Bad`);
/// a sequence that ends while its last byte still asks for more is `Short`.
pub open spec fn varint_dec(s: Seq<u8>, mult: nat) -> DecOut<nat>
    decreases s.len(),
{
    if s.len() == 0 {
        DecOut::Short
    } else {
        let c = s[0] as nat;
        if c < 128 {
            if mult == 0x8000000000000000 && c > 1 {
                DecOut::Bad
            } else {
                DecOut::Val(c * mult, 1)
            }
        } else if mult == 0x8000000000000000 {
            DecOut::Bad
        } else {
            match varint_dec(s.drop_first(), mult * 128) {
                DecOut::Val(v, n) => DecOut::Val(((c - 128) as nat) * mult + v, n + 1),
                DecOut::Bad => DecOut::Bad,
                DecOut::Short => DecOut::Short,
            }
        }
    }
}

/// Round trip for the varint codec: decoding an encoding (followed by
/// anything) yields the value scaled by the current place value, and
/// consumes exactly the encoding.
pub proof fn lemma_varint_round_trip_at(x: nat, mult: nat, rest: Seq<u8>)
    requires
        varint_mult(mult),
        x * mult < 0x10000000000000000,
    ensures
        varint_dec(varint_enc(x) + rest, mult) == DecOut::Val(x * mult, varint_enc(x).len() as int),
    decreases x,
{
    let s = varint_enc(x) + rest;
    if x < 128 {
        assert(varint_enc(x) == seq![x as u8]);
        assert(s[0] == x as u8);
        if mult == 0x8000000000000000 {
            assert(x <= 1) by (nonlinear_arith)
                requires
                    x * 0x8000000000000000 < 0x10000000000000000,
            {}
        }
    } else {
        let c = ((x % 128) + 128) as u8;
        assert(varint_enc(x) == seq![c] + varint_enc(x / 128));
        assert(s[0] == c);
        assert(mult != 0x8000000000000000) by (nonlinear_arith)
            requires
                x >= 128,
                x * mult < 0x10000000000000000,
                varint_mult(mult),
        {}
        assert((x / 128) * (mult * 128) < 0x10000000000000000) by (nonlinear_arith)
            requires
                x >= 128,
                x * mult < 0x10000000000000000,
                mult >= 1,
        {}
        lemma_varint_round_trip_at(x / 128, mult * 128, rest);
        assert(s.drop_first() =~= varint_enc(x / 128) + rest);
        assert((x % 128) * mult + (x / 128) * (mult * 128) == x * mult) by (nonlinear_arith)
            requires
                x >= 0,
                mult >= 0,
        {}
        assert(varint_dec(s, mult) == DecOut::Val(
            x * mult,
            1 + varint_enc(x / 128).len() as int,
        ));
    }
}

/// Round trip for the varint codec at the outermost position.
pub proof fn lemma_varint_round_trip(x: u64, rest: Seq<u8>)
    ensures
        varint_dec(varint_enc(x as nat) + rest, 1) == DecOut::Val(
            x as nat,
            varint_enc(x as nat).len() as int,
        ),
{
    lemma_varint_round_trip_at(x as nat, 1, rest);
}

/// A varint whose first ten bytes all ask for more would need more than
/// 64 significant bits: it is rejected as malformed, never truncated.
pub proof fn lemma_varint_over_64_bits_rejected(s: Seq<u8>)
    requires
        s.len() >= 10,
        forall|i: int| 0 <= i < 10 ==> s[i] >= 128,
    ensures
        varint_dec(s, 1) is Bad,
{
    assert forall|k: int| 0 <= k < 10 implies #[trigger] s.skip(k)[0] >= 128 by {
        assert(s.skip(k)[0] == s[k]);
    }
    assert forall|k: int| 0 <= k < 9 implies #[trigger] s.skip(k).drop_first() =~= s.skip(k + 1)
        by {}
    assert(varint_dec(s.skip(9), 0x8000000000000000) is Bad);
    assert(varint_dec(s.skip(8), 0x100000000000000) is Bad);
    assert(varint_dec(s.skip(7), 0x2000000000000) is Bad);
    assert(varint_dec(s.skip(6), 0x40000000000) is Bad);
    assert(varint_dec(s.skip(5), 0x800000000) is Bad);
    assert(varint_dec(s.skip(4), 0x10000000) is Bad);
    assert(varint_dec(s.skip(3), 0x200000) is Bad);
    assert(varint_dec(s.skip(2), 0x4000) is Bad);
    assert(varint_dec(s.skip(1), 0x80) is Bad);
    assert(s.skip(0) =~= s);
    assert(varint_dec(s.skip(0), 1) is Bad);
}

/// `256^n`, the number of values a fixed-width field of `n` bytes can hold.
pub open spec fn pow256(n: nat) -> nat
    decreases n,
{
    if n == 0 {
        1
    } else {
        256 * pow256((n - 1) as nat)
    }
}

/// Big-endian encoding of `x` in exactly `n` bytes.
pub open spec fn be_enc(x: nat, n: nat) -> Seq<u8>
    decreases n,
{
    if n == 0 {
        seq![]
    } else {
        be_enc(x / 256, (n - 1) as nat) + seq![(x % 256) as u8]
    }
}

/// The value of a whole byte sequence read big-endian.
pub open spec fn be_val(s: Seq<u8>) -> nat
    decreases s.len(),
{
    if s.len() == 0 {
        0
    } else {
        be_val(s.drop_last()) * 256 + (s.last() as nat)
    }
}

/// Decoding a fixed-width big-endian field of `n` bytes.
pub open spec fn be_dec(s: Seq<u8>, n: nat) -> DecOut<nat> {
    if s.len() < n {
        DecOut::Short
    } else {
        DecOut::Val(be_val(s.take(n as int)), n as int)
    }
}

/// `256^n` grows with `n` and is always positive.
pub proof fn lemma_pow256_mono(j: nat, k: nat)
    requires
        j <= k,
    ensures
        1 <= pow256(j) <= pow256(k),
    decreases k,
{
    if k == 0 {
    } else if j == k {
        lemma_pow256_mono(0, (k - 1) as nat);
    } else {
        lemma_pow256_mono(j, (k - 1) as nat);
    }
}

/// The values of `256^n` for every fixed width in use.
pub proof fn lemma_pow256_values()
    ensures
        pow256(0) == 1,
        pow256(1) == 0x100,
        pow256(2) == 0x10000,
        pow256(3) == 0x1000000,
        pow256(4) == 0x100000000,
        pow256(5) == 0x10000000000,
        pow256(6) == 0x1000000000000,
        pow256(7) == 0x100000000000000,
        pow256(8) == 0x10000000000000000,
{
    assert(pow256(0) == 1);
    assert(pow256(1) == 0x100);
    assert(pow256(2) == 0x10000);
    assert(pow256(3) == 0x1000000);
    assert(pow256(4) == 0x100000000);
    assert(pow256(5) == 0x10000000000);
    assert(pow256(6) == 0x1000000000000);
    assert(pow256(7) == 0x100000000000000);
    assert(pow256(8) == 0x10000000000000000);
}

/// A big-endian value fits in as many bytes as were read.
pub proof fn lemma_be_val_bound(s: Seq<u8>)
    ensures
        be_val(s) < pow256(s.len()),
    decreases s.len(),
{
    if s.len() > 0 {
        lemma_be_val_bound(s.drop_last());
        assert(be_val(s.drop_last()) * 256 + 256 <= pow256((s.len() - 1) as nat) * 256)
            by (nonlinear_arith)
            requires
                be_val(s.drop_last()) < pow256((s.len() - 1) as nat),
        {}
    }
}

/// Round trip for the fixed-width codec: an `n`-byte encoding reads back
/// as the value encoded.
pub proof fn lemma_be_round_trip(x: nat, n: nat)
    requires
        x < pow256(n),
    ensures
        be_enc(x, n).len() == n,
        be_val(be_enc(x, n)) == x,
    decreases n,
{
    if n > 0 {
        assert(x / 256 < pow256((n - 1) as nat)) by (nonlinear_arith)
            requires
                x < 256 * pow256((n - 1) as nat),
        {}
        lemma_be_round_trip(x / 256, (n - 1) as nat);
        assert(be_enc(x, n).drop_last() =~= be_enc(x / 256, (n - 1) as nat));
        assert(be_enc(x, n).last() == (x % 256) as u8);
    }
}

/// The unsigned `m`-modular representative of a signed value.
pub open spec fn to_unsigned(x: int, m: nat) -> nat
    recommends
        m >= 2,
        -(m as int) / 2 <= x < m / 2,
{
    if x < 0 {
        (x + m) as nat
    } else {
        x as nat
    }
}

/// The signed value whose unsigned `m`-modular representative is `u`.
pub open spec fn to_signed(u: nat, m: nat) -> int
    recommends
        m >= 2,
        u < m,
{
    if u >= m / 2 {
        u - m
    } else {
        u as int
    }
}

/// The one-byte boolean encoding.
pub open spec fn bool_enc(b: bool) -> Seq<u8> {
    if b {
        seq![1u8]
    } else {
        seq![0u8]
    }
}

/// Decoding a one-byte boolean: any byte other than 0 or 1 has no valid
/// mapping.
pub open spec fn bool_dec(s: Seq<u8>) -> DecOut<bool> {
    if s.len() == 0 {
        DecOut::Short
    } else if s[0] == 0 {
        DecOut::Val(false, 1)
    } else if s[0] == 1 {
        DecOut::Val(true, 1)
    } else {
        DecOut::Bad
    }
}

/// The compact string encoding: a varint holding the byte length plus one
/// (zero is reserved to mean absent), then the bytes themselves.
pub open spec fn compact_enc(b: Seq<u8>) -> Seq<u8> {
    varint_enc(b.len() + 1) + b
}

/// Decoding a compact string that may not be absent: a zero length marker
/// is a structural violation here.
pub open spec fn compact_dec(s: Seq<u8>) -> DecOut<Seq<u8>> {
    match varint_dec(s, 1) {
        DecOut::Val(lp1, n) => if lp1 == 0 {
            DecOut::Bad
        } else if s.len() < n + (lp1 - 1) {
            DecOut::Short
        } else {
            DecOut::Val(s.subrange(n, n + lp1 - 1), n + lp1 - 1)
        },
        DecOut::Bad => DecOut::Bad,
        DecOut::Short => DecOut::Short,
    }
}

/// Round trip for the compact string codec.
pub proof fn lemma_compact_round_trip(b: Seq<u8>, rest: Seq<u8>)
    requires
        b.len() + 1 < 0x10000000000000000,
    ensures
        compact_dec(compact_enc(b) + rest) == DecOut::Val(b, compact_enc(b).len() as int),
{
    let s = compact_enc(b) + rest;
    assert(s =~= varint_enc(b.len() + 1) + (b + rest));
    lemma_varint_round_trip_at(b.len() + 1, 1, b + rest);
    let n = varint_enc(b.len() + 1).len() as int;
    assert(varint_dec(s, 1) == DecOut::Val(b.len() + 1, n));
    assert(s.subrange(n, n + b.len() as int) =~= b);
}

/// The wire form of one tagged field: its tag, its payload length and the
/// payload bytes, the lengths as varints.
pub open spec fn tagged_entry_enc(tag: u64, payload: Seq<u8>) -> Seq<u8> {
    varint_enc(tag as nat) + varint_enc(payload.len()) + payload
}

/// The wire form of a sequence of tagged fields, in order.
pub open spec fn tagged_entries_enc(es: Seq<(u64, Seq<u8>)>) -> Seq<u8>
    decreases es.len(),
{
    if es.len() == 0 {
        seq![]
    } else {
        tagged_entry_enc(es[0].0, es[0].1) + tagged_entries_enc(es.drop_first())
    }
}

/// The wire form of a whole tagged-fields region: the entry count as a
/// varint, then the entries in ascending tag order.
pub open spec fn tagged_enc(es: Seq<(u64, Seq<u8>)>) -> Seq<u8> {
    varint_enc(es.len()) + tagged_entries_enc(es)
}

/// Tags strictly ascend in encounter order; in particular no tag repeats.
pub open spec fn tags_ascending(es: Seq<(u64, Seq<u8>)>) -> bool {
    forall|i: int, j: int| 0 <= i < j < es.len() ==> (#[trigger] es[i]).0 < (#[trigger] es[j]).0
}

/// A container that can stand on the wire: strictly ascending tags, and
/// every count and length within varint range.
pub open spec fn tagged_wf(es: Seq<(u64, Seq<u8>)>) -> bool {
    &&& tags_ascending(es)
    &&& es.len() < 0x10000000000000000
    &&& forall|i: int| 0 <= i < es.len() ==> (#[trigger] es[i]).1.len() < 0x10000000000000000
}

/// Decoding exactly `count` tagged fields, each tag required to exceed
/// `prev`: a non-ascending or duplicate tag is a structural violation.
pub open spec fn tagged_dec_entries(s: Seq<u8>, count: nat, prev: Option<u64>) -> DecOut<
    Seq<(u64, Seq<u8>)>,
>
    decreases count,
{
    if count == 0 {
        DecOut::Val(seq![], 0)
    } else {
        match varint_dec(s, 1) {
            DecOut::Val(tag, n1) => if (match prev {
                Option::Some(p) => tag <= p as nat,
                Option::None => false,
            }) {
                DecOut::Bad
            } else {
                match varint_dec(s.skip(n1), 1) {
                    DecOut::Val(len, n2) => if s.len() < n1 + n2 + len {
                        DecOut::Short
                    } else {
                        match tagged_dec_entries(
                            s.skip(n1 + n2 + len),
                            (count - 1) as nat,
                            Option::Some(tag as u64),
                        ) {
                            DecOut::Val(es, m) => DecOut::Val(
                                seq![(tag as u64, s.subrange(n1 + n2, n1 + n2 + len))] + es,
                                n1 + n2 + len + m,
                            ),
                            DecOut::Bad => DecOut::Bad,
                            DecOut::Short => DecOut::Short,
                        }
                    },
                    DecOut::Bad => DecOut::Bad,
                    DecOut::Short => DecOut::Short,
                }
            },
            DecOut::Bad => DecOut::Bad,
            DecOut::Short => DecOut::Short,
        }
    }
}

/// Decoding a whole tagged-fields region.
pub open spec fn tagged_dec(s: Seq<u8>) -> DecOut<Seq<(u64, Seq<u8>)>> {
    match varint_dec(s, 1) {
        DecOut::Val(count, n) => match tagged_dec_entries(s.skip(n), count, Option::None) {
            DecOut::Val(es, m) => DecOut::Val(es, n + m),
            DecOut::Bad => DecOut::Bad,
            DecOut::Short => DecOut::Short,
        },
        DecOut::Bad => DecOut::Bad,
        DecOut::Short => DecOut::Short,
    }
}

/// Appending one entry to a sequence appends its wire form.
pub proof fn lemma_tagged_entries_enc_push(es: Seq<(u64, Seq<u8>)>, e: (u64, Seq<u8>))
    ensures
        tagged_entries_enc(es.push(e)) == tagged_entries_enc(es) + tagged_entry_enc(e.0, e.1),
    decreases es.len(),
{
    let whole = es.push(e);
    if es.len() == 0 {
        assert(whole[0] == e);
        assert(whole.drop_first() =~= Seq::<(u64, Seq<u8>)>::empty());
        assert(tagged_entries_enc(whole) == tagged_entry_enc(e.0, e.1) + tagged_entries_enc(
            whole.drop_first(),
        ));
        assert(tagged_entries_enc(whole) =~= tagged_entries_enc(es) + tagged_entry_enc(e.0, e.1));
    } else {
        assert(whole[0] == es[0]);
        assert(whole.drop_first() =~= es.drop_first().push(e));
        lemma_tagged_entries_enc_push(es.drop_first(), e);
        assert(tagged_entries_enc(whole) == tagged_entry_enc(es[0].0, es[0].1)
            + tagged_entries_enc(whole.drop_first()));
        assert(tagged_entries_enc(es) == tagged_entry_enc(es[0].0, es[0].1) + tagged_entries_enc(
            es.drop_first(),
        ));
        assert(tagged_entries_enc(whole) =~= tagged_entries_enc(es) + tagged_entry_enc(e.0, e.1));
    }
}

/// Round trip for a run of tagged entries whose tags all exceed `prev`.
pub proof fn lemma_tagged_entries_round_trip(
    es: Seq<(u64, Seq<u8>)>,
    prev: Option<u64>,
    rest: Seq<u8>,
)
    requires
        tags_ascending(es),
        forall|i: int| 0 <= i < es.len() ==> (#[trigger] es[i]).1.len() < 0x10000000000000000,
        forall|i: int|
            0 <= i < es.len() ==> (match prev {
                Option::Some(p) => p < (#[trigger] es[i]).0,
                Option::None => true,
            }),
    ensures
        tagged_dec_entries(tagged_entries_enc(es) + rest, es.len(), prev) == DecOut::Val(
            es,
            tagged_entries_enc(es).len() as int,
        ),
    decreases es.len(),
{
    if es.len() > 0 {
        let t0 = es[0].0;
        let p0 = es[0].1;
        let tail = es.drop_first();
        let s = tagged_entries_enc(es) + rest;
        assert(es[0].1.len() < 0x10000000000000000);
        let s1 = varint_enc(p0.len()) + (p0 + (tagged_entries_enc(tail) + rest));
        assert(s =~= varint_enc(t0 as nat) + s1);
        lemma_varint_round_trip(t0, s1);
        let n1 = varint_enc(t0 as nat).len() as int;
        assert(s.skip(n1) =~= s1);
        lemma_varint_round_trip_at(p0.len(), 1, p0 + (tagged_entries_enc(tail) + rest));
        let n2 = varint_enc(p0.len()).len() as int;
        assert(s.subrange(n1 + n2, n1 + n2 + p0.len() as int) =~= p0);
        assert(s.skip(n1 + n2 + p0.len() as int) =~= tagged_entries_enc(tail) + rest);
        assert(forall|i: int| 0 <= i < tail.len() ==> tail[i] == es[i + 1]);
        assert forall|i: int| 0 <= i < tail.len() implies t0 < (#[trigger] tail[i]).0 by {
            assert(es[0].0 < es[i + 1].0);
        }
        assert forall|i: int, j: int|
            0 <= i < j < tail.len() implies (#[trigger] tail[i]).0 < (#[trigger] tail[j]).0 by {
            assert(es[i + 1].0 < es[j + 1].0);
        }
        assert forall|i: int|
            0 <= i < tail.len() implies (#[trigger] tail[i]).1.len() < 0x10000000000000000 by {
            assert(es[i + 1].1.len() < 0x10000000000000000);
        }
        lemma_tagged_entries_round_trip(tail, Option::Some(t0), rest);
        let ct = tagged_entries_enc(tail).len() as int;
        assert(tagged_dec_entries(s.skip(n1 + n2 + p0.len() as int), tail.len(), Option::Some(t0))
            == DecOut::Val(tail, ct));
        assert(varint_dec(s, 1) == DecOut::Val(t0 as nat, n1));
        assert(varint_dec(s.skip(n1), 1) == DecOut::Val(p0.len(), n2));
        assert(match prev {
            Option::Some(p) => !(t0 as nat <= p as nat),
            Option::None => true,
        });
        assert(seq![(t0, p0)] + tail =~= es);
        assert(tagged_dec_entries(s, es.len(), prev) == DecOut::Val(
            es,
            n1 + n2 + p0.len() + ct,
        ));
        assert(tagged_entries_enc(es).len() == n1 + n2 + p0.len() + ct);
    } else {
        assert(es =~= Seq::<(u64, Seq<u8>)>::empty());
    }
}

/// Round trip for the tagged-fields region: a well-formed container reads
/// back exactly as encoded.
pub proof fn lemma_tagged_round_trip(es: Seq<(u64, Seq<u8>)>, rest: Seq<u8>)
    requires
        tagged_wf(es),
    ensures
        tagged_dec(tagged_enc(es) + rest) == DecOut::Val(es, tagged_enc(es).len() as int),
{
    let s = tagged_enc(es) + rest;
    assert(s =~= varint_enc(es.len()) + (tagged_entries_enc(es) + rest));
    lemma_varint_round_trip_at(es.len(), 1, tagged_entries_enc(es) + rest);
    let n = varint_enc(es.len()).len() as int;
    assert(s.skip(n) =~= tagged_entries_enc(es) + rest);
    lemma_tagged_entries_round_trip(es, Option::None, rest);
}

/// The encoder emits the minimal form: every byte but the last asks for
/// more, the last byte holds fewer than seven set payload bits' worth, and
/// a multi-byte encoding never ends in a zero byte.
pub proof fn lemma_varint_enc_minimal(x: nat)
    ensures
        varint_enc(x).len() >= 1,
        varint_enc(x).last() < 128,
        forall|i: int| 0 <= i < varint_enc(x).len() - 1 ==> varint_enc(x)[i] >= 128,
        varint_enc(x).len() > 1 ==> varint_enc(x).last() != 0,
    decreases x,
{
    if x >= 128 {
        lemma_varint_enc_minimal(x / 128);
        let c = ((x % 128) + 128) as u8;
        assert(varint_enc(x) == seq![c] + varint_enc(x / 128));
        assert(varint_enc(x).last() == varint_enc(x / 128).last());
        assert(forall|i: int|
            0 <= i < varint_enc(x).len() - 1 ==> varint_enc(x)[i] >= 128) by {
            assert forall|i: int| 0 <= i < varint_enc(x).len() - 1 implies varint_enc(x)[i]
                >= 128 by {
                if i > 0 {
                    assert(varint_enc(x)[i] == varint_enc(x / 128)[i - 1]);
                }
            }
        }
    }
}

} // verus!
