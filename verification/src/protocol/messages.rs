//! Message-level types shared by every message: versions and version
//! ranges, the tagged-fields extension container, and the traits a
//! request or response message type implements.

use vstd::prelude::*;

use crate::protocol::api_key::ApiKey;
use crate::protocol::deserializer::DeserializeVersioned;
use crate::protocol::deserializer::deserialize_unsigned_var_int;
use crate::protocol::deserializer::read_bytes;
use crate::protocol::error::SerializationError;
use crate::protocol::serializer::SerializeVersioned;
use crate::protocol::serializer::push_bytes;
use crate::protocol::serializer::serialize_unsigned_var_int;
use crate::protocol::wire::DecOut;
use crate::protocol::wire::lemma_tagged_entries_enc_push;
use crate::protocol::wire::tagged_dec;
use crate::protocol::wire::tagged_dec_entries;
use crate::protocol::wire::tagged_enc;
use crate::protocol::wire::tagged_entries_enc;
use crate::protocol::wire::tagged_wf;
use crate::protocol::wire::varint_dec;
use crate::protocol::wire::varint_enc;

verus! {

/// A protocol revision for one message type; ordered as integers are.
pub type ApiVersion = i16;

/// An inclusive range of versions one side can speak for a message type.
#[derive(Debug, Copy, Clone, PartialEq, Eq, Structural)]
pub struct ApiVersionRange {
    pub min: ApiVersion,
    pub max: ApiVersion,
}

impl ApiVersionRange {
    /// A range is meaningful only when its bounds are ordered.
    pub open spec fn wf(&self) -> bool {
        self.min <= self.max
    }
}

/// A request message type: it names its response type, its api key, the
/// versions it can speak and the version from which its wire form carries
/// a tagged-fields region.
pub trait KafkaRequest {
    type KafkaResponse;

    fn api_key() -> ApiKey;

    fn api_version_range() -> ApiVersionRange;

    fn tagged_fields_min_version() -> Option<ApiVersion>;
}

/// A response message type: the version from which its wire form carries
/// a tagged-fields region, if any.
pub trait KafkaResponse {
    fn tagged_fields_min_version() -> Option<ApiVersion>;
}

/// One entry of the tagged-fields region: a tag and its opaque payload.
#[derive(Debug, Clone, PartialEq, Eq)]
pub struct TaggedField {
    pub tag: u64,
    pub data: Vec<u8>,
}

/// The tagged-fields extension region of a message: entries in strictly
/// ascending tag order, payloads carried through uninterpreted.
#[derive(Debug, Clone, PartialEq, Eq)]
pub struct TaggedFields {
    pub fields: Vec<TaggedField>,
}

impl View for TaggedFields {
    type V = Seq<(u64, Seq<u8>)>;

    open spec fn view(&self) -> Seq<(u64, Seq<u8>)> {
        self.fields@.map_values(|f: TaggedField| (f.tag, f.data@))
    }
}

impl TaggedFields {
    /// The container's invariant: strictly ascending tags, counts and
    /// lengths within varint range.
    pub open spec fn wf(&self) -> bool {
        tagged_wf(self@)
    }

    /// An empty container.
    pub fn new() -> (r: Self)
        ensures
            r@ == Seq::<(u64, Seq<u8>)>::empty(),
            r.wf(),
    {
        let r = TaggedFields { fields: Vec::new() };
        proof {
            assert(r@ =~= Seq::<(u64, Seq<u8>)>::empty());
        }
        r
    }

    /// Append an entry; its tag must exceed every tag already present,
    /// which the container checks against its last entry.
    pub fn insert(&mut self, tag: u64, data: Vec<u8>) -> (r: Result<(), SerializationError>)
        requires
            old(self).wf(),
        ensures
            final(self).wf(),
            old(self)@.len() == 0 || old(self)@.last().0 < tag ==> r is Ok && final(self)@ == old(
                self,
            )@.push((tag, data@)),
            !(old(self)@.len() == 0 || old(self)@.last().0 < tag) ==> r == Err::<
                (),
                SerializationError,
            >(SerializationError::Malformed) && final(self)@ == old(self)@,
    {
        proof {
            vstd::std_specs::vec::axiom_spec_len(&data);
        }
        let n = self.fields.len();
        if n > 0 && self.fields[n - 1].tag >= tag {
            return Err(SerializationError::Malformed);
        }
        self.fields.push(TaggedField { tag, data });
        proof {
            vstd::std_specs::vec::axiom_spec_len(&self.fields);
            assert(final(self)@ =~= old(self)@.push((tag, data@)));
            assert forall|i: int, j: int|
                0 <= i < j < final(self)@.len() implies (#[trigger] final(self)@[i]).0 < (
            #[trigger] final(self)@[j]).0 by {
                if j < old(self)@.len() {
                    assert(old(self)@[i].0 < old(self)@[j].0);
                } else {
                    if i < old(self)@.len() - 1 {
                        assert(old(self)@[i].0 < old(self)@.last().0);
                    }
                }
            }
        }
        Ok(())
    }
}

impl SerializeVersioned for TaggedFields {
    open spec fn wire_enc(&self, version: i16) -> Seq<u8> {
        tagged_enc(self@)
    }

    /// The entry count, then each entry's tag, payload length and payload,
    /// in the container's (ascending) order.
    fn serialize_versioned(&self, out: &mut Vec<u8>, version: i16) -> (r: Result<
        (),
        SerializationError,
    >) {
        match serialize_unsigned_var_int(self.fields.len() as u64, out) {
            Ok(()) => (),
            Err(e) => {
                return Err(e);
            },
        }
        let mut j: usize = 0;
        while j < self.fields.len()
            invariant
                j <= self.fields@.len(),
                out@ == old(out)@ + varint_enc(self@.len()) + tagged_entries_enc(
                    self@.take(j as int),
                ),
            decreases self.fields@.len() - j,
        {
            let f = &self.fields[j];
            match serialize_unsigned_var_int(f.tag, out) {
                Ok(()) => (),
                Err(e) => {
                    return Err(e);
                },
            }
            match serialize_unsigned_var_int(f.data.len() as u64, out) {
                Ok(()) => (),
                Err(e) => {
                    return Err(e);
                },
            }
            push_bytes(out, f.data.as_slice());
            proof {
                assert(self@.take(j + 1) =~= self@.take(j as int).push(self@[j as int]));
                lemma_tagged_entries_enc_push(self@.take(j as int), self@[j as int]);
                assert(self@[j as int] == (f.tag, f.data@));
                assert(out@ =~= old(out)@ + varint_enc(self@.len()) + tagged_entries_enc(
                    self@.take(j + 1),
                ));
            }
            j = j + 1;
        }
        proof {
            assert(self@.take(self@.len() as int) =~= self@);
            assert(out@ =~= old(out)@ + tagged_enc(self@));
        }
        Ok(())
    }
}

impl DeserializeVersioned for TaggedFields {
    /// A varint entry count, then exactly that many entries, their tags
    /// required to be strictly ascending; a violation is `Malformed`.
    fn deserialize_versioned(data: &[u8], pos: usize, version: i16) -> (r: Result<
        (Self, usize),
        SerializationError,
    >)
        ensures
            ({
                match tagged_dec(data@.skip(pos as int)) {
                    DecOut::Val(es, n) => r matches Ok(p) && p.0@ == es && p.0.wf() && p.1 == pos
                        + n,
                    DecOut::Bad => r matches Err(e) && e == SerializationError::Malformed,
                    DecOut::Short => r matches Err(e) && e == SerializationError::Io,
                }
            }),
    {
        let ghost s0 = data@.skip(pos as int);
        let cp = match deserialize_unsigned_var_int(data, pos) {
            Ok(p) => p,
            Err(e) => {
                return Err(e);
            },
        };
        let count: u64 = cp.0;
        let ghost nc = (cp.1 - pos) as int;
        let ghost start = cp.1 as int;
        proof {
            assert(s0.skip(nc) =~= data@.skip(start));
        }
        let mut tf = TaggedFields::new();
        let mut i: usize = cp.1;
        let mut j: u64 = 0;
        while j < count
            invariant
                pos <= data@.len(),
                cp.1 <= i <= data@.len(),
                j <= count,
                s0 == data@.skip(pos as int),
                start == cp.1 as int,
                nc == start - pos,
                varint_dec(s0, 1) == DecOut::Val(count as nat, nc),
                s0.skip(nc) == data@.skip(start),
                tf.wf(),
                tf@.len() == j,
                ({
                    let prev: Option<u64> = if j == 0 {
                        Option::None
                    } else {
                        Option::Some(tf@.last().0)
                    };
                    match tagged_dec_entries(data@.skip(i as int), (count - j) as nat, prev) {
                        DecOut::Val(es, m) => tagged_dec_entries(
                            data@.skip(start),
                            count as nat,
                            Option::None,
                        ) == DecOut::Val(tf@ + es, (i - start) + m),
                        DecOut::Bad => tagged_dec_entries(
                            data@.skip(start),
                            count as nat,
                            Option::None,
                        ) is Bad,
                        DecOut::Short => tagged_dec_entries(
                            data@.skip(start),
                            count as nat,
                            Option::None,
                        ) is Short,
                    }
                }),
            decreases count - j,
        {
            let ghost prev: Option<u64> = if j == 0 {
                Option::None
            } else {
                Option::Some(tf@.last().0)
            };
            let ghost si = data@.skip(i as int);
            let tp = match deserialize_unsigned_var_int(data, i) {
                Ok(p) => p,
                Err(e) => {
                    return Err(e);
                },
            };
            let tag: u64 = tp.0;
            if j > 0 {
                let n = tf.fields.len();
                if tag <= tf.fields[n - 1].tag {
                    return Err(SerializationError::Malformed);
                }
            }
            let ghost n1 = (tp.1 - i) as int;
            proof {
                assert(si.skip(n1) =~= data@.skip(tp.1 as int));
            }
            let lp = match deserialize_unsigned_var_int(data, tp.1) {
                Ok(p) => p,
                Err(e) => {
                    return Err(e);
                },
            };
            let len64: u64 = lp.0;
            let ghost n2 = (lp.1 - tp.1) as int;
            let avail: usize = data.len() - lp.1;
            if len64 > (avail as u64) {
                proof {
                    assert(si.len() < n1 + n2 + len64 as nat);
                }
                return Err(SerializationError::Io);
            }
            let len: usize = len64 as usize;
            let payload = read_bytes(data, lp.1, len);
            let ghost e = (tag, payload@);
            let ghost tf_before = tf@;
            proof {
                assert(si.subrange(n1 + n2, n1 + n2 + len as int) =~= data@.subrange(
                    lp.1 as int,
                    lp.1 + len as int,
                ));
                assert(si.skip(n1 + n2 + len as int) =~= data@.skip(lp.1 + len as int));
            }
            let ins = tf.insert(tag, payload);
            let i_next: usize = lp.1 + len;
            proof {
                assert(ins is Ok);
                assert(tf@ == tf_before.push(e));
                match tagged_dec_entries(
                    data@.skip(i_next as int),
                    (count - (j + 1)) as nat,
                    Option::Some(tag),
                ) {
                    DecOut::Val(es2, m2) => {
                        assert(tagged_dec_entries(si, (count - j) as nat, prev) == DecOut::Val(
                            seq![e] + es2,
                            n1 + n2 + len + m2,
                        ));
                        assert(tf_before + (seq![e] + es2) =~= tf@ + es2);
                    },
                    DecOut::Bad => {
                        assert(tagged_dec_entries(si, (count - j) as nat, prev) is Bad);
                    },
                    DecOut::Short => {
                        assert(tagged_dec_entries(si, (count - j) as nat, prev) is Short);
                    },
                }
            }
            i = i_next;
            j = j + 1;
        }
        proof {
            let prev: Option<u64> = if j == 0 {
                Option::None
            } else {
                Option::Some(tf@.last().0)
            };
            assert(tagged_dec_entries(data@.skip(i as int), 0, prev) == DecOut::Val(
                Seq::<(u64, Seq<u8>)>::empty(),
                0,
            ));
            assert(tf@ + Seq::<(u64, Seq<u8>)>::empty() =~= tf@);
        }
        Ok((tf, i))
    }
}

} // verus!
