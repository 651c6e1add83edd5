//! The state of a multiplexed connection: a strictly increasing
//! correlation-id counter and the table of in-flight exchanges, together
//! with the decisions taken for every inbound frame. The surrounding
//! transport code owns the socket and the per-exchange completion
//! channels; every decision it acts on is computed here.

use vstd::prelude::*;

use crate::protocol::api_key::ApiKey;
use crate::protocol::deserializer::DeserializeVersioned;
use crate::protocol::deserializer::read_bytes;
use crate::protocol::error::SerializationError;
use crate::protocol::header::ResponseHeader;
use crate::protocol::messages::ApiVersion;
use crate::protocol::messages::ApiVersionRange;
use crate::protocol::messages::TaggedFields;
use crate::protocol::wire::DecOut;
use crate::protocol::wire::be_dec;
use crate::protocol::wire::be_enc;
use crate::protocol::wire::tagged_dec;
use crate::protocol::wire::to_signed;

verus! {

/// A response delivered to one exchange's caller: the decoded header and
/// the remaining frame bytes, decoded later as the response body at the
/// exchange's own negotiated version.
#[derive(Debug, PartialEq, Eq)]
pub struct Response {
    pub header: ResponseHeader,
    pub payload: Vec<u8>,
}

/// A failure of one exchange, reported to its caller.
#[derive(Debug, PartialEq, Eq)]
pub enum RequestError {
    /// The response for this exchange could not be read.
    ReadError { source: SerializationError },
    /// No version both sides can speak was found for the message type.
    NoVersionMatch { api_key: ApiKey },
}

/// A per-frame failure of the background reader; never fatal to the
/// connection, the frame alone is dropped.
#[derive(Debug, PartialEq, Eq)]
pub enum ResponseError {
    /// The frame's header could not be read; the frame is ignored.
    InvalidHeader { source: SerializationError },
    /// The frame answers no exchange this connection has pending.
    UnknownRequest { correlation_id: i32 },
}

/// One in-flight exchange, created the moment its request frame is handed
/// over for sending: whether the response is expected to carry a
/// tagged-fields region. The completion channel itself lives with the
/// transport code, keyed by the same correlation id.
#[derive(Debug, Copy, Clone, PartialEq, Eq, Structural)]
pub struct ActiveRequest {
    pub use_tagged_fields_in_response: bool,
}

/// What the connection decides for one inbound frame.
#[derive(Debug, PartialEq, Eq)]
pub enum FrameOutcome {
    /// The frame answers a pending exchange: complete that exchange's
    /// caller with this response.
    Completed { correlation_id: i32, response: Response },
    /// The frame answers a pending exchange whose tagged-fields region
    /// could not be read: fail that exchange's caller.
    Failed { correlation_id: i32, error: SerializationError },
    /// The frame answers no pending exchange: report it and drop it.
    Unknown { correlation_id: i32 },
    /// The frame's header could not be read: report it and drop it.
    BadHeader { error: SerializationError },
}

/// No two pending exchanges share a correlation id.
pub open spec fn pending_ids_unique(s: Seq<(i32, ActiveRequest)>) -> bool {
    forall|i: int, j: int| 0 <= i < j < s.len() ==> (#[trigger] s[i]).0 != (#[trigger] s[j]).0
}

/// Whether an exchange with this correlation id is pending.
pub open spec fn has_pending(s: Seq<(i32, ActiveRequest)>, id: i32) -> bool {
    exists|k: int| 0 <= k < s.len() && (#[trigger] s[k]).0 == id
}

/// The index of the pending exchange with this correlation id; with
/// unique ids, the only one.
pub open spec fn idx_of(s: Seq<(i32, ActiveRequest)>, id: i32) -> int {
    choose|k: int| 0 <= k < s.len() && (#[trigger] s[k]).0 == id
}

/// The state a multiplexed connection keeps: the pending-exchange table
/// and the correlation-id counter. Ids increase strictly, so a pending id
/// is never reissued; rather than wrap silently at the signed 32-bit
/// boundary, allocation refuses once the counter is exhausted.
#[derive(Debug, PartialEq, Eq)]
pub struct ConnectionState {
    pub pending: Vec<(i32, ActiveRequest)>,
    pub correlation_id: i32,
}

impl ConnectionState {
    /// The state's invariant: the counter never ran backwards, every
    /// pending id was allocated by it, and no id is pending twice.
    pub open spec fn wf(&self) -> bool {
        &&& self.correlation_id >= 0
        &&& pending_ids_unique(self.pending@)
        &&& forall|k: int|
            0 <= k < self.pending@.len() ==> 0 <= (#[trigger] self.pending@[k]).0
                < self.correlation_id
    }

    /// A fresh connection: nothing pending, ids starting at zero.
    pub fn new() -> (r: Self)
        ensures
            r.wf(),
            r.pending@ == Seq::<(i32, ActiveRequest)>::empty(),
            r.correlation_id == 0,
    {
        ConnectionState { pending: Vec::new(), correlation_id: 0 }
    }

    /// Allocate a correlation id for a new exchange and register it as
    /// pending, before the frame is released to the wire: the reader can
    /// then never observe a response for an id that is not yet tracked.
    /// Returns the id, or nothing once the counter is exhausted.
    pub fn register_request(&mut self, use_tagged_fields_in_response: bool) -> (r: Option<i32>)
        requires
            old(self).wf(),
        ensures
            final(self).wf(),
            old(self).correlation_id < i32::MAX ==> r == Option::Some(old(self).correlation_id)
                && final(self).pending@ == old(self).pending@.push(
                (old(self).correlation_id, ActiveRequest { use_tagged_fields_in_response }),
            ) && final(self).correlation_id == old(self).correlation_id + 1,
            old(self).correlation_id == i32::MAX ==> r is None && *final(self) == *old(self),
    {
        if self.correlation_id == i32::MAX {
            return Option::None;
        }
        let id = self.correlation_id;
        self.correlation_id = self.correlation_id + 1;
        self.pending.push((id, ActiveRequest { use_tagged_fields_in_response }));
        proof {
            assert forall|i: int, j: int|
                0 <= i < j < self.pending@.len() implies (#[trigger] self.pending@[i]).0 != (
            #[trigger] self.pending@[j]).0 by {
                if j < old(self).pending@.len() {
                    assert(old(self).pending@[i].0 != old(self).pending@[j].0);
                } else {
                    assert(old(self).pending@[i].0 < id);
                }
            }
        }
        Option::Some(id)
    }

    /// The index of the pending exchange with this correlation id, if any.
    fn find_pending(&self, cid: i32) -> (r: Option<usize>)
        ensures
            ({
                match r {
                    Option::Some(k) => k < self.pending@.len() && (self.pending@[k as int]).0
                        == cid,
                    Option::None => !has_pending(self.pending@, cid),
                }
            }),
    {
        let mut k: usize = 0;
        while k < self.pending.len()
            invariant
                k <= self.pending@.len(),
                forall|l: int| 0 <= l < k ==> (#[trigger] self.pending@[l]).0 != cid,
            decreases self.pending@.len() - k,
        {
            if self.pending[k].0 == cid {
                return Option::Some(k);
            }
            k = k + 1;
        }
        Option::None
    }

    /// Decide one inbound length-delimited frame: decode the response
    /// header's correlation id, remove the matching pending exchange, and
    /// hand back what the transport should do — complete the caller,
    /// fail the caller, or drop the frame. A frame answering no pending
    /// exchange, or with an unreadable header, never disturbs any other
    /// pending exchange.
    pub fn on_frame(&mut self, frame: &[u8]) -> (r: FrameOutcome)
        requires
            old(self).wf(),
        ensures
            final(self).wf(),
            final(self).correlation_id == old(self).correlation_id,
            ({
                match be_dec(frame@, 4) {
                    DecOut::Short => r == (FrameOutcome::BadHeader {
                        error: SerializationError::Io,
                    }) && *final(self) == *old(self),
                    DecOut::Val(u, n) => {
                        let cid = to_signed(u, 0x100000000) as i32;
                        if !has_pending(old(self).pending@, cid) {
                            r == (FrameOutcome::Unknown { correlation_id: cid }) && *final(self)
                                == *old(self)
                        } else {
                            let k = idx_of(old(self).pending@, cid);
                            let entry = old(self).pending@[k];
                            final(self).pending@ == old(self).pending@.remove(k) && (
                            if !entry.1.use_tagged_fields_in_response {
                                r matches FrameOutcome::Completed { correlation_id, response }
                                    && correlation_id == cid && response.header.correlation_id
                                    == cid && response.header.tagged_fields is None
                                    && response.payload@ == frame@.skip(4)
                            } else {
                                match tagged_dec(frame@.skip(4)) {
                                    DecOut::Val(es, m) => r matches FrameOutcome::Completed {
                                        correlation_id,
                                        response,
                                    } && correlation_id == cid && response.header.correlation_id
                                        == cid && (response.header.tagged_fields matches
                                    Option::Some(t) && t@ == es && t.wf()) && response.payload@
                                        == frame@.skip(4 + m),
                                    DecOut::Bad => r == (FrameOutcome::Failed {
                                        correlation_id: cid,
                                        error: SerializationError::Malformed,
                                    }),
                                    DecOut::Short => r == (FrameOutcome::Failed {
                                        correlation_id: cid,
                                        error: SerializationError::Io,
                                    }),
                                }
                            })
                        }
                    },
                    DecOut::Bad => false,
                }
            }),
    {
        proof {
            crate::protocol::wire::lemma_pow256_values();
            crate::protocol::wire::lemma_be_val_bound(frame@.take(4));
            assert(frame@.skip(0) =~= frame@);
        }
        let hd = match i32::deserialize_versioned(frame, 0, 0) {
            Ok(p) => p,
            Err(e) => {
                return FrameOutcome::BadHeader { error: e };
            },
        };
        let cid: i32 = hd.0;
        let k = match self.find_pending(cid) {
            Option::Some(k) => k,
            Option::None => {
                return FrameOutcome::Unknown { correlation_id: cid };
            },
        };
        let ghost pend0 = self.pending@;
        let entry = self.pending.remove(k);
        proof {
            assert(has_pending(pend0, cid));
            let k0 = idx_of(pend0, cid);
            assert(0 <= k0 < pend0.len() && pend0[k0].0 == cid);
            if k0 != k as int {
                assert(pend0[k0].0 != pend0[k as int].0);
            }
            assert(k0 == k as int);
            assert forall|i: int, j: int|
                0 <= i < j < self.pending@.len() implies (#[trigger] self.pending@[i]).0 != (
            #[trigger] self.pending@[j]).0 by {
                let pi: int = if i < k as int {
                    i
                } else {
                    i + 1
                };
                let pj: int = if j < k as int {
                    j
                } else {
                    j + 1
                };
                assert(pend0[pi].0 != pend0[pj].0);
            }
            assert forall|l: int|
                0 <= l < self.pending@.len() implies 0 <= (#[trigger] self.pending@[l]).0
                < self.correlation_id by {
                let pl: int = if l < k as int {
                    l
                } else {
                    l + 1
                };
                assert(0 <= pend0[pl].0 < old(self).correlation_id);
            }
        }
        if !entry.1.use_tagged_fields_in_response {
            let payload = read_bytes(frame, hd.1, frame.len() - hd.1);
            proof {
                assert(frame@.subrange(hd.1 as int, frame@.len() as int) =~= frame@.skip(4));
            }
            return FrameOutcome::Completed {
                correlation_id: cid,
                response: Response {
                    header: ResponseHeader { correlation_id: cid, tagged_fields: Option::None },
                    payload,
                },
            };
        }
        proof {
            assert(frame@.skip(hd.1 as int) =~= frame@.skip(4));
        }
        match TaggedFields::deserialize_versioned(frame, hd.1, 0) {
            Ok(tp) => {
                let payload = read_bytes(frame, tp.1, frame.len() - tp.1);
                proof {
                    match tagged_dec(frame@.skip(4)) {
                        DecOut::Val(es, m) => {
                            assert(frame@.subrange(tp.1 as int, frame@.len() as int)
                                =~= frame@.skip(4 + m));
                        },
                        _ => {},
                    }
                }
                FrameOutcome::Completed {
                    correlation_id: cid,
                    response: Response {
                        header: ResponseHeader {
                            correlation_id: cid,
                            tagged_fields: Option::Some(tp.0),
                        },
                        payload,
                    },
                }
            },
            Err(e) => FrameOutcome::Failed { correlation_id: cid, error: e },
        }
    }

    /// Tear the connection down: every still-pending exchange is handed
    /// back, each exactly once, so the transport can fail its caller; the
    /// table is left empty.
    pub fn fail_all(&mut self) -> (r: Vec<(i32, ActiveRequest)>)
        requires
            old(self).wf(),
        ensures
            final(self).wf(),
            r@ == old(self).pending@,
            final(self).pending@.len() == 0,
            final(self).correlation_id == old(self).correlation_id,
    {
        let mut v: Vec<(i32, ActiveRequest)> = Vec::new();
        core::mem::swap(&mut v, &mut self.pending);
        v
    }
}

/// Negotiate the version two sides speak for one message type: the
/// largest version neither range exceeds, provided the ranges overlap.
pub fn match_versions(range0: ApiVersionRange, range1: ApiVersionRange) -> (r: Option<ApiVersion>)
    ensures
        range0.min <= range1.max && range1.min <= range0.max ==> r == Option::Some(
            if range0.max <= range1.max {
                range0.max
            } else {
                range1.max
            },
        ),
        !(range0.min <= range1.max && range1.min <= range0.max) ==> r is None,
{
    if range0.min <= range1.max && range1.min <= range0.max {
        Option::Some(
            if range0.max <= range1.max {
                range0.max
            } else {
                range1.max
            },
        )
    } else {
        Option::None
    }
}

/// The first entry for a message type in an advertised version table.
pub open spec fn range_for(s: Seq<(ApiKey, ApiVersionRange)>, key: ApiKey) -> Option<
    ApiVersionRange,
>
    decreases s.len(),
{
    if s.len() == 0 {
        Option::None
    } else if s[0].0 == key {
        Option::Some(s[0].1)
    } else {
        range_for(s.drop_first(), key)
    }
}

/// Negotiate the version for one exchange from the remote's advertised
/// table and the caller's own range: fails with `NoVersionMatch` when the
/// remote does not advertise the message type, or advertises a range
/// disjoint from the caller's.
pub fn negotiate_version(
    server_ranges: &Vec<(ApiKey, ApiVersionRange)>,
    api_key: ApiKey,
    own_range: ApiVersionRange,
) -> (r: Result<ApiVersion, RequestError>)
    ensures
        ({
            match range_for(server_ranges@, api_key) {
                Option::Some(remote) => {
                    if remote.min <= own_range.max && own_range.min <= remote.max {
                        r == Ok::<ApiVersion, RequestError>(
                            if remote.max <= own_range.max {
                                remote.max
                            } else {
                                own_range.max
                            },
                        )
                    } else {
                        r == Err::<ApiVersion, RequestError>(RequestError::NoVersionMatch { api_key })
                    }
                },
                Option::None => r == Err::<ApiVersion, RequestError>(
                    RequestError::NoVersionMatch { api_key },
                ),
            }
        }),
{
    let mut k: usize = 0;
    proof {
        assert(server_ranges@.skip(0) =~= server_ranges@);
    }
    while k < server_ranges.len()
        invariant
            k <= server_ranges@.len(),
            range_for(server_ranges@, api_key) == range_for(
                server_ranges@.skip(k as int),
                api_key,
            ),
        decreases server_ranges@.len() - k,
    {
        proof {
            assert(server_ranges@.skip(k as int)[0] == server_ranges@[k as int]);
            assert(server_ranges@.skip(k as int).drop_first() =~= server_ranges@.skip(k + 1));
        }
        if server_ranges[k].0 == api_key {
            let remote = server_ranges[k].1;
            match match_versions(remote, own_range) {
                Option::Some(v) => {
                    return Ok(v);
                },
                Option::None => {
                    return Err(RequestError::NoVersionMatch { api_key });
                },
            }
        }
        k = k + 1;
    }
    proof {
        assert(server_ranges@.skip(server_ranges@.len() as int).len() == 0);
    }
    Err(RequestError::NoVersionMatch { api_key })
}

/// Put one encoded message on the wire's framing: a four-byte big-endian
/// length, then the payload.
pub fn frame_payload(payload: &Vec<u8>) -> (r: Result<Vec<u8>, SerializationError>)
    ensures
        payload@.len() <= u32::MAX ==> (r matches Ok(v) && v@ == be_enc(payload@.len(), 4)
            + payload@),
        payload@.len() > u32::MAX ==> r == Err::<Vec<u8>, SerializationError>(
            SerializationError::Overflow,
        ),
{
    if payload.len() as u64 > (u32::MAX as u64) {
        return Err(SerializationError::Overflow);
    }
    let mut out: Vec<u8> = Vec::new();
    crate::protocol::serializer::serialize_be(payload.len() as u64, 4, &mut out);
    crate::protocol::serializer::push_bytes(&mut out, payload.as_slice());
    proof {
        assert(out@ =~= be_enc(payload@.len(), 4) + payload@);
    }
    Ok(out)
}

/// The descending sequence of upper bounds the version-discovery
/// handshake probes: the remote's advertised table is itself learned via
/// that message, so the client starts at its own highest version and
/// steps down until the remote accepts.
pub fn probe_upper_bounds(range: ApiVersionRange) -> (r: Vec<ApiVersion>)
    requires
        range.wf(),
    ensures
        r@.len() == range.max - range.min + 1,
        forall|i: int| 0 <= i < r@.len() ==> #[trigger] r@[i] == range.max - i,
{
    let mut out: Vec<ApiVersion> = Vec::new();
    let n: usize = ((range.max as i32) - (range.min as i32) + 1) as usize;
    let mut i: usize = 0;
    while i < n
        invariant
            range.min <= range.max,
            n == range.max - range.min + 1,
            i <= n,
            out@.len() == i,
            forall|j: int| 0 <= j < out@.len() ==> #[trigger] out@[j] == range.max - j,
        decreases n - i,
    {
        let v: i16 = ((range.max as i32) - (i as i32)) as i16;
        out.push(v);
        i = i + 1;
    }
    out
}

/// Completing one exchange never disturbs another: removing the pending
/// entry for one correlation id leaves every other pending exchange in
/// place, with its recorded expectations intact. With the frame-handling
/// contract, responses delivered in any order therefore each resolve
/// their own caller.
pub proof fn lemma_correlation_isolates(pending: Seq<(i32, ActiveRequest)>, a: i32, b: i32)
    requires
        pending_ids_unique(pending),
        has_pending(pending, a),
        has_pending(pending, b),
        a != b,
    ensures
        has_pending(pending.remove(idx_of(pending, b)), a),
        pending_ids_unique(pending.remove(idx_of(pending, b))),
        pending.remove(idx_of(pending, b))[idx_of(pending.remove(idx_of(pending, b)), a)]
            == pending[idx_of(pending, a)],
{
    let kb = idx_of(pending, b);
    assert(0 <= kb < pending.len() && pending[kb].0 == b);
    let ka = idx_of(pending, a);
    assert(0 <= ka < pending.len() && pending[ka].0 == a);
    assert(ka != kb);
    let p2 = pending.remove(kb);
    let ka2: int = if ka < kb {
        ka
    } else {
        ka - 1
    };
    assert(p2[ka2] == pending[ka]);
    assert(has_pending(p2, a));
    assert forall|i: int, j: int|
        0 <= i < j < p2.len() implies (#[trigger] p2[i]).0 != (#[trigger] p2[j]).0 by {
        let pi: int = if i < kb {
            i
        } else {
            i + 1
        };
        let pj: int = if j < kb {
            j
        } else {
            j + 1
        };
        assert(pending[pi].0 != pending[pj].0);
    }
    let ka2c = idx_of(p2, a);
    assert(0 <= ka2c < p2.len() && p2[ka2c].0 == a);
    if ka2c != ka2 {
        assert(p2[ka2c].0 != p2[ka2].0);
    }
    assert(ka2c == ka2);
}

} // verus!
