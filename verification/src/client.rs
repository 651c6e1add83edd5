//! The client: broker descriptions, the multiplexed connection state, and
//! the decisions around opening connections and spreading requests.

pub mod broker;
pub mod stream;

use vstd::prelude::*;

use crate::client::broker::BrokerConnection;
use rand::seq::SliceRandom;

verus! {

/// A client holding one connection per broker.
pub struct KafkaClient {
    pub brokers: Vec<BrokerConnection>,
}

/// The configuration gathered before any connection is opened; the
/// surrounding transport code turns it into a running client.
pub struct ClientBuilder {
    pub brokers: Vec<String>,
    pub client_id: Option<String>,
    pub max_message_size: usize,
}

impl KafkaClient {
    /// Begin building a client for the given brokers, with no client
    /// identity and the default message size cap of 100 MB.
    pub fn new(brokers: Vec<String>) -> (r: ClientBuilder)
        ensures
            r.brokers == brokers,
            r.client_id is None,
            r.max_message_size == 104857600,
    {
        ClientBuilder { brokers, client_id: Option::None, max_message_size: 100 * 1024 * 1024 }
    }
}

/// Relies on rand's `SliceRandom::shuffle`: it permutes the slice in
/// place by swapping elements, so the length and the multiset of elements
/// are unchanged; which permutation comes out is up to the generator.
#[verifier::external_body]
fn shuffle_indices(v: &mut Vec<usize>)
    ensures
        final(v)@.len() == old(v)@.len(),
        final(v)@.to_multiset() == old(v)@.to_multiset(),
{
    v.shuffle(&mut rand::thread_rng());
}

/// The order in which the brokers are visited when a request could go to
/// any of them: a permutation of all broker indices, chosen at random so
/// the load spreads.
pub fn broker_visit_order(n: usize) -> (r: Vec<usize>)
    ensures
        r@.len() == n,
        r@.to_multiset() == Seq::new(n as nat, |i: int| i as usize).to_multiset(),
{
    let mut v: Vec<usize> = Vec::new();
    let mut i: usize = 0;
    while i < n
        invariant
            i <= n,
            v@ == Seq::new(i as nat, |k: int| k as usize),
        decreases n - i,
    {
        v.push(i);
        proof {
            assert(v@ =~= Seq::new((i + 1) as nat, |k: int| k as usize));
        }
        i = i + 1;
    }
    shuffle_indices(&mut v);
    v
}

} // verus!
