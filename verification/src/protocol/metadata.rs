//! The cluster metadata message types: carried data only, an instance of
//! the codec rather than part of it.

use vstd::prelude::*;

use crate::protocol::error::Error;

verus! {

/// A request for metadata about a set of topics.
#[derive(Debug, Clone, PartialEq, Eq)]
pub struct MetadataRequest {
    pub topics: Vec<MetadataRequestTopic>,
    pub allow_auto_topic_creation: Option<bool>,
}

/// One topic named in a metadata request.
#[derive(Debug, Clone, PartialEq, Eq)]
pub struct MetadataRequestTopic {
    pub name: String,
}

impl MetadataRequest {
    /// A request naming the given topics, with automatic topic creation
    /// left unset.
    pub fn for_topics(topics: Vec<String>) -> (r: Self)
        ensures
            r.allow_auto_topic_creation is None,
            r.topics@.len() == topics@.len(),
            forall|i: int| 0 <= i < topics@.len() ==> (#[trigger] r.topics@[i]).name == topics@[i],
    {
        let mut rest = topics;
        let mut taken: Vec<MetadataRequestTopic> = Vec::new();
        let ghost all = rest@;
        while rest.len() > 0
            invariant
                all == topics@,
                taken@.len() + rest@.len() == all.len(),
                rest@ =~= all.skip(taken@.len() as int),
                forall|i: int| 0 <= i < taken@.len() ==> (#[trigger] taken@[i]).name == all[i],
            decreases rest@.len(),
        {
            let name = rest.remove(0);
            proof {
                assert(all.skip(taken@.len() as int)[0] == all[taken@.len() as int]);
            }
            taken.push(MetadataRequestTopic { name });
            proof {
                assert(rest@ =~= all.skip(taken@.len() as int));
            }
        }
        MetadataRequest { topics: taken, allow_auto_topic_creation: Option::None }
    }
}

/// A broker's metadata response.
#[derive(Debug, PartialEq, Eq, Clone)]
pub struct MetadataResponse {
    /// The duration in milliseconds for which the request was throttled
    /// due to a quota violation, or zero. Added in version 3.
    pub throttle_time_ms: Option<i32>,
    /// Each broker in the response.
    pub brokers: Vec<MetadataResponseBroker>,
    /// The cluster id the responding broker belongs to. Added in version 2.
    pub cluster_id: Option<String>,
    /// The id of the controller broker. Added in version 1.
    pub controller_id: Option<i32>,
    /// Each topic in the response.
    pub topics: Vec<MetadataResponseTopic>,
}

/// One broker of a metadata response.
#[derive(Debug, PartialEq, Eq, Clone)]
pub struct MetadataResponseBroker {
    /// The broker id.
    pub node_id: i32,
    /// The broker hostname.
    pub host: String,
    /// The broker port.
    pub port: i32,
    /// The broker's rack. Added in version 1.
    pub rack: Option<String>,
}

/// One topic of a metadata response.
#[derive(Debug, PartialEq, Eq, Clone)]
pub struct MetadataResponseTopic {
    /// The topic error, if any.
    pub error: Option<Error>,
    /// The topic name.
    pub name: String,
    /// True if the topic is internal.
    pub is_internal: Option<bool>,
    /// Each partition in the topic.
    pub partitions: Vec<MetadataResponsePartition>,
}

/// One partition of a metadata response topic.
#[derive(Debug, PartialEq, Eq, Clone)]
pub struct MetadataResponsePartition {
    /// The partition error, if any.
    pub error: Option<Error>,
    /// The partition index.
    pub partition_index: i32,
    /// The id of the leader broker.
    pub leader_id: i32,
    /// The set of all nodes that host this partition.
    pub replica_nodes: Vec<i32>,
    /// The set of all nodes in sync with the leader for this partition.
    pub isr_nodes: Vec<i32>,
}

} // verus!
