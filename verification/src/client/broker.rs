use vstd::prelude::*;

verus! {

/// The address of one broker together with the client identity used when
/// talking to it. The surrounding transport code opens the socket.
#[derive(Debug, Clone, PartialEq, Eq)]
pub struct BrokerConnection {
    pub broker: String,
    pub client_id: Option<String>,
}

impl BrokerConnection {
    /// Record a broker address and the optional client identity.
    pub fn describe(broker: String, client_id: Option<String>) -> (r: Self)
        ensures
            r.broker == broker,
            r.client_id == client_id,
    {
        BrokerConnection { broker, client_id }
    }
}

} // verus!
