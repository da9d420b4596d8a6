use vstd::prelude::*;

verus! {

/// A client that talks to peers listening on `port`.
pub struct Client {
    pub port: u16,
}

impl Client {
    /// Creates a client for peers listening on `port`.
    pub fn new(port: u16) -> (client: Self)
        ensures
            client.port == port,
    {
        Client { port }
    }
}

} // verus!
