//! Configuration of the transport endpoints the orchestrating caller uses.

use vstd::prelude::*;

verus! {

/// Where the remote catalog service lives.
#[derive(Debug)]
pub struct SyncConfig {
    pub uri: String,
}

impl SyncConfig {
    /// The endpoint serving all-mode sync payloads.
    pub fn get_sync_all(self) -> (r: String)
        ensures
            r@ == self.uri@ + "/sync/all"@,
    {
        self.uri.concat("/sync/all")
    }

    /// The endpoint serving select-mode sync payloads.
    pub fn get_sync_select(self) -> (r: String)
        ensures
            r@ == self.uri@ + "/sync/schools"@,
    {
        self.uri.concat("/sync/schools")
    }
}

impl Default for SyncConfig {
    /// The local development endpoint.
    fn default() -> (c: Self)
        ensures
            c.uri@ == "http://localhost:3000"@,
    {
        SyncConfig { uri: String::from_str("http://localhost:3000") }
    }
}

} // verus!
