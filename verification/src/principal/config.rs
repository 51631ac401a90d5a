//! The principal's configuration, and the addresses derived from it.
use vstd::prelude::*;
use vstd::string::*;

verus! {

/// The heartbeat interval, in milliseconds, when the configuration names none.
pub fn default_heartbeat_interval() -> (r: u64)
    ensures
        r == 500,
{
    500
}

pub struct PrincipalConfig {
    pub maestro_server_address: String,
    pub heartbeat_interval_ms: u64,
}

impl PrincipalConfig {
    /// Where heartbeats are posted.
    pub fn heartbeat_url(&self) -> (r: String)
        ensures
            r@ == self.maestro_server_address@ + "/api/v1/principals"@,
    {
        let mut r = self.maestro_server_address.clone();
        r.append("/api/v1/principals");
        r
    }

    /// The stream of the notes assigned to this principal (host `me`).
    pub fn notes_watch_url(&self) -> (r: String)
        ensures
            r@ == self.maestro_server_address@ + "/api/v1/notes?watch=true&field_selector=host=me"@,
    {
        let mut r = self.maestro_server_address.clone();
        r.append("/api/v1/notes?watch=true&field_selector=host=me");
        r
    }
}

} // verus!
