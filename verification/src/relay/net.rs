//! Tunables of the TCP link bridge. The bridge itself (sockets, handshakes,
//! timeouts) runs outside the library.
use vstd::prelude::*;
use core::time::Duration;

verus! {

/// Default per-read timeout in seconds: slow-loris peers cannot hold a task indefinitely.
pub const DEFAULT_LINK_READ_TIMEOUT_SECS: u64 = 30;

/// Default cap on concurrent inbound TCP connections per listener.
pub const DEFAULT_MAX_INBOUND_CONNECTIONS: usize = 256;

/// Calls `core::time::Duration::from_secs`. The duration is opaque to the
/// library, so nothing is claimed of it.
#[verifier::external_body]
fn duration_from_secs(secs: u64) -> (d: Duration) {
    Duration::from_secs(secs)
}

/// `Duration` is `Copy`; its derived `clone` gives back the same value.
pub assume_specification[<Duration as Clone>::clone](d: &Duration) -> (r: Duration)
    ensures
        r == *d,
;

/// Tunables for the TCP link bridge (read timeout, connection cap).
#[derive(Clone, Debug)]
pub struct LinkBridgeConfig {
    pub read_timeout: Duration,
    pub max_inbound_connections: usize,
}

impl Default for LinkBridgeConfig {
    /// The default read timeout (`DEFAULT_LINK_READ_TIMEOUT_SECS`) and connection cap.
    fn default() -> (r: Self)
        ensures
            r.max_inbound_connections == DEFAULT_MAX_INBOUND_CONNECTIONS,
    {
        LinkBridgeConfig {
            read_timeout: duration_from_secs(DEFAULT_LINK_READ_TIMEOUT_SECS),
            max_inbound_connections: DEFAULT_MAX_INBOUND_CONNECTIONS,
        }
    }
}

} // verus!
