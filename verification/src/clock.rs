//! Wall-clock time.
use vstd::prelude::*;

verus! {

/// Calls `SystemTime::now` and `duration_since(UNIX_EPOCH)`, returning whole
/// seconds (zero for a clock set before the epoch).
/// Nothing is claimed of the value: it depends on the machine's clock.
#[verifier::external_body]
pub(crate) fn unix_now_secs() -> u64 {
    match std::time::SystemTime::now().duration_since(std::time::UNIX_EPOCH) {
        Ok(d) => d.as_secs(),
        Err(_) => 0,
    }
}

} // verus!
