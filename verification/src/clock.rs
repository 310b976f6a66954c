//! The one place the library reads the wall clock.

use vstd::prelude::*;

verus! {

/// Relies on `std::time::SystemTime::now`: the current wall-clock time,
/// expressed as whole milliseconds since the Unix epoch (zero when the
/// clock reads before the epoch). Nothing is assumed of the value: every
/// caller must hold for an arbitrary timestamp.
#[verifier::external_body]
pub(crate) fn now_ms() -> u64 {
    match std::time::SystemTime::now().duration_since(std::time::UNIX_EPOCH) {
        Ok(d) => d.as_millis() as u64,
        Err(_) => 0,
    }
}

} // verus!
