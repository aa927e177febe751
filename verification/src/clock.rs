//! The one nondeterministic input: the current time.

use vstd::prelude::*;

verus! {

/// Relies on `std::time::SystemTime::now` and `duration_since(UNIX_EPOCH)`:
/// the seconds of the current time since the Unix epoch, or zero if the
/// system clock stands before the epoch. Nothing is promised of the value:
/// every caller must hold for every outcome.
#[verifier::external_body]
pub(crate) fn current_epoch_seconds() -> u64 {
    match std::time::SystemTime::now().duration_since(std::time::UNIX_EPOCH) {
        Ok(d) => d.as_secs(),
        Err(_) => 0,
    }
}

} // verus!
