//! Wall-clock access. The current time cannot be pinned down by a contract,
//! so callers take the returned value as an ordinary input.

use vstd::prelude::*;

verus! {

/// Current wall-clock time in whole seconds since the unix epoch; zero when
/// the clock reads before the epoch.
///
/// Relies on std::time::SystemTime::now, with the result converted to
/// seconds through duration_since(UNIX_EPOCH).
#[verifier::external_body]
pub fn current_unix_timestamp() -> u64 {
    std::time::SystemTime::now().duration_since(std::time::UNIX_EPOCH).unwrap_or_default().as_secs()
}

} // verus!
