//! The wall clock.

use serde_json::Number;
use std::time::UNIX_EPOCH;
use vstd::prelude::*;

verus! {

/// Calls `SystemTime::elapsed` on `UNIX_EPOCH`, which reads the system clock
/// and gives the time since the epoch, and hands its seconds, with their
/// fraction, to `serde_json::Number::from_f64`. `None` where the clock stands
/// before the epoch. Nothing is claimed of the number: it is whatever the
/// clock shows.
#[verifier::external_body]
pub(crate) fn seconds_since_epoch() -> (r: Option<Number>) {
    let elapsed = UNIX_EPOCH.elapsed().ok()?;
    Number::from_f64(elapsed.as_secs_f64())
}

} // verus!
