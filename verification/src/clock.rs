//! The one reading of the system clock that the scan logic makes.

use vstd::prelude::*;

verus! {

/// Milliseconds since boot, cut to 32 bits: `embassy_time::Instant::now()`
/// read with `as_millis` and truncated with `as u32`.
///
/// The contract states nothing of the result: it depends on when the call is
/// made, so every caller is verified for every value that can come back.
#[verifier::external_body]
pub(crate) fn now_ms() -> u32 {
    embassy_time::Instant::now().as_millis() as u32
}

} // verus!
