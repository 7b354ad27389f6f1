//! Uniform sampling of integers from a half-open range.

use rand::Rng;
use vstd::prelude::*;

verus! {

/// The range `[low, high)` holds no integer: `low >= high`.
#[derive(Debug, Clone, Copy, PartialEq, Eq, Structural)]
pub struct InvalidRange {
    pub low: i32,
    pub high: i32,
}

/// Calls `rand::Rng::random_range` on the thread-local generator `rand::rng()`
/// with the range `low..high`.
///
/// Trusted: for a non-empty range the sample lies in `[low, high)`. The call
/// panics on an empty range, which the precondition excludes. Nothing is
/// claimed about which value of the range comes back. The generator seeds
/// itself from the operating system on its first use in a thread and panics
/// if that source fails; no precondition can exclude that.
#[verifier::external_body]
pub(crate) fn random_range(low: i32, high: i32) -> (r: i32)
    requires
        low < high,
    ensures
        low <= r < high,
{
    rand::rng().random_range(low..high)
}

/// Samples an integer uniformly from `[low, high)`.
///
/// Fails, without sampling, exactly when the range is empty or inverted.
pub fn sample(low: i32, high: i32) -> (r: Result<i32, InvalidRange>)
    ensures
        low < high <==> r is Ok,
        r matches Ok(v) ==> low <= v < high,
        r matches Err(e) ==> e == (InvalidRange { low, high }),
{
    if low < high {
        Ok(random_range(low, high))
    } else {
        Err(InvalidRange { low, high })
    }
}

} // verus!
