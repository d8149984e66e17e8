//! Drawing the random node indices and operation arguments of a demo run.

use rand::Rng;
use vstd::prelude::*;

verus! {

/// `rand::thread_rng().gen_range(low..high)` (rand 0.8): a number drawn
/// from the thread's generator, within `low..high`. The call panics on an
/// empty range, which `requires` leaves out; which number comes back
/// depends on chance and is left unsaid beyond the range.
#[verifier::external_body]
fn sample_range(low: u16, high: u16) -> (r: u16)
    requires
        low < high,
    ensures
        low <= r < high,
{
    rand::thread_rng().gen_range(low..high)
}

/// A random number in `low..high`.
pub fn get_rand(low: u16, high: u16) -> (r: u16)
    requires
        low < high,
    ensures
        low <= r < high,
{
    sample_range(low, high)
}

} // verus!
