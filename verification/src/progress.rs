//! The decision of a progress bar's display loop.
use vstd::prelude::*;

verus! {

/// One step of a progress bar that counts up to `max`: the count after an
/// increment of `increment` on `done`, and whether the bar is then full,
/// which ends the display.
pub fn progress_step(done: usize, increment: usize, max: usize) -> (r: (usize, bool))
    requires
        done + increment <= usize::MAX,
    ensures
        r.0 == done + increment,
        r.1 == (done + increment == max),
{
    let next = done + increment;
    (next, next == max)
}

} // verus!
