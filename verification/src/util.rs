//! The saturating decrement used on the pool's pending-job counter.
use vstd::prelude::*;

verus! {

/// One atomic saturating subtraction on a shared counter, returning the value
/// observed before the operation and the value written.
///
/// The real counter is a shared atomic mutated through a CAS retry loop; this
/// is the step that loop takes at its linearization point. Decrementing a
/// counter already at `0` leaves it at `0` rather than wrapping around.
pub fn atomic_saturating_sub(counter: &mut usize, sub: usize) -> (r: (usize, usize))
    ensures
        r.0 == *old(counter),
        r.1 == *final(counter),
        *final(counter) as int == if *old(counter) >= sub {
            *old(counter) - sub
        } else {
            0int
        },
{
    let observed: usize = *counter;
    let written: usize = if observed >= sub {
        observed - sub
    } else {
        0
    };
    *counter = written;
    (observed, written)
}

} // verus!
