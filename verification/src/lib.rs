//! A priority-ordered task scheduler built on a lock-free concurrent stack
//! with deferred (epoch-style) memory reclamation, backing a fixed-size
//! worker-thread pool.
//!
//! The verified core models the concurrent engine as explicit state:
//! * `dropper`: the epoch guard — an active-section counter plus per-thread
//!   retirement lists; retired nodes are destroyed only at quiescent points.
//! * `stack`: the lock-free LIFO stack, modelled as an arena of nodes
//!   addressed by stable indices, so that "unlinked but not yet freed" is an
//!   explicit named state rather than a dangling pointer.
//! * `queue`: strict-priority multiplexing over one stack per priority level.
//! * `pool`: the worker-pool state machine — pending counter, parked flags,
//!   stop flag — whose decision functions drive the (unverified) OS threads.
//! * `util`: the saturating atomic counter decrement.
//! * `heap`: a sketched alternate pool design keeping a single ordered list.
//!
//! Each operation of the model is one atomic step: it stands for the
//! linearization point of the corresponding lock-free operation, at which a
//! CAS retry loop finally succeeds.
use vstd::prelude::*;

pub mod dropper;
pub mod heap;
pub mod pool;
pub mod queue;
pub mod stack;
pub mod util;

verus! {

/// Capability a caller's priority type must implement: a dense mapping onto
/// the indices `[0, COUNT)`, where index `COUNT - 1` is the highest priority.
pub trait Priority: Sized {
    /// How many priority levels there are.
    const COUNT: usize;

    /// The level this priority value maps to.
    spec fn spec_index(&self) -> int;

    /// Executable form of [`Priority::spec_index`]. Every priority value maps
    /// to an index strictly below the level count.
    fn index(&self) -> (r: usize)
        ensures
            r as int == self.spec_index(),
            r < Self::COUNT,
    ;
}

/// A ready-made three-level priority, highest index served first.
#[derive(Clone, Copy, PartialEq, Eq, Structural, Debug)]
pub enum Level {
    Low,
    Medium,
    High,
}

impl Priority for Level {
    const COUNT: usize = 3;

    open spec fn spec_index(&self) -> int {
        match self {
            Level::Low => 0,
            Level::Medium => 1,
            Level::High => 2,
        }
    }

    fn index(&self) -> (r: usize) {
        match self {
            Level::Low => 0,
            Level::Medium => 1,
            Level::High => 2,
        }
    }
}

} // verus!
