//! An alternate pool design: a single shared, priority-ordered pending list
//! (a heap behind one lock) giving strict FIFO within each priority, instead
//! of one lock-free LIFO stack per level. Sketched and never wired into a
//! running path; kept here as its data model and construction.
use vstd::prelude::*;

verus! {

/// A message tagged with the priority it was submitted at. The heap orders
/// entries by priority alone; the message plays no part in the order.
pub struct Prioritized<Priority, Msg> {
    pub priority: Priority,
    pub msg: Msg,
}

/// The alternate pool: a worker count and the one shared pending list.
pub struct PriorityThreadPool<Priority, Msg> {
    workers: usize,
    queue: Vec<Prioritized<Priority, Msg>>,
}

impl<Priority, Msg> PriorityThreadPool<Priority, Msg> {
    /// How many workers the pool is built for.
    pub closed spec fn worker_count(&self) -> int {
        self.workers as int
    }

    /// The pending entries.
    pub closed spec fn pending(&self) -> Seq<Prioritized<Priority, Msg>> {
        self.queue@
    }

    /// A pool for `workers` workers with nothing pending.
    pub fn new(workers: usize) -> (r: Self)
        ensures
            r.worker_count() == workers as int,
            r.pending() == Seq::<Prioritized<Priority, Msg>>::empty(),
    {
        PriorityThreadPool { workers, queue: Vec::new() }
    }

    /// Executable view of the worker count.
    pub fn workers(&self) -> (r: usize)
        ensures
            r as int == self.worker_count(),
    {
        self.workers
    }

    /// How many entries are pending.
    pub fn pending_len(&self) -> (r: usize)
        ensures
            r as int == self.pending().len(),
    {
        self.queue.len()
    }
}

} // verus!
