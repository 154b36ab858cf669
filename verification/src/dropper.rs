//! The epoch guard: deferred reclamation for nodes popped off the lock-free
//! stack.
//!
//! A process-wide (per stack) counter records how many critical sections
//! ("pauses") are active. A popped node is destroyed at once only when the
//! retiring thread holds the sole active section; otherwise its destruction is
//! deferred onto the retiring thread's own retirement list, drained when the
//! counter falls back to zero. Threads are identified by a dense slot index,
//! so the per-thread lists form a slot map owned one slot per thread.
//!
//! In this model "destroying" a node means returning it to the caller, who
//! owns the arena and marks the slot freed; the contracts below say exactly
//! which retired values come back, and when.
use vstd::prelude::*;

verus! {

/// A thread-confined list of retired values awaiting destruction.
pub struct GarbageVec<T>(Vec<T>);

impl<T> View for GarbageVec<T> {
    type V = Seq<T>;

    closed spec fn view(&self) -> Seq<T> {
        self.0@
    }
}

impl<T> GarbageVec<T> {
    /// Defer one more value.
    pub fn push(&mut self, value: T)
        ensures
            final(self)@ == old(self)@.push(value),
    {
        self.0.push(value);
    }

    /// Forget every deferred value.
    pub fn clear(&mut self)
        ensures
            final(self)@ == Seq::<T>::empty(),
    {
        self.0 = Vec::new();
    }

    /// How many values are deferred on this list.
    pub fn len(&self) -> (r: usize)
        ensures
            r as int == self@.len(),
    {
        self.0.len()
    }

    /// Empty the list, handing its contents back for destruction.
    fn take_all(&mut self) -> (r: Vec<T>)
        ensures
            r@ == old(self)@,
            final(self)@ == Seq::<T>::empty(),
    {
        let mut out: Vec<T> = Vec::new();
        core::mem::swap(&mut out, &mut self.0);
        out
    }
}

impl<T> Default for GarbageVec<T> {
    /// A fresh, empty retirement list.
    fn default() -> (r: Self)
        ensures
            r@ == Seq::<T>::empty(),
    {
        GarbageVec(Vec::new())
    }
}

/// The guard itself: the active-section counter plus one retirement list per
/// thread slot.
pub struct Dropper<T> {
    counter: usize,
    garbage: Vec<GarbageVec<T>>,
}

impl<T> Dropper<T> {
    /// How many critical sections are active.
    pub closed spec fn count(&self) -> int {
        self.counter as int
    }

    /// The retirement list of thread slot `tid`; a slot never touched is
    /// empty.
    pub closed spec fn garbage_at(&self, tid: int) -> Seq<T> {
        if 0 <= tid < self.garbage@.len() {
            self.garbage@[tid]@
        } else {
            Seq::<T>::empty()
        }
    }

    /// The active-section count is a machine counter: never negative, never
    /// beyond the machine word.
    pub proof fn lemma_count_in_range(&self)
        ensures
            0 <= self.count() <= usize::MAX as int,
    {
    }

    /// A guard with no active section and nothing deferred.
    pub fn new() -> (r: Self)
        ensures
            r.count() == 0,
            forall|t: int| #[trigger] r.garbage_at(t) == Seq::<T>::empty(),
    {
        Dropper { counter: 0, garbage: Vec::new() }
    }

    /// Grow the slot map so that `tid` has a list of its own.
    fn ensure_slot(&mut self, tid: usize)
        ensures
            final(self).count() == old(self).count(),
            forall|t: int| #[trigger] final(self).garbage_at(t) == old(self).garbage_at(t),
            tid < final(self).garbage@.len(),
    {
        while self.garbage.len() <= tid
            invariant
                self.counter == old(self).counter,
                self.garbage@.len() >= old(self).garbage@.len(),
                forall|t: int|
                    0 <= t < old(self).garbage@.len() ==> #[trigger] self.garbage@[t]
                        == old(self).garbage@[t],
                forall|t: int|
                    old(self).garbage@.len() <= t < self.garbage@.len()
                        ==> #[trigger] self.garbage@[t]@ == Seq::<T>::empty(),
            decreases tid + 1 - self.garbage@.len(),
        {
            self.garbage.push(GarbageVec::default());
        }
        assert forall|t: int| #[trigger] final(self).garbage_at(t) == old(self).garbage_at(t) by {
            if 0 <= t < old(self).garbage@.len() {
            } else if 0 <= t < self.garbage@.len() {
                assert(self.garbage@[t]@ == Seq::<T>::empty());
            }
        }
    }

    /// Enter a critical section. The real counter is bumped by a CAS retry
    /// loop that aborts rather than let the count wrap; callers keep the
    /// count below that limit.
    pub fn pause(&mut self)
        requires
            old(self).count() < usize::MAX as int,
        ensures
            final(self).count() == old(self).count() + 1,
            forall|t: int| #[trigger] final(self).garbage_at(t) == old(self).garbage_at(t),
    {
        self.counter = self.counter + 1;
    }

    /// Retire `value` from inside an active critical section held by thread
    /// slot `tid`. When that section is the only active one, the value is
    /// destroyed at once together with everything this thread had deferred:
    /// all of it is returned. Otherwise nothing may be destroyed yet and the
    /// value joins this thread's retirement list.
    pub fn queue_drop(&mut self, tid: usize, value: T) -> (freed: Vec<T>)
        requires
            old(self).count() >= 1,
        ensures
            final(self).count() == old(self).count(),
            old(self).count() == 1 ==> freed@ == old(self).garbage_at(tid as int).push(value)
                && final(self).garbage_at(tid as int) == Seq::<T>::empty(),
            old(self).count() != 1 ==> freed@ == Seq::<T>::empty()
                && final(self).garbage_at(tid as int) == old(self).garbage_at(tid as int).push(
                value),
            forall|t: int|
                t != tid as int ==> #[trigger] final(self).garbage_at(t) == old(self).garbage_at(t),
            freed@.len() > 0 ==> old(self).count() == 1,
    {
        self.ensure_slot(tid);
        let ghost mid = *self;
        if self.counter == 1 {
            let slot = &mut self.garbage[tid];
            let mut out = slot.take_all();
            out.push(value);
            assert(self.garbage@ =~= mid.garbage@.update(tid as int, self.garbage@[tid as int]));
            assert(out@ == mid.garbage_at(tid as int).push(value));
            assert(self.garbage_at(tid as int) == Seq::<T>::empty());
            proof {
                self.lemma_frame_but(mid, tid);
            }
            out
        } else {
            let slot = &mut self.garbage[tid];
            slot.push(value);
            assert(self.garbage@ =~= mid.garbage@.update(tid as int, self.garbage@[tid as int]));
            assert(self.garbage_at(tid as int) == mid.garbage_at(tid as int).push(value));
            proof {
                self.lemma_frame_but(mid, tid);
            }
            Vec::new()
        }
    }

    /// Leave a critical section held by thread slot `tid`. When this was the
    /// last active section, this thread's deferred values are drained and
    /// returned for destruction.
    pub fn unpause(&mut self, tid: usize) -> (freed: Vec<T>)
        requires
            old(self).count() >= 1,
        ensures
            final(self).count() == old(self).count() - 1,
            old(self).count() == 1 ==> freed@ == old(self).garbage_at(tid as int)
                && final(self).garbage_at(tid as int) == Seq::<T>::empty(),
            old(self).count() != 1 ==> freed@ == Seq::<T>::empty()
                && final(self).garbage_at(tid as int) == old(self).garbage_at(tid as int),
            forall|t: int|
                t != tid as int ==> #[trigger] final(self).garbage_at(t) == old(self).garbage_at(t),
            freed@.len() > 0 ==> final(self).count() == 0,
    {
        let was = self.counter;
        self.counter = self.counter - 1;
        if was == 1 {
            self.ensure_slot(tid);
            let ghost mid = *self;
            let slot = &mut self.garbage[tid];
            let out = slot.take_all();
            assert(self.garbage@ =~= mid.garbage@.update(tid as int, self.garbage@[tid as int]));
            assert(out@ == mid.garbage@[tid as int]@);
            assert(mid.garbage_at(tid as int) == old(self).garbage_at(tid as int));
            assert(out@ == old(self).garbage_at(tid as int));
            assert(self.garbage_at(tid as int) == Seq::<T>::empty());
            proof {
                self.lemma_frame_but(mid, tid);
            }
            out
        } else {
            Vec::new()
        }
    }

    /// When two guard states agree on every slot but `tid`'s, so do their
    /// per-slot retirement lists away from `tid`.
    proof fn lemma_frame_but(&self, prior: Self, tid: usize)
        requires
            self.garbage@.len() == prior.garbage@.len(),
            forall|t: int|
                0 <= t < self.garbage@.len() && t != tid as int ==> #[trigger] self.garbage@[t]
                    == prior.garbage@[t],
        ensures
            forall|t: int|
                t != tid as int ==> #[trigger] self.garbage_at(t) == prior.garbage_at(t),
    {
        assert forall|t: int| t != tid as int implies #[trigger] self.garbage_at(t)
            == prior.garbage_at(t) by {
            if 0 <= t < self.garbage@.len() {
                assert(self.garbage@[t] == prior.garbage@[t]);
            }
        }
    }
}

} // verus!
