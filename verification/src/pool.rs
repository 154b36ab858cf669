//! The worker pool / scheduler: N workers draining the priority queue.
//!
//! The shared state is the pending-job counter, the per-worker parked flags,
//! the stop flag and the queue itself; in the running system they are atomics
//! and the workers are OS threads. The decisions those threads take — exit,
//! park, loop again, or run which job — are the verified step functions here;
//! the runtime shell around the library spawns the threads, parks and unparks
//! them, and feeds each worker's loop through [`ThreadPool::worker_step`].
use crate::queue::{highest_nonempty, lemma_highest_nonempty_correct, PriorityQueue};
use crate::stack::{popped, pushed};
use crate::util::atomic_saturating_sub;
use crate::Priority;
use vstd::prelude::*;

verus! {

/// What a worker's loop iteration decides to do.
pub enum WorkerStep<T> {
    /// The stop flag was up: leave the loop; the thread finishes.
    Exit,
    /// No pending work was recorded: block until woken.
    Park,
    /// The counter promised work but the queue had none visible yet (a
    /// submission's counter increment can precede its push becoming visible):
    /// not an error, loop again.
    Idle,
    /// A job was obtained: run it synchronously to completion, then report
    /// back through [`ThreadPool::finish_job`].
    Run(T),
}

/// The pool's shared state. The real pool also owns one join handle per
/// worker; handles, spawning and parking belong to the runtime shell.
pub struct ThreadPool<P: Priority, T> {
    jobs_queued: usize,
    should_stop: bool,
    waiting: Vec<bool>,
    queue: PriorityQueue<P, T>,
}

impl<P: Priority, T> ThreadPool<P, T> {
    /// How many submitted jobs have not yet been claimed by a worker.
    pub closed spec fn pending(&self) -> int {
        self.jobs_queued as int
    }

    /// Whether shutdown has been requested.
    pub closed spec fn stopping(&self) -> bool {
        self.should_stop
    }

    /// Each worker's is-parked flag.
    pub closed spec fn parked(&self) -> Seq<bool> {
        self.waiting@
    }

    /// The pending jobs, one LIFO sequence per priority level.
    pub closed spec fn jobs(&self) -> Seq<Seq<T>> {
        self.queue@
    }

    /// The queue underneath is well formed.
    pub closed spec fn wf(&self) -> bool {
        &&& self.queue.wf()
        &&& self.jobs().len() == P::COUNT as int
    }

    /// Machine headroom for one more submission: the pending counter is
    /// below its word-size limit.
    pub closed spec fn can_accept(&self) -> bool {
        self.pending() < usize::MAX as int
    }

    /// A pool of `nworkers` workers, none of them parked yet, nothing
    /// pending, shutdown not requested. The real constructor also spawns the
    /// worker threads; each of them first reports in through
    /// [`ThreadPool::worker_start`] and then iterates
    /// [`ThreadPool::worker_step`].
    pub fn new(nworkers: usize) -> (r: Self)
        ensures
            r.wf(),
            r.can_accept(),
            r.pending() == 0,
            !r.stopping(),
            r.jobs().len() == P::COUNT as int,
            r.parked().len() == nworkers as int,
            forall|i: int| 0 <= i < nworkers as int ==> !(#[trigger] r.parked()[i]),
            forall|i: int| 0 <= i < r.jobs().len() ==> (#[trigger] r.jobs()[i]).len() == 0,
    {
        let mut waiting: Vec<bool> = Vec::new();
        while waiting.len() < nworkers
            invariant
                waiting@.len() <= nworkers as int,
                forall|i: int| 0 <= i < waiting@.len() ==> !(#[trigger] waiting@[i]),
            decreases nworkers - waiting.len(),
        {
            waiting.push(false);
        }
        ThreadPool { jobs_queued: 0, should_stop: false, waiting, queue: PriorityQueue::new() }
    }

    /// A worker's first act on its thread: raise its is-parked flag, so that
    /// the startup barrier can observe the pool quiescent.
    pub fn worker_start(&mut self, ix: usize)
        requires
            (ix as int) < old(self).parked().len(),
        ensures
            final(self).wf() == old(self).wf(),
            final(self).parked() == old(self).parked().update(ix as int, true),
            final(self).pending() == old(self).pending(),
            final(self).stopping() == old(self).stopping(),
            final(self).jobs() == old(self).jobs(),
            final(self).can_accept() == old(self).can_accept(),
    {
        self.waiting.set(ix, true);
    }

    /// The startup barrier's test: true exactly when every worker reports
    /// parked. The barrier itself spin-waits on this until it holds.
    pub fn all_ready(&self) -> (r: bool)
        ensures
            r == forall|i: int| 0 <= i < self.parked().len() ==> #[trigger] self.parked()[i],
    {
        let mut ix: usize = 0;
        while ix < self.waiting.len()
            invariant
                ix as int <= self.parked().len(),
                forall|i: int| 0 <= i < ix as int ==> #[trigger] self.parked()[i],
            decreases self.parked().len() - ix,
        {
            if !self.waiting[ix] {
                assert(!self.parked()[ix as int]);
                return false;
            }
            ix = ix + 1;
        }
        true
    }

    /// Request shutdown: raise the stop flag. Each worker leaves its loop the
    /// next time it checks the flag; a parked worker must still be woken to
    /// see it.
    pub fn signal_stop(&mut self)
        ensures
            final(self).stopping(),
            final(self).wf() == old(self).wf(),
            final(self).pending() == old(self).pending(),
            final(self).parked() == old(self).parked(),
            final(self).jobs() == old(self).jobs(),
            final(self).can_accept() == old(self).can_accept(),
    {
        self.should_stop = true;
    }

    /// Best-effort wake: the workers whose is-parked flag is up right now,
    /// for the runtime shell to unpark. A worker that moves between the flag
    /// read and the unpark makes the wake spurious or missed; spurious wakes
    /// are harmless and a missed one is recovered by the next wake or by the
    /// worker re-checking for work before parking again.
    pub fn wake(&self) -> (to_wake: Vec<usize>)
        ensures
            forall|j: int|
                0 <= j < to_wake@.len() ==> ((#[trigger] to_wake@[j]) as int) < self.parked().len()
                    && self.parked()[to_wake@[j] as int],
            forall|i: int|
                0 <= i < self.parked().len() && #[trigger] self.parked()[i] ==> to_wake@.contains(
                    i as usize,
                ),
            forall|j1: int, j2: int| 0 <= j1 < j2 < to_wake@.len() ==> to_wake@[j1] < to_wake@[j2],
    {
        let mut out: Vec<usize> = Vec::new();
        let mut ix: usize = 0;
        while ix < self.waiting.len()
            invariant
                ix as int <= self.parked().len(),
                forall|j: int|
                    0 <= j < out@.len() ==> ((#[trigger] out@[j]) as int) < self.parked().len()
                        && self.parked()[out@[j] as int],
                forall|i: int|
                    0 <= i < ix as int && #[trigger] self.parked()[i] ==> out@.contains(i as usize),
                forall|j1: int, j2: int| 0 <= j1 < j2 < out@.len() ==> out@[j1] < out@[j2],
                forall|j: int| 0 <= j < out@.len() ==> ((#[trigger] out@[j]) as int) < ix as int,
            decreases self.parked().len() - ix,
        {
            let ghost before = out@;
            if self.waiting[ix] {
                out.push(ix);
            }
            ix = ix + 1;
            proof {
                assert forall|i: int|
                    0 <= i < ix as int && #[trigger] self.parked()[i] implies out@.contains(
                    i as usize,
                ) by {
                    if i < ix as int - 1 {
                        let j = choose|j: int|
                            0 <= j < before.len() && #[trigger] before[j] == i as usize;
                        assert(out@[j] == i as usize);
                    } else {
                        assert(out@.last() == i as usize);
                    }
                }
            }
        }
        out
    }

    /// Submit a job: record it on the pending counter, then push it at its
    /// priority's level. Waking a parked worker is a separate, explicit step
    /// ([`ThreadPool::wake`]).
    pub fn queue(&mut self, priority: &P, job: T)
        requires
            old(self).wf(),
            old(self).can_accept(),
        ensures
            final(self).wf(),
            final(self).pending() == old(self).pending() + 1,
            0 <= priority.spec_index() < final(self).jobs().len(),
            final(self).jobs().len() == old(self).jobs().len(),
            final(self).jobs() == old(self).jobs().update(
                priority.spec_index(),
                pushed(old(self).jobs()[priority.spec_index()], job),
            ),
            final(self).parked() == old(self).parked(),
            final(self).stopping() == old(self).stopping(),
    {
        self.jobs_queued = self.jobs_queued + 1;
        self.queue.push(priority, job);
    }

    /// One iteration of a worker's loop, for the worker at slot `ix`.
    ///
    /// With the stop flag up the worker exits. Otherwise it claims work by
    /// saturating-decrementing the pending counter: a pre-decrement value of
    /// zero means park; a positive one means pop the most urgent job — if one
    /// is visible, lower this worker's parked flag and run it, else just loop
    /// again.
    pub fn worker_step(&mut self, ix: usize) -> (step: WorkerStep<T>)
        requires
            old(self).wf(),
            (ix as int) < old(self).parked().len(),
        ensures
            final(self).wf(),
            final(self).stopping() == old(self).stopping(),
            final(self).parked().len() == old(self).parked().len(),
            final(self).jobs().len() == old(self).jobs().len(),
            old(self).stopping() ==> step is Exit && final(self).pending() == old(self).pending()
                && final(self).parked() == old(self).parked() && final(self).jobs() == old(self).jobs(),
            !old(self).stopping() && old(self).pending() == 0 ==> step is Park && final(self).pending() == 0 && final(self).parked() == old(self).parked() && final(self).jobs()
                == old(self).jobs(),
            !old(self).stopping() && old(self).pending() > 0 ==> final(self).pending() == old(self).pending() - 1 && (match highest_nonempty(old(self).jobs()) {
                Some(i) => step == WorkerStep::<T>::Run(old(self).jobs()[i][0]) && final(self).jobs() == old(self).jobs().update(i, popped(old(self).jobs()[i])) && final(self).parked() == old(self).parked().update(ix as int, false),
                None => step is Idle && final(self).jobs() == old(self).jobs() && final(self).parked() == old(self).parked(),
            }),
    {
        if self.should_stop {
            return WorkerStep::Exit;
        }
        let (was, _now) = atomic_saturating_sub(&mut self.jobs_queued, 1);
        if was > 0 {
            match self.queue.pop(ix) {
                Some(job) => {
                    proof {
                        lemma_highest_nonempty_correct(old(self).jobs());
                    }
                    self.waiting.set(ix, false);
                    WorkerStep::Run(job)
                },
                None => WorkerStep::Idle,
            }
        } else {
            WorkerStep::Park
        }
    }

    /// A worker that finished running its job raises its parked flag again
    /// before the next loop iteration.
    pub fn finish_job(&mut self, ix: usize)
        requires
            (ix as int) < old(self).parked().len(),
        ensures
            final(self).wf() == old(self).wf(),
            final(self).parked() == old(self).parked().update(ix as int, true),
            final(self).pending() == old(self).pending(),
            final(self).stopping() == old(self).stopping(),
            final(self).jobs() == old(self).jobs(),
    {
        self.waiting.set(ix, true);
    }

    /// Executable test of [`ThreadPool::can_accept`]: whether one more
    /// submission fits within the machine limits.
    pub fn can_accept_now(&self) -> (r: bool)
        ensures
            r == self.can_accept(),
    {
        self.jobs_queued < usize::MAX
    }

    /// Executable view of the pending counter.
    pub fn pending_count(&self) -> (r: usize)
        ensures
            r as int == self.pending(),
    {
        self.jobs_queued
    }

    /// Executable view of the stop flag.
    pub fn stop_requested(&self) -> (r: bool)
        ensures
            r == self.stopping(),
    {
        self.should_stop
    }

    /// How many workers the pool was built with.
    pub fn worker_count(&self) -> (r: usize)
        ensures
            r as int == self.parked().len(),
    {
        self.waiting.len()
    }

    /// Executable view of one worker's is-parked flag.
    pub fn is_parked(&self, ix: usize) -> (r: bool)
        requires
            (ix as int) < self.parked().len(),
        ensures
            r == self.parked()[ix as int],
    {
        self.waiting[ix]
    }
}

} // verus!
