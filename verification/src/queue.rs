//! Strict-priority multiplexing over one lock-free stack per priority level.
//!
//! A job submitted at priority `p` goes onto the stack at index
//! `p.index()`; a pop scans the levels from the highest index down and takes
//! from the first non-empty stack it finds. Ties within one level resolve in
//! the stack's LIFO order — a deliberate trade (a cheap lock-free stack over
//! a costlier lock-free queue).
use crate::stack::{popped, pushed, Stack};
use crate::Priority;
use core::marker::PhantomData;
use vstd::prelude::*;

verus! {

/// The level a pop serves: the highest index whose stack has anything
/// pending, scanning from the top level down.
pub open spec fn highest_nonempty<T>(levels: Seq<Seq<T>>) -> Option<int>
    decreases levels.len(),
{
    if levels.len() == 0 {
        None
    } else if levels.last().len() > 0 {
        Some(levels.len() - 1)
    } else {
        highest_nonempty(levels.drop_last())
    }
}

/// What [`highest_nonempty`] finds is a non-empty level with nothing pending
/// above it; when it finds nothing, every level is empty.
pub proof fn lemma_highest_nonempty_correct<T>(levels: Seq<Seq<T>>)
    ensures
        highest_nonempty(levels) matches Some(i) ==> 0 <= i < levels.len() && levels[i].len() > 0
            && (forall|j: int| i < j < levels.len() ==> (#[trigger] levels[j]).len() == 0),
        highest_nonempty(levels) is None ==> forall|j: int|
            0 <= j < levels.len() ==> (#[trigger] levels[j]).len() == 0,
    decreases levels.len(),
{
    if levels.len() > 0 && levels.last().len() == 0 {
        lemma_highest_nonempty_correct(levels.drop_last());
        assert forall|j: int|
            highest_nonempty(levels) matches Some(i) && i < j
                < levels.len() implies (#[trigger] levels[j]).len() == 0 by {
            if j < levels.len() - 1 {
                assert(levels.drop_last()[j] == levels[j]);
            }
        }
        if highest_nonempty(levels) is None {
            assert forall|j: int| 0 <= j < levels.len() implies (#[trigger] levels[j]).len()
                == 0 by {
                if j < levels.len() - 1 {
                    assert(levels.drop_last()[j] == levels[j]);
                }
            }
        }
    }
}

/// Priority precedence: while any job is pending at a higher level `hi`, a
/// pop never serves the lower level `lo`, whatever order the jobs arrived in.
pub proof fn lemma_priority_precedence<T>(levels: Seq<Seq<T>>, hi: int, lo: int)
    requires
        0 <= lo < hi < levels.len(),
        levels[hi].len() > 0,
    ensures
        highest_nonempty(levels) matches Some(i) && i >= hi && i > lo,
    decreases levels.len(),
{
    if levels.last().len() == 0 {
        assert(hi < levels.len() - 1);
        lemma_priority_precedence(levels.drop_last(), hi, lo);
    }
}

/// An array of independent lock-free stacks, one per priority level of `P`.
pub struct PriorityQueue<P: Priority, T> {
    stacks: Vec<Stack<T>>,
    priority: PhantomData<P>,
}

impl<P: Priority, T> PriorityQueue<P, T> {
    /// The pending jobs, one LIFO sequence per level, lowest level first.
    pub closed spec fn view(&self) -> Seq<Seq<T>> {
        Seq::new(self.stacks@.len(), |i: int| self.stacks@[i]@)
    }

    /// One well-formed stack per priority level, quiescent between steps.
    pub closed spec fn wf(&self) -> bool {
        &&& self.stacks@.len() == P::COUNT as int
        &&& forall|i: int| 0 <= i < self.stacks@.len() ==> (#[trigger] self.stacks@[i]).wf()
        &&& forall|i: int|
            0 <= i < self.stacks@.len() ==> (#[trigger] self.stacks@[i]).active_sections() == 0
    }

    /// One empty stack per priority level.
    pub fn new() -> (r: Self)
        ensures
            r.wf(),
            r@.len() == P::COUNT as int,
            forall|i: int| 0 <= i < r@.len() ==> (#[trigger] r@[i]).len() == 0,
    {
        let count = P::COUNT;
        let mut stacks: Vec<Stack<T>> = Vec::new();
        while stacks.len() < count
            invariant
                stacks@.len() <= count as int,
                forall|i: int|
                    0 <= i < stacks@.len() ==> (#[trigger] stacks@[i]).wf() && stacks@[i]@.len()
                        == 0 && stacks@[i].active_sections() == 0 && stacks@[i].arena_size() == 0,
            decreases count - stacks.len(),
        {
            stacks.push(Stack::new());
        }
        let r = PriorityQueue { stacks, priority: PhantomData };
        assert forall|i: int| 0 <= i < r@.len() implies (#[trigger] r@[i]).len() == 0 by {
            assert(r@[i] == r.stacks@[i]@);
        }
        r
    }

    /// Push a job at `priority`'s level. A level index at or beyond the level
    /// count would be a fatal contract violation; the trait contract rules it
    /// out, so the defensive check here is discharged statically.
    pub fn push(&mut self, priority: &P, value: T)
        requires
            old(self).wf(),
        ensures
            final(self).wf(),
            0 <= priority.spec_index() < old(self)@.len(),
            final(self)@ == old(self)@.update(
                priority.spec_index(),
                pushed(old(self)@[priority.spec_index()], value),
            ),
    {
        let index = priority.index();
        assert(index < self.stacks.len());
        let st = &mut self.stacks[index];
        st.push(value);
        proof {
            assert(self.stacks@ =~= old(self).stacks@.update(
                index as int,
                self.stacks@[index as int],
            ));
            assert(self@ =~= old(self)@.update(
                priority.spec_index(),
                pushed(old(self)@[priority.spec_index()], value),
            ));
        }
    }

    /// Pop the most urgent pending job: scan the levels from the highest
    /// index down and take the first stack that yields. Returns nothing only
    /// when every level was empty at its moment of inspection.
    pub fn pop(&mut self, tid: usize) -> (r: Option<T>)
        requires
            old(self).wf(),
        ensures
            final(self).wf(),
            highest_nonempty(old(self)@) is None ==> r is None && final(self)@ == old(self)@,
            highest_nonempty(old(self)@) matches Some(i) ==> r == Some(old(self)@[i][0])
                && final(self)@ == old(self)@.update(i, popped(old(self)@[i])),
    {
        let mut ix = self.stacks.len();
        while ix > 0
            invariant
                self.wf(),
                ix as int <= self@.len(),
                self@ == old(self)@,
                self@.len() == old(self)@.len(),
                forall|i: int| ix as int <= i < self@.len() ==> (#[trigger] self@[i]).len() == 0,
            decreases ix,
        {
            ix = ix - 1;
            let ghost before = *self;
            let st = &mut self.stacks[ix];
            let r = st.pop(tid);
            proof {
                assert(self.stacks@ =~= before.stacks@.update(ix as int, self.stacks@[ix as int]));
            }
            match r {
                Some(value) => {
                    proof {
                        lemma_scan_prefix(old(self)@, ix as int + 1);
                        assert(old(self)@.subrange(0, ix as int + 1).last() == old(self)@[ix as int]);
                        assert(highest_nonempty(old(self)@) == Some(ix as int));
                        assert(self@ =~= old(self)@.update(
                            ix as int,
                            popped(old(self)@[ix as int]),
                        ));
                    }
                    return Some(value);
                },
                None => {
                    proof {
                        assert(self@ =~= before@);
                    }
                },
            }
        }
        proof {
            lemma_scan_prefix(old(self)@, 0);
            assert(old(self)@.subrange(0, 0) =~= Seq::<Seq<T>>::empty());
        }
        None
    }
}

/// A downward scan that has found every level at or above `ix` empty can
/// keep looking only below `ix`.
proof fn lemma_scan_prefix<T>(levels: Seq<Seq<T>>, ix: int)
    requires
        0 <= ix <= levels.len(),
        forall|i: int| ix <= i < levels.len() ==> (#[trigger] levels[i]).len() == 0,
    ensures
        highest_nonempty(levels) == highest_nonempty(levels.subrange(0, ix)),
    decreases levels.len() - ix,
{
    if ix == levels.len() {
        assert(levels.subrange(0, ix) =~= levels);
    } else {
        assert(levels.last().len() == 0);
        assert forall|i: int|
            ix <= i < levels.drop_last().len() implies (#[trigger] levels.drop_last()[i]).len()
            == 0 by {
            assert(levels.drop_last()[i] == levels[i]);
        }
        lemma_scan_prefix(levels.drop_last(), ix);
        assert(levels.drop_last().subrange(0, ix) =~= levels.subrange(0, ix));
    }
}

} // verus!
