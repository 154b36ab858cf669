//! The lock-free LIFO stack, modelled as an arena of nodes addressed by
//! stable indices.
//!
//! The real structure is an intrusive singly-linked list whose top pointer is
//! mutated by CAS retry loops; nodes unlinked by `pop` are retired to the
//! epoch guard and destroyed only at a quiescent point, so that a concurrent
//! pop caught mid-traversal never dereferences freed memory. Here every node
//! lives in an arena slot whose state — [`NodeSlot::Live`],
//! [`NodeSlot::Retired`], [`NodeSlot::Freed`] — is explicit, and the
//! well-formedness invariant [`Stack::wf`] pins the safety property down:
//! every node reachable from the top is `Live`, everything on a retirement
//! list is `Retired`, and a slot is marked `Freed` exactly when the epoch
//! guard releases it. Each operation is one atomic step, standing for the
//! linearization point at which its CAS succeeds.
use crate::dropper::Dropper;
use vstd::prelude::*;

verus! {

/// The LIFO order: a push puts the new value in front of everything present.
pub open spec fn pushed<T>(v: Seq<T>, value: T) -> Seq<T> {
    seq![value] + v
}

/// What a pop returns: the most recently pushed value still present, or
/// nothing when the stack is empty at the attempt.
pub open spec fn pop_result<T>(v: Seq<T>) -> Option<T> {
    if v.len() == 0 {
        None
    } else {
        Some(v[0])
    }
}

/// What a pop leaves behind.
pub open spec fn popped<T>(v: Seq<T>) -> Seq<T> {
    if v.len() == 0 {
        v
    } else {
        v.drop_first()
    }
}

/// One arena slot: the lifecycle of a node.
pub enum NodeSlot<T> {
    /// Allocated and linked (or being linked) into the stack: holds the value
    /// and the arena index of the node below it.
    Live { value: T, next: Option<usize> },
    /// Unlinked by a pop: the value has been moved out; the shell awaits
    /// deferred destruction by the epoch guard.
    Retired,
    /// Destroyed by the epoch guard. Never read again.
    Freed,
}

/// The stack: the arena, the top link, and the epoch guard that defers
/// freeing of retired node shells.
pub struct Stack<T> {
    nodes: Vec<NodeSlot<T>>,
    top: Option<usize>,
    gc: Dropper<usize>,
    chain: Ghost<Seq<usize>>,
}

impl<T> Stack<T> {
    /// The values currently on the stack, most recently pushed first.
    pub closed spec fn view(&self) -> Seq<T> {
        Seq::new(self.chain@.len(), |k: int| self.nodes@[self.chain@[k] as int]->value)
    }

    /// How many critical sections of this stack's epoch guard are active.
    pub closed spec fn active_sections(&self) -> int {
        self.gc.count()
    }

    /// How many arena slots exist (every node ever pushed keeps its slot).
    pub closed spec fn arena_size(&self) -> int {
        self.nodes@.len() as int
    }

    /// The arena slots deferred on thread slot `tid`'s retirement list,
    /// awaiting destruction by the epoch guard.
    pub closed spec fn deferred(&self, tid: int) -> Seq<usize> {
        self.gc.garbage_at(tid)
    }

    /// The arena slot of the node currently on top; meaningful only while the
    /// stack is non-empty.
    pub closed spec fn top_index(&self) -> int {
        if self.chain@.len() > 0 {
            self.chain@[0] as int
        } else {
            -1
        }
    }

    /// The top-to-bottom linkage: the ghost chain lists exactly the arena
    /// indices reachable from the top, in order, and all of them are live.
    spec fn chain_ok(&self) -> bool {
        let ch = self.chain@;
        let nodes = self.nodes@;
        &&& forall|k: int| 0 <= k < ch.len() ==> ((#[trigger] ch[k]) as int) < nodes.len()
        &&& forall|k: int| 0 <= k < ch.len() ==> #[trigger] nodes[ch[k] as int] is Live
        &&& (self.top is None <==> ch.len() == 0)
        &&& (ch.len() > 0 ==> self.top == Some(ch[0]))
        &&& forall|k: int|
            0 <= k < ch.len() - 1 ==> #[trigger] nodes[ch[k] as int]->next == Some(ch[k + 1])
        &&& (ch.len() > 0 ==> nodes[ch[ch.len() - 1] as int]->next is None)
        &&& forall|k1: int, k2: int| 0 <= k1 < k2 < ch.len() ==> ch[k1] != ch[k2]
    }

    /// Every index on a retirement list denotes a slot that is retired: not
    /// reachable, not yet freed.
    spec fn garbage_ok(&self) -> bool {
        forall|t: int, j: int|
            0 <= j < self.gc.garbage_at(t).len() ==> ((#[trigger] self.gc.garbage_at(t)[j]) as int)
                < self.nodes@.len() && self.nodes@[self.gc.garbage_at(t)[j] as int] is Retired
    }

    /// No slot awaits destruction twice, on one list or across lists.
    spec fn garbage_distinct(&self) -> bool {
        forall|t1: int, j1: int, t2: int, j2: int|
            0 <= j1 < self.gc.garbage_at(t1).len() && 0 <= j2 < self.gc.garbage_at(t2).len() && !(t1
                == t2 && j1 == j2) ==> #[trigger] self.gc.garbage_at(t1)[j1]
                != #[trigger] self.gc.garbage_at(t2)[j2]
    }

    /// Well-formedness: the invariant every operation preserves.
    pub closed spec fn wf(&self) -> bool {
        &&& self.chain_ok()
        &&& self.garbage_ok()
        &&& self.garbage_distinct()
    }

    /// An empty stack with a quiescent epoch guard.
    pub fn new() -> (r: Self)
        ensures
            r.wf(),
            r@ == Seq::<T>::empty(),
            r.active_sections() == 0,
            r.arena_size() == 0,
    {
        let r = Stack {
            nodes: Vec::new(),
            top: None,
            gc: Dropper::new(),
            chain: Ghost(Seq::empty()),
        };
        assert(r@ =~= Seq::<T>::empty());
        r
    }

    /// Push `value` on top.
    ///
    /// The real push allocates a node linking to the observed top and CAS-es
    /// the top pointer to it, relinking and retrying on a lost race; this is
    /// the step taken by the CAS that wins. Every node already in the arena
    /// is left exactly as it was: not modified, not unlinked, not retired,
    /// not freed.
    pub fn push(&mut self, value: T)
        requires
            old(self).wf(),
        ensures
            final(self).wf(),
            final(self)@ == pushed(old(self)@, value),
            final(self).active_sections() == old(self).active_sections(),
            final(self).arena_size() == old(self).arena_size() + 1,
            forall|t2: int| #[trigger] final(self).deferred(t2) == old(self).deferred(t2),
            forall|i: int|
                0 <= i < old(self).arena_size() ==> final(self).spec_slot_freed(i) == old(
                    self,
                ).spec_slot_freed(i) && final(self).spec_slot_retired(i) == old(
                    self,
                ).spec_slot_retired(i),
    {
        let idx = self.nodes.len();
        let next = self.top;
        self.nodes.push(NodeSlot::Live { value, next });
        self.top = Some(idx);
        proof {
            self.chain@ = seq![idx] + self.chain@;
            assert forall|t: int, j: int| 0 <= j < self.gc.garbage_at(t).len() implies ((
            #[trigger] self.gc.garbage_at(t)[j]) as int) < self.nodes@.len()
                && self.nodes@[self.gc.garbage_at(t)[j] as int] is Retired by {
                assert(old(self).gc.garbage_at(t)[j] == self.gc.garbage_at(t)[j]);
            }
            assert(self@ =~= pushed(old(self)@, value));
        }
    }

    /// Pop the most recently pushed value, or report the stack empty.
    ///
    /// The whole operation runs inside a critical section of the epoch guard
    /// (entered on behalf of thread slot `tid`): the unlinked node is retired
    /// rather than freed, and whatever the guard releases — at most this
    /// thread's own deferred shells — is destroyed before returning. The
    /// section bound mirrors the guard counter's overflow abort.
    ///
    /// The contention clause is the use-after-free guarantee: as long as any
    /// other critical section stands open, this pop destroys no node at all —
    /// whatever it unlinks is only deferred onto this thread's retirement
    /// list. The quiescence clauses are the reclamation guarantee: a pop that
    /// held the sole active section destroys the node it unlinked and drains
    /// this thread's whole retirement list, leaving every slot on it freed.
    pub fn pop(&mut self, tid: usize) -> (r: Option<T>)
        requires
            old(self).wf(),
            old(self).active_sections() < usize::MAX as int,
        ensures
            final(self).wf(),
            r == pop_result(old(self)@),
            final(self)@ == popped(old(self)@),
            final(self).active_sections() == old(self).active_sections(),
            final(self).arena_size() == old(self).arena_size(),
            old(self).active_sections() > 0 ==> forall|i: int|
                0 <= i < old(self).arena_size() ==> final(self).spec_slot_freed(i) == old(
                    self,
                ).spec_slot_freed(i),
            old(self).active_sections() > 0 && old(self)@.len() > 0 ==> final(self).deferred(
                tid as int,
            ) == old(self).deferred(tid as int).push((old(self).top_index()) as usize),
            old(self).active_sections() > 0 && old(self)@.len() == 0 ==> final(self).deferred(
                tid as int,
            ) == old(self).deferred(tid as int),
            old(self).active_sections() == 0 ==> final(self).deferred(tid as int)
                == Seq::<usize>::empty() && (forall|j: int|
                0 <= j < old(self).deferred(tid as int).len() ==> final(self).spec_slot_freed(
                    old(self).deferred(tid as int)[j] as int,
                )),
            old(self).active_sections() == 0 && old(self)@.len() > 0
                ==> final(self).spec_slot_freed(old(self).top_index()),
            forall|t2: int|
                t2 != tid as int ==> #[trigger] final(self).deferred(t2) == old(self).deferred(t2),
    {
        proof {
            self.gc.lemma_count_in_range();
        }
        self.gc.pause();
        let top = self.top;
        match top {
            None => {
                let freed = self.gc.unpause(tid);
                proof {
                    lemma_batch_from_list(*old(self), &freed, tid);
                }
                free_slots(&mut self.nodes, &freed);
                proof {
                    self.lemma_after_free(*old(self), &freed, tid);
                    assert(old(self)@.len() == 0);
                    if old(self).active_sections() == 0 {
                        assert(freed@ == old(self).deferred(tid as int));
                        assert forall|j: int|
                            0 <= j < old(self).deferred(tid as int).len() implies self.spec_slot_freed(
                            old(self).deferred(tid as int)[j] as int,
                        ) by {
                            assert(self.nodes@[freed@[j] as int] is Freed);
                        }
                        assert(self.gc.garbage_at(tid as int) == Seq::<usize>::empty());
                    } else {
                        assert(self.gc.garbage_at(tid as int) == old(self).deferred(tid as int));
                    }
                }
                None
            },
            Some(t) => {
                proof {
                    assert(self.chain@[0] == t);
                    assert(self.nodes@[t as int] is Live);
                }
                let mut slot = NodeSlot::Retired;
                core::mem::swap(&mut slot, &mut self.nodes[t]);
                proof {
                    assert(self.nodes@ =~= old(self).nodes@.update(
                        t as int,
                        NodeSlot::<T>::Retired,
                    ));
                }
                match slot {
                    NodeSlot::Live { value, next } => {
                        self.top = next;
                        proof {
                            self.chain@ = self.chain@.drop_first();
                        }
                        let freed = self.gc.queue_drop(tid, t);
                        proof {
                            lemma_retire_batch(*old(self), *self, &freed, tid, t);
                        }
                        free_slots(&mut self.nodes, &freed);
                        proof {
                            self.lemma_after_pop(*old(self), &freed, tid, t);
                        }
                        let ghost drained = *self;
                        let freed_rest = self.gc.unpause(tid);
                        proof {
                            assert(freed_rest@ == Seq::<usize>::empty());
                            self.lemma_after_free(drained, &freed_rest, tid);
                            assert(value == old(self)@[0]);
                            assert(old(self).top_index() == t as int);
                            if old(self).active_sections() == 0 {
                                assert(freed@ == old(self).deferred(tid as int).push(t));
                                assert forall|j: int|
                                    0 <= j < old(self).deferred(tid as int).len() implies self.spec_slot_freed(
                                    old(self).deferred(tid as int)[j] as int,
                                ) by {
                                    assert(freed@[j] == old(self).deferred(tid as int)[j]);
                                    assert(self.nodes@[freed@[j] as int] is Freed);
                                }
                                assert(freed@[freed@.len() - 1] == t);
                                assert(self.nodes@[t as int] is Freed);
                                assert(self.gc.garbage_at(tid as int) == Seq::<usize>::empty());
                            } else {
                                assert(freed@ == Seq::<usize>::empty());
                                assert(self.gc.garbage_at(tid as int) == old(self).deferred(
                                    tid as int,
                                ).push(t));
                            }
                        }
                        Some(value)
                    },
                    _ => {
                        proof {
                            assert(false);
                        }
                        None
                    },
                }
            },
        }
    }

    /// Hold a critical section open, as a concurrent pop caught mid-traversal
    /// would: while it lasts, retired nodes must not be destroyed. Nothing
    /// else moves: no slot changes state and no retirement list changes.
    pub fn enter_pause(&mut self)
        requires
            old(self).wf(),
            old(self).active_sections() < usize::MAX as int,
        ensures
            final(self).wf(),
            final(self)@ == old(self)@,
            final(self).active_sections() == old(self).active_sections() + 1,
            final(self).arena_size() == old(self).arena_size(),
            forall|t2: int| #[trigger] final(self).deferred(t2) == old(self).deferred(t2),
            forall|i: int|
                0 <= i < old(self).arena_size() ==> final(self).spec_slot_freed(i) == old(
                    self,
                ).spec_slot_freed(i) && final(self).spec_slot_retired(i) == old(
                    self,
                ).spec_slot_retired(i),
    {
        self.gc.pause();
        let none: Vec<usize> = Vec::new();
        proof {
            self.lemma_after_free(*old(self), &none, 0);
        }
    }

    /// Leave a critical section held open by [`Stack::enter_pause`] on behalf
    /// of thread slot `tid`. When it was the last one, this thread's
    /// retirement list is drained and every node shell on it is destroyed;
    /// while other sections remain, nothing is destroyed.
    pub fn exit_pause(&mut self, tid: usize)
        requires
            old(self).wf(),
            old(self).active_sections() >= 1,
        ensures
            final(self).wf(),
            final(self)@ == old(self)@,
            final(self).active_sections() == old(self).active_sections() - 1,
            final(self).arena_size() == old(self).arena_size(),
            old(self).active_sections() > 1 ==> forall|i: int|
                0 <= i < old(self).arena_size() ==> final(self).spec_slot_freed(i) == old(
                    self,
                ).spec_slot_freed(i),
            old(self).active_sections() == 1 ==> final(self).deferred(tid as int)
                == Seq::<usize>::empty() && (forall|j: int|
                0 <= j < old(self).deferred(tid as int).len() ==> final(self).spec_slot_freed(
                    old(self).deferred(tid as int)[j] as int,
                )),
            old(self).active_sections() > 1 ==> final(self).deferred(tid as int) == old(
                self,
            ).deferred(tid as int),
            forall|t2: int|
                t2 != tid as int ==> #[trigger] final(self).deferred(t2) == old(self).deferred(t2),
    {
        let freed = self.gc.unpause(tid);
        proof {
            lemma_batch_from_list(*old(self), &freed, tid);
        }
        free_slots(&mut self.nodes, &freed);
        proof {
            self.lemma_after_free(*old(self), &freed, tid);
            if old(self).active_sections() == 1 {
                assert(freed@ == old(self).deferred(tid as int));
                assert forall|j: int|
                    0 <= j < old(self).deferred(tid as int).len() implies self.spec_slot_freed(
                    old(self).deferred(tid as int)[j] as int,
                ) by {
                    assert(self.nodes@[freed@[j] as int] is Freed);
                }
                assert(self.gc.garbage_at(tid as int) == Seq::<usize>::empty());
            } else {
                assert(self.gc.garbage_at(tid as int) == old(self).deferred(tid as int));
            }
        }
    }

    /// How many arena slots exist.
    pub fn node_count(&self) -> (r: usize)
        ensures
            r as int == self.arena_size(),
    {
        self.nodes.len()
    }

    /// Whether slot `i` holds a node unlinked by a pop and awaiting deferred
    /// destruction.
    pub fn slot_is_retired(&self, i: usize) -> (r: bool)
        requires
            (i as int) < self.arena_size(),
        ensures
            r == self.spec_slot_retired(i as int),
    {
        match &self.nodes[i] {
            NodeSlot::Retired => true,
            _ => false,
        }
    }

    /// Whether slot `i`'s node has been destroyed by the epoch guard.
    pub fn slot_is_freed(&self, i: usize) -> (r: bool)
        requires
            (i as int) < self.arena_size(),
        ensures
            r == self.spec_slot_freed(i as int),
    {
        match &self.nodes[i] {
            NodeSlot::Freed => true,
            _ => false,
        }
    }

    /// Slot `i` is in the retired state.
    pub closed spec fn spec_slot_retired(&self, i: int) -> bool {
        self.nodes@[i] is Retired
    }

    /// Slot `i` is in the freed state.
    pub closed spec fn spec_slot_freed(&self, i: int) -> bool {
        self.nodes@[i] is Freed
    }
}

/// No loss and no duplication, one atomic step at a time: a push adds exactly
/// its value to the stack's contents, and a pop removes exactly the value it
/// returns. Over any interleaving of these steps, each pushed value is
/// therefore handed out by exactly one pop.
pub proof fn lemma_no_loss_no_duplication<T>(v: Seq<T>, value: T)
    ensures
        pushed(v, value).to_multiset() == v.to_multiset().insert(value),
        v.len() > 0 ==> v.to_multiset() == popped(v).to_multiset().insert(v[0]),
{
    broadcast use vstd::seq_lib::group_to_multiset_ensures;

    let w = pushed(v, value);
    assert(w[0] == value);
    assert(w.contains(value));
    assert(w.remove(0) =~= v);
    assert(v.to_multiset() =~= w.to_multiset().remove(value));
    assert(w.to_multiset() =~= v.to_multiset().insert(value));
    if v.len() > 0 {
        assert(v.contains(v[0]));
        assert(v.remove(0) =~= popped(v));
        assert(popped(v).to_multiset() =~= v.to_multiset().remove(v[0]));
        assert(v.to_multiset() =~= popped(v).to_multiset().insert(v[0]));
    }
}

/// LIFO within a level: pushing `x` then `y`, with no pop in between, yields
/// pop order `y` then `x`, and then the stack is as it began.
pub proof fn lemma_lifo_within_level<T>(v: Seq<T>, x: T, y: T)
    ensures
        pop_result(pushed(pushed(v, x), y)) == Some(y),
        pop_result(popped(pushed(pushed(v, x), y))) == Some(x),
        popped(popped(pushed(pushed(v, x), y))) == v,
{
    let w = pushed(pushed(v, x), y);
    assert(w[0] == y);
    assert(popped(w) =~= pushed(v, x));
    assert(popped(pushed(v, x)) =~= v);
}

impl<T> Stack<T> {
    /// What the epoch guard releases is fit to destroy: only retired slots,
    /// each at most once. The batch is this thread's own retirement list, or
    /// nothing.
    proof fn lemma_after_free(&self, prev: Self, freed: &Vec<usize>, tid: usize)
        requires
            prev.wf(),
            self.chain@ == prev.chain@,
            self.top == prev.top,
            self.nodes@.len() == prev.nodes@.len(),
            forall|i: int|
                0 <= i < prev.nodes@.len() && !freed@.contains(i as usize) ==> self.nodes@[i]
                    == prev.nodes@[i],
            freed@ == prev.gc.garbage_at(tid as int) || freed@ == Seq::<usize>::empty(),
            self.gc.garbage_at(tid as int) == Seq::<usize>::empty() || self.gc.garbage_at(
                tid as int,
            ) == prev.gc.garbage_at(tid as int),
            freed@.len() > 0 ==> self.gc.garbage_at(tid as int) == Seq::<usize>::empty(),
            forall|t: int|
                t != tid as int ==> #[trigger] self.gc.garbage_at(t) == prev.gc.garbage_at(t),
        ensures
            self.wf(),
            self@ == prev@,
    {
        assert forall|k: int|
            0 <= k < self.chain@.len() implies self.nodes@[(#[trigger] self.chain@[k]) as int]
            == prev.nodes@[self.chain@[k] as int] by {
            assert(((prev.chain@[k]) as int) < prev.nodes@.len());
            assert(prev.nodes@[prev.chain@[k] as int] is Live);
            if freed@.contains(self.chain@[k]) {
                let j = choose|j: int| 0 <= j < freed@.len() && freed@[j] == self.chain@[k];
                assert(freed@.len() > 0);
                assert(freed@ == prev.gc.garbage_at(tid as int));
                assert(prev.gc.garbage_at(tid as int)[j] == freed@[j]);
                assert(prev.nodes@[freed@[j] as int] is Retired);
                assert(false);
            }
        }
        assert forall|t: int, j: int| 0 <= j < self.gc.garbage_at(t).len() implies ((
        #[trigger] self.gc.garbage_at(t)[j]) as int) < self.nodes@.len()
            && self.nodes@[self.gc.garbage_at(t)[j] as int] is Retired by {
            assert(self.gc.garbage_at(t) == prev.gc.garbage_at(t));
            let e = self.gc.garbage_at(t)[j];
            assert(prev.nodes@[e as int] is Retired);
            if freed@.contains(e) {
                let j2 = choose|j2: int| 0 <= j2 < freed@.len() && freed@[j2] == e;
                assert(prev.gc.garbage_at(tid as int)[j2] == freed@[j2]);
                assert(self.gc.garbage_at(tid as int) == Seq::<usize>::empty());
                assert(t != tid as int);
                assert(prev.gc.garbage_at(t)[j] != prev.gc.garbage_at(tid as int)[j2]);
            }
        }
        assert forall|t1: int, j1: int, t2: int, j2: int|
            0 <= j1 < self.gc.garbage_at(t1).len() && 0 <= j2 < self.gc.garbage_at(t2).len() && !(t1
                == t2 && j1 == j2) implies #[trigger] self.gc.garbage_at(t1)[j1]
            != #[trigger] self.gc.garbage_at(t2)[j2] by {
            assert(self.gc.garbage_at(t1) == prev.gc.garbage_at(t1));
            assert(self.gc.garbage_at(t2) == prev.gc.garbage_at(t2));
        }
        assert(self@ =~= prev@);
    }

    /// Re-establish the invariant once a pop has unlinked the top node `t`,
    /// retired it, and destroyed whatever batch the guard released.
    proof fn lemma_after_pop(&self, prev: Self, freed: &Vec<usize>, tid: usize, t: usize)
        requires
            prev.wf(),
            (t as int) < prev.nodes@.len(),
            prev.nodes@[t as int] is Live,
            prev.top == Some(t),
            self.chain@ == prev.chain@.drop_first(),
            self.top == prev.nodes@[t as int]->next,
            self.nodes@.len() == prev.nodes@.len(),
            forall|i: int|
                0 <= i < prev.nodes@.len() && !freed@.contains(i as usize) ==> self.nodes@[i]
                    == prev.nodes@.update(t as int, NodeSlot::<T>::Retired)[i],
            (freed@ == prev.gc.garbage_at(tid as int).push(t) && self.gc.garbage_at(tid as int)
                == Seq::<usize>::empty()) || (freed@ == Seq::<usize>::empty() && self.gc.garbage_at(
                tid as int,
            ) == prev.gc.garbage_at(tid as int).push(t)),
            forall|t2: int|
                t2 != tid as int ==> #[trigger] self.gc.garbage_at(t2) == prev.gc.garbage_at(t2),
        ensures
            self.wf(),
            self@ == prev@.drop_first(),
    {
        let ch = prev.chain@;
        assert(ch.len() > 0 && ch[0] == t);
        assert forall|k: int|
            0 <= k < self.chain@.len() implies self.nodes@[(#[trigger] self.chain@[k]) as int]
            == prev.nodes@[self.chain@[k] as int] && self.chain@[k] != t by {
            assert(self.chain@[k] == ch[k + 1]);
            assert(ch[k + 1] != ch[0]);
            assert(((ch[k + 1]) as int) < prev.nodes@.len());
            assert(prev.nodes@[ch[k + 1] as int] is Live);
            if freed@.contains(self.chain@[k]) {
                let j = choose|j: int| 0 <= j < freed@.len() && freed@[j] == self.chain@[k];
                assert(freed@.len() > 0);
                assert(freed@ == prev.gc.garbage_at(tid as int).push(t));
                if j < freed@.len() - 1 {
                    assert(prev.gc.garbage_at(tid as int)[j] == freed@[j]);
                    assert(prev.nodes@[freed@[j] as int] is Retired);
                } else {
                    assert(freed@[j] == t);
                }
                assert(false);
            }
            assert(self.nodes@[self.chain@[k] as int] == prev.nodes@.update(
                t as int,
                NodeSlot::<T>::Retired,
            )[self.chain@[k] as int]);
        }
        assert(self.chain_ok());
        assert forall|t1: int, j: int| 0 <= j < self.gc.garbage_at(t1).len() implies ((
        #[trigger] self.gc.garbage_at(t1)[j]) as int) < self.nodes@.len()
            && self.nodes@[self.gc.garbage_at(t1)[j] as int] is Retired by {
            let e = self.gc.garbage_at(t1)[j];
            if t1 == tid as int {
                assert(self.gc.garbage_at(t1) == prev.gc.garbage_at(tid as int).push(t));
                assert(freed@ == Seq::<usize>::empty());
                if j < prev.gc.garbage_at(tid as int).len() {
                    assert(e == prev.gc.garbage_at(tid as int)[j]);
                    assert(prev.nodes@[e as int] is Retired);
                    assert(e != t);
                } else {
                    assert(e == t);
                }
                assert(self.nodes@[e as int] == prev.nodes@.update(
                    t as int,
                    NodeSlot::<T>::Retired,
                )[e as int]);
            } else {
                assert(e == prev.gc.garbage_at(t1)[j]);
                assert(prev.nodes@[e as int] is Retired);
                assert(e != t);
                if freed@.contains(e) {
                    let j2 = choose|j2: int| 0 <= j2 < freed@.len() && freed@[j2] == e;
                    assert(freed@ == prev.gc.garbage_at(tid as int).push(t));
                    if j2 < freed@.len() - 1 {
                        assert(freed@[j2] == prev.gc.garbage_at(tid as int)[j2]);
                        assert(prev.gc.garbage_at(t1)[j] != prev.gc.garbage_at(tid as int)[j2]);
                    } else {
                        assert(freed@[j2] == t);
                    }
                }
            }
        }
        assert forall|t1: int, j1: int, t2: int, j2: int|
            0 <= j1 < self.gc.garbage_at(t1).len() && 0 <= j2 < self.gc.garbage_at(t2).len() && !(t1
                == t2 && j1 == j2) implies #[trigger] self.gc.garbage_at(t1)[j1]
            != #[trigger] self.gc.garbage_at(t2)[j2] by {
            let g1 = self.gc.garbage_at(t1);
            let g2 = self.gc.garbage_at(t2);
            if t1 == tid as int && g1 == prev.gc.garbage_at(tid as int).push(t) {
                if j1 == g1.len() - 1 {
                    assert(g1[j1] == t);
                    if t2 == tid as int {
                        assert(g2[j2] == prev.gc.garbage_at(tid as int)[j2]);
                        assert(prev.nodes@[g2[j2] as int] is Retired);
                    } else {
                        assert(g2[j2] == prev.gc.garbage_at(t2)[j2]);
                        assert(prev.nodes@[g2[j2] as int] is Retired);
                    }
                } else {
                    assert(g1[j1] == prev.gc.garbage_at(tid as int)[j1]);
                }
            }
            if t2 == tid as int && g2 == prev.gc.garbage_at(tid as int).push(t) {
                if j2 == g2.len() - 1 {
                    assert(g2[j2] == t);
                    if t1 == tid as int {
                        if j1 < g1.len() - 1 {
                            assert(g1[j1] == prev.gc.garbage_at(tid as int)[j1]);
                            assert(prev.nodes@[g1[j1] as int] is Retired);
                        }
                    } else {
                        assert(g1[j1] == prev.gc.garbage_at(t1)[j1]);
                        assert(prev.nodes@[g1[j1] as int] is Retired);
                    }
                } else {
                    assert(g2[j2] == prev.gc.garbage_at(tid as int)[j2]);
                }
            }
            if (t1 != tid as int || g1 == Seq::<usize>::empty()) && (t2 != tid as int || g2
                == Seq::<usize>::empty()) {
                assert(g1[j1] == prev.gc.garbage_at(t1)[j1]);
                assert(g2[j2] == prev.gc.garbage_at(t2)[j2]);
            }
        }
        assert(self@ =~= prev@.drop_first());
    }
}

/// The batch a lone unpause drains is this thread's own retirement list:
/// valid retired slots, each listed once.
proof fn lemma_batch_from_list<T>(prev: Stack<T>, freed: &Vec<usize>, tid: usize)
    requires
        prev.wf(),
        freed@ == prev.gc.garbage_at(tid as int) || freed@ == Seq::<usize>::empty(),
    ensures
        forall|j: int|
            0 <= j < freed@.len() ==> ((#[trigger] freed@[j]) as int) < prev.nodes@.len()
                && prev.nodes@[freed@[j] as int] is Retired,
        forall|j1: int, j2: int| 0 <= j1 < j2 < freed@.len() ==> freed@[j1] != freed@[j2],
{
    if freed@.len() > 0 {
        assert forall|j: int| 0 <= j < freed@.len() implies ((#[trigger] freed@[j]) as int)
            < prev.nodes@.len() && prev.nodes@[freed@[j] as int] is Retired by {
            assert(freed@[j] == prev.gc.garbage_at(tid as int)[j]);
        }
        assert forall|j1: int, j2: int| 0 <= j1 < j2 < freed@.len() implies freed@[j1]
            != freed@[j2] by {
            assert(prev.gc.garbage_at(tid as int)[j1] != prev.gc.garbage_at(tid as int)[j2]);
        }
    }
}

/// A pop's retirement batch: the unlinked node `t` together with this
/// thread's list, all of them retired in the arena as it stands after `t`
/// was unlinked, each listed once.
proof fn lemma_retire_batch<T>(prev: Stack<T>, cur: Stack<T>, freed: &Vec<usize>, tid: usize, t: usize)
    requires
        prev.wf(),
        (t as int) < prev.nodes@.len(),
        prev.nodes@[t as int] is Live,
        cur.nodes@ == prev.nodes@.update(t as int, NodeSlot::<T>::Retired),
        freed@ == prev.gc.garbage_at(tid as int).push(t) || freed@ == Seq::<usize>::empty(),
    ensures
        forall|j: int|
            0 <= j < freed@.len() ==> ((#[trigger] freed@[j]) as int) < cur.nodes@.len()
                && cur.nodes@[freed@[j] as int] is Retired,
        forall|j1: int, j2: int| 0 <= j1 < j2 < freed@.len() ==> freed@[j1] != freed@[j2],
{
    if freed@.len() > 0 {
        let list = prev.gc.garbage_at(tid as int);
        assert forall|j: int| 0 <= j < freed@.len() implies ((#[trigger] freed@[j]) as int)
            < cur.nodes@.len() && cur.nodes@[freed@[j] as int] is Retired by {
            if j < list.len() {
                assert(freed@[j] == list[j]);
                assert(prev.nodes@[list[j] as int] is Retired);
                assert(list[j] != t);
            } else {
                assert(freed@[j] == t);
            }
        }
        assert forall|j1: int, j2: int| 0 <= j1 < j2 < freed@.len() implies freed@[j1]
            != freed@[j2] by {
            if j2 < list.len() {
                assert(list[j1] != list[j2]);
            } else {
                assert(freed@[j2] == t);
                assert(freed@[j1] == list[j1]);
                assert(prev.nodes@[list[j1] as int] is Retired);
            }
        }
    }
}

/// Destroy a batch of retired arena slots: each goes from `Retired` to
/// `Freed`, and nothing else in the arena moves.
fn free_slots<T>(nodes: &mut Vec<NodeSlot<T>>, freed: &Vec<usize>)
    requires
        forall|j: int|
            0 <= j < freed@.len() ==> ((#[trigger] freed@[j]) as int) < old(nodes)@.len() && old(
                nodes,
            )@[freed@[j] as int] is Retired,
        forall|j1: int, j2: int| 0 <= j1 < j2 < freed@.len() ==> freed@[j1] != freed@[j2],
    ensures
        final(nodes)@.len() == old(nodes)@.len(),
        forall|i: int|
            0 <= i < old(nodes)@.len() && !freed@.contains(i as usize) ==> final(nodes)@[i] == old(
                nodes,
            )@[i],
        forall|j: int|
            0 <= j < freed@.len() ==> final(nodes)@[(#[trigger] freed@[j]) as int] is Freed,
{
    let ghost orig = nodes@;
    let mut idx: usize = 0;
    while idx < freed.len()
        invariant
            idx <= freed.len(),
            nodes@.len() == orig.len(),
            forall|j: int|
                0 <= j < freed@.len() ==> ((#[trigger] freed@[j]) as int) < orig.len()
                    && orig[freed@[j] as int] is Retired,
            forall|j1: int, j2: int| 0 <= j1 < j2 < freed@.len() ==> freed@[j1] != freed@[j2],
            forall|i: int|
                0 <= i < orig.len() && !freed@.subrange(0, idx as int).contains(i as usize)
                    ==> nodes@[i] == orig[i],
            forall|j: int| 0 <= j < idx ==> nodes@[(#[trigger] freed@[j]) as int] is Freed,
        decreases freed@.len() - idx,
    {
        let i = freed[idx];
        let ghost before = nodes@;
        nodes.set(i, NodeSlot::Freed);
        idx = idx + 1;
        proof {
            assert(freed@.subrange(0, idx as int) =~= freed@.subrange(0, idx as int - 1).push(
                freed@[idx as int - 1],
            ));
            assert forall|k: int|
                0 <= k < orig.len() && !freed@.subrange(0, idx as int).contains(
                    k as usize,
                ) implies nodes@[k] == orig[k] by {
                if freed@.subrange(0, idx as int - 1).contains(k as usize) {
                    let j = choose|j: int|
                        0 <= j < idx as int - 1 && #[trigger] freed@.subrange(
                            0,
                            idx as int - 1,
                        )[j] == k as usize;
                    assert(freed@.subrange(0, idx as int)[j] == k as usize);
                    assert(false);
                }
                if k == i as int {
                    assert(freed@.subrange(0, idx as int)[idx as int - 1] == i);
                    assert(false);
                }
                assert(before[k] == orig[k]);
            }
        }
    }
    proof {
        assert(freed@.subrange(0, freed@.len() as int) =~= freed@);
    }
}

} // verus!
