use priority_threadpool::dropper::Dropper;
use priority_threadpool::dropper::GarbageVec;
use priority_threadpool::stack::Stack;

#[test]
fn lifo_within_level() {
    let mut s: Stack<u8> = Stack::new();
    s.push(1);
    s.push(2);
    assert_eq!(s.pop(0), Some(2));
    assert_eq!(s.pop(0), Some(1));
    assert_eq!(s.pop(0), None);
}

#[test]
fn pop_on_empty_stack_is_none() {
    let mut s: Stack<u8> = Stack::new();
    assert_eq!(s.pop(0), None);
}

#[test]
fn sole_section_reclaims_immediately() {
    let mut s: Stack<u8> = Stack::new();
    s.push(7);
    assert_eq!(s.node_count(), 1);
    assert_eq!(s.pop(0), Some(7));
    // No other critical section was active, so the popped node's shell is
    // destroyed at once.
    assert!(s.slot_is_freed(0));
}

#[test]
fn contended_pop_defers_reclamation() {
    let mut s: Stack<u8> = Stack::new();
    s.push(7);
    // Another thread stands inside a critical section, perhaps mid-traversal
    // over the node we are about to unlink.
    s.enter_pause();
    assert_eq!(s.pop(0), Some(7));
    // The node is retired, not freed: freeing it now could be a
    // use-after-free for the paused thread.
    assert!(s.slot_is_retired(0));
    assert!(!s.slot_is_freed(0));
    // The other thread leaves its section; its own retirement list is empty,
    // and our node still waits on this thread's list.
    s.exit_pause(5);
    assert!(s.slot_is_retired(0));
    // The next quiescent moment this thread reaches — here, a pop that finds
    // the stack empty — drains its list.
    assert_eq!(s.pop(0), None);
    assert!(s.slot_is_freed(0));
}

#[test]
fn last_exit_drains_this_threads_list() {
    let mut s: Stack<u8> = Stack::new();
    s.push(1);
    // An outsider holds a section, so the pop below must defer.
    s.enter_pause();
    assert_eq!(s.pop(7), Some(1));
    assert!(s.slot_is_retired(0));
    // The popping thread's own exit closes the last section: its retirement
    // list drains and the node shell is destroyed.
    s.exit_pause(7);
    assert!(s.slot_is_freed(0));
}

#[test]
fn push_after_pop_gets_fresh_slot() {
    let mut s: Stack<u8> = Stack::new();
    s.push(1);
    assert_eq!(s.pop(0), Some(1));
    s.push(2);
    assert_eq!(s.node_count(), 2);
    assert_eq!(s.pop(0), Some(2));
    assert_eq!(s.pop(0), None);
}

#[test]
fn dropper_defers_until_last_section_exits() {
    let mut d: Dropper<u8> = Dropper::new();
    d.pause();
    d.pause();
    // Two sections active: nothing may be destroyed.
    assert_eq!(d.queue_drop(0, 42), Vec::<u8>::new());
    // One section left after this exit: still nothing.
    assert_eq!(d.unpause(0), Vec::<u8>::new());
    // Last exit: this thread's list drains.
    assert_eq!(d.unpause(0), vec![42]);
}

#[test]
fn dropper_sole_holder_drops_at_once() {
    let mut d: Dropper<u8> = Dropper::new();
    d.pause();
    assert_eq!(d.queue_drop(0, 9), vec![9]);
    assert_eq!(d.unpause(0), Vec::<u8>::new());
}

#[test]
fn dropper_lists_are_per_thread() {
    let mut d: Dropper<u8> = Dropper::new();
    d.pause();
    d.pause();
    assert_eq!(d.queue_drop(3, 8), Vec::<u8>::new());
    // The wrong thread exiting last drains only its own (empty) list.
    d.unpause(1);
    assert_eq!(d.unpause(1), Vec::<u8>::new());
    // Thread 3 reaches a sole-holder retire: its list drains with the value.
    d.pause();
    assert_eq!(d.queue_drop(3, 9), vec![8, 9]);
    d.unpause(3);
}

#[test]
fn garbage_vec_push_and_clear() {
    let mut g: GarbageVec<u8> = GarbageVec::default();
    assert_eq!(g.len(), 0);
    g.push(1);
    g.push(2);
    assert_eq!(g.len(), 2);
    g.clear();
    assert_eq!(g.len(), 0);
}
