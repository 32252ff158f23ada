use coop_runtime::poller::FdEvent;
use coop_runtime::reactor::{InterestTable, Reactor};
use coop_runtime::task_queue::TaskQueue;
use coop_runtime::waker::Waker;

fn drain_ids(q: &mut TaskQueue) -> Vec<usize> {
    q.receive();
    let mut ids = Vec::new();
    while let Some(id) = q.pop() {
        ids.push(id);
    }
    ids
}

#[test]
fn fresh_table_has_no_interest() {
    let t = InterestTable::new();
    assert!(!t.has_interest());
    assert_eq!(t.mask(0), (false, false));
}

#[test]
fn arming_sets_the_mask_per_direction() {
    let q = TaskQueue::new();
    let mut t = InterestTable::new();
    t.arm_readable(5, Waker::new(1, q.sender()));
    assert_eq!(t.mask(5), (true, false));
    assert_eq!(t.mask(6), (false, false));
    t.arm_writable(5, Waker::new(1, q.sender()));
    assert_eq!(t.mask(5), (true, true));
    t.arm_writable(6, Waker::new(2, q.sender()));
    assert_eq!(t.mask(6), (false, true));
    assert!(t.has_interest());
}

#[test]
fn drain_fires_armed_wakers_in_order() {
    let mut q = TaskQueue::new();
    let mut t = InterestTable::new();
    t.arm_readable(5, Waker::new(1, q.sender()));
    t.arm_readable(5, Waker::new(2, q.sender()));
    let fired = t.drain(&vec![FdEvent { fd: 5, readable: true, writable: false }]);
    assert_eq!(fired.len(), 2);
    for w in fired {
        w.wake();
    }
    // registration order is kept: task 1 was armed before task 2
    assert_eq!(drain_ids(&mut q), vec![1, 2]);
    // the entry was consumed whole: interest must be re-armed
    assert!(!t.has_interest());
    assert_eq!(t.mask(5), (false, false));
}

#[test]
fn drain_readable_before_writable() {
    let mut q = TaskQueue::new();
    let mut t = InterestTable::new();
    t.arm_writable(5, Waker::new(9, q.sender()));
    t.arm_readable(5, Waker::new(4, q.sender()));
    let fired = t.drain(&vec![FdEvent { fd: 5, readable: true, writable: true }]);
    assert_eq!(fired.len(), 2);
    for w in fired {
        w.wake();
    }
    assert_eq!(drain_ids(&mut q), vec![4, 9]);
}

#[test]
fn drain_matches_direction_only() {
    let q = TaskQueue::new();
    let mut t = InterestTable::new();
    t.arm_readable(5, Waker::new(1, q.sender()));
    let fired = t.drain(&vec![FdEvent { fd: 5, readable: false, writable: true }]);
    assert!(fired.is_empty());
    // the readable entry survived an event that fired only writable
    assert_eq!(t.mask(5), (true, false));
    assert!(t.has_interest());
}

#[test]
fn drain_ignores_unrelated_descriptors() {
    let q = TaskQueue::new();
    let mut t = InterestTable::new();
    t.arm_readable(5, Waker::new(1, q.sender()));
    let fired = t.drain(&vec![FdEvent { fd: 6, readable: true, writable: true }]);
    assert!(fired.is_empty());
    assert!(t.has_interest());
}

#[test]
fn clear_releases_only_that_descriptor() {
    let q = TaskQueue::new();
    let mut t = InterestTable::new();
    t.arm_readable(5, Waker::new(1, q.sender()));
    t.arm_writable(6, Waker::new(2, q.sender()));
    t.clear_fd(5);
    assert_eq!(t.mask(5), (false, false));
    assert_eq!(t.mask(6), (false, true));
    assert!(t.has_interest());
    t.clear_fd(6);
    assert!(!t.has_interest());
}

#[test]
fn fresh_reactor_awaits_nothing() {
    let r = Reactor::new().expect("poller");
    assert!(!r.waiting_on_events());
}

#[test]
fn wait_with_zero_timeout_returns_no_events() {
    let r = Reactor::new().expect("poller");
    let events = r.wait(Some(0)).expect("wait");
    assert!(events.is_empty());
}

#[test]
fn notify_unblocks_wait() {
    let r = Reactor::new().expect("poller");
    r.notify().expect("notify");
    // without the notification this wait would block forever
    let events = r.wait(None).expect("wait");
    assert!(events.is_empty());
}

#[test]
fn arm_failure_is_reported_but_interest_is_recorded() {
    // descriptor 999999 was never registered, so the OS rejects the
    // re-arm; the runtime treats that as fatal, and the bookkeeping still
    // shows the parked waker
    let q = TaskQueue::new();
    let mut r = Reactor::new().expect("poller");
    let res = r.wake_on_readable(999999, Waker::new(1, q.sender()));
    assert!(res.is_err());
    assert!(r.waiting_on_events());
}

#[test]
fn remove_releases_interest_even_when_the_os_objects() {
    let q = TaskQueue::new();
    let mut r = Reactor::new().expect("poller");
    let _ = r.wake_on_readable(999999, Waker::new(1, q.sender()));
    assert!(r.waiting_on_events());
    let res = r.remove(999999);
    // the descriptor was never registered, so the OS-side delete fails...
    assert!(res.is_err());
    // ...but the interest entries are gone regardless
    assert!(!r.waiting_on_events());
}

#[test]
fn notifier_handle_unblocks_wait() {
    let r = Reactor::new().expect("poller");
    let n = r.notifier();
    n.notify().expect("notify");
    // the notifier reaches the same poller, so this wait returns at once
    let events = r.wait(None).expect("wait");
    assert!(events.is_empty());
}

#[test]
fn duplicate_events_for_one_descriptor_fire_once() {
    let mut q = TaskQueue::new();
    let mut t = InterestTable::new();
    t.arm_readable(5, Waker::new(1, q.sender()));
    // the OS may report the same descriptor twice in one batch; the
    // entry is consumed by the first event and the second finds nothing
    let fired = t.drain(&vec![
        FdEvent { fd: 5, readable: true, writable: false },
        FdEvent { fd: 5, readable: true, writable: false },
    ]);
    assert_eq!(fired.len(), 1);
    for w in fired {
        w.wake();
    }
    assert_eq!(drain_ids(&mut q), vec![1]);
}
