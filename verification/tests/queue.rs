use coop_runtime::task_queue::TaskQueue;
use coop_runtime::waker::Waker;

#[test]
fn new_queue_is_empty() {
    let mut q = TaskQueue::new();
    assert!(q.is_empty());
    assert_eq!(q.pop(), None);
}

#[test]
fn pop_is_fifo() {
    let mut q = TaskQueue::new();
    q.push(1);
    q.push(2);
    q.push(3);
    assert_eq!(q.pop(), Some(1));
    assert_eq!(q.pop(), Some(2));
    assert_eq!(q.pop(), Some(3));
    assert_eq!(q.pop(), None);
}

#[test]
fn enqueue_deduplicates() {
    let mut q = TaskQueue::new();
    q.enqueue(4);
    q.enqueue(4);
    q.enqueue(4);
    assert_eq!(q.pop(), Some(4));
    assert_eq!(q.pop(), None);
}

#[test]
fn wake_reaches_queue_through_channel() {
    let mut q = TaskQueue::new();
    let w = Waker::new(9, q.sender());
    w.wake();
    assert!(q.is_empty());
    q.receive();
    assert_eq!(q.pop(), Some(9));
    assert_eq!(q.pop(), None);
}

#[test]
fn duplicate_wakes_enqueue_once() {
    let mut q = TaskQueue::new();
    let w = Waker::new(7, q.sender());
    w.wake_by_ref();
    w.wake_by_ref();
    w.wake_by_ref();
    q.receive();
    assert_eq!(q.pop(), Some(7));
    assert_eq!(q.pop(), None);
}

#[test]
fn duplicated_waker_wakes_same_task() {
    let mut q = TaskQueue::new();
    let w = Waker::new(12, q.sender());
    let w2 = w.duplicate();
    drop(w);
    w2.wake();
    q.receive();
    assert_eq!(q.pop(), Some(12));
}

#[test]
fn wakes_keep_channel_order_and_skip_queued() {
    let mut q = TaskQueue::new();
    let a = Waker::new(1, q.sender());
    let b = Waker::new(2, q.sender());
    b.wake_by_ref();
    a.wake_by_ref();
    b.wake_by_ref();
    q.receive();
    assert_eq!(q.pop(), Some(2));
    assert_eq!(q.pop(), Some(1));
    assert_eq!(q.pop(), None);
}

#[test]
fn wake_after_queue_dropped_is_silent() {
    let sender = {
        let q = TaskQueue::new();
        q.sender()
    };
    let w = Waker::new(3, sender);
    w.wake();
}
