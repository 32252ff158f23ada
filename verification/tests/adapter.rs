use coop_runtime::executor::Poll;
use coop_runtime::io_adapter::{resolve_io, Direction, IoAttempt};
use coop_runtime::poller::IoError;
use coop_runtime::reactor::Reactor;
use coop_runtime::task_queue::TaskQueue;
use coop_runtime::waker::Waker;

#[test]
fn successful_attempt_completes_with_its_value() {
    let q = TaskQueue::new();
    let mut r = Reactor::new().expect("poller");
    let out = resolve_io(&mut r, 3, Direction::Read, Waker::new(1, q.sender()), IoAttempt::Done(44usize));
    assert_eq!(out, Poll::Ready(Ok(44)));
    assert!(!r.waiting_on_events());
}

#[test]
fn terminal_failure_completes_with_the_error() {
    let q = TaskQueue::new();
    let mut r = Reactor::new().expect("poller");
    let out = resolve_io::<usize>(
        &mut r,
        3,
        Direction::Write,
        Waker::new(1, q.sender()),
        IoAttempt::Failed(IoError::Os(Some(32))),
    );
    assert_eq!(out, Poll::Ready(Err(IoError::Os(Some(32)))));
    assert!(!r.waiting_on_events());
}

#[test]
fn not_ready_parks_interest() {
    let q = TaskQueue::new();
    let mut r = Reactor::new().expect("poller");
    // descriptor 999999 is not registered with the OS poller, so the
    // re-arm fails and the poll resolves to that error instead of
    // yielding; the waker is parked in the table either way
    let out = resolve_io::<usize>(
        &mut r,
        999999,
        Direction::Read,
        Waker::new(1, q.sender()),
        IoAttempt::NotReady,
    );
    match out {
        Poll::Ready(res) => assert!(res.is_err()),
        Poll::Pending => panic!("re-arming an unregistered descriptor cannot succeed"),
    }
    assert!(r.waiting_on_events());
}
