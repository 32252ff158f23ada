use std::cell::Cell;
use std::rc::Rc;

use coop_runtime::executor::{block_on, spawn, Executor, Poll, PollContext, Pollable};
use coop_runtime::reactor::Reactor;

/// Completes on the first poll, counting how often it was polled.
struct Immediate {
    polls: Rc<Cell<u32>>,
}

impl Pollable for Immediate {
    fn poll(&mut self, _reactor: &mut Reactor, _cx: &mut PollContext<Self>) -> Poll<()> {
        self.polls.set(self.polls.get() + 1);
        Poll::Ready(())
    }
}

/// Yields `remaining` times, waking itself each time, then completes.
struct SelfWaking {
    remaining: u32,
    polls: Rc<Cell<u32>>,
}

impl Pollable for SelfWaking {
    fn poll(&mut self, _reactor: &mut Reactor, cx: &mut PollContext<Self>) -> Poll<()> {
        self.polls.set(self.polls.get() + 1);
        if self.remaining == 0 {
            Poll::Ready(())
        } else {
            self.remaining -= 1;
            cx.waker().wake();
            Poll::Pending
        }
    }
}

/// Yields once without arranging any wake at all.
struct Stuck {
    polls: Rc<Cell<u32>>,
}

impl Pollable for Stuck {
    fn poll(&mut self, _reactor: &mut Reactor, _cx: &mut PollContext<Self>) -> Poll<()> {
        self.polls.set(self.polls.get() + 1);
        Poll::Pending
    }
}

/// A task tree: spawns `children` counting tasks on its first poll.
enum Tree {
    Root { children: u32, done: Rc<Cell<u32>> },
    Leaf { done: Rc<Cell<u32>> },
}

impl Pollable for Tree {
    fn poll(&mut self, _reactor: &mut Reactor, cx: &mut PollContext<Self>) -> Poll<()> {
        match self {
            Tree::Root { children, done } => {
                for _ in 0..*children {
                    cx.spawn(Tree::Leaf { done: done.clone() });
                }
                Poll::Ready(())
            }
            Tree::Leaf { done } => {
                done.set(done.get() + 1);
                Poll::Ready(())
            }
        }
    }
}

/// A future that completes without I/O returns, and is polled exactly
/// once when it never yields.
#[test]
fn block_on_immediate_returns_after_one_poll() {
    let polls = Rc::new(Cell::new(0));
    let r = block_on(Immediate { polls: polls.clone() });
    assert!(r.is_ok());
    assert_eq!(polls.get(), 1);
}

/// Quiescence: a self-waking future is re-polled once per wake, so the
/// number of polls is the number of self-wakes plus one.
#[test]
fn self_waking_future_polls_equal_wakes_plus_one() {
    for wakes in [0u32, 1, 2, 5, 17] {
        let polls = Rc::new(Cell::new(0));
        let r = block_on(SelfWaking { remaining: wakes, polls: polls.clone() });
        assert!(r.is_ok());
        assert_eq!(polls.get(), wakes + 1);
    }
}

/// Termination: when every spawned task completes and no interest
/// remains, `run` returns — and every child ran exactly once.
#[test]
fn run_returns_after_all_spawned_tasks_complete() {
    let done = Rc::new(Cell::new(0));
    let r = block_on(Tree::Root { children: 10, done: done.clone() });
    assert!(r.is_ok());
    assert_eq!(done.get(), 10);
}

/// A task that parks itself without arranging any wake is abandoned: the
/// runtime reaches quiescence and returns rather than spinning or
/// blocking forever.
#[test]
fn pending_without_wake_does_not_hang_the_runtime() {
    let polls = Rc::new(Cell::new(0));
    let r = block_on(Stuck { polls: polls.clone() });
    assert!(r.is_ok());
    assert_eq!(polls.get(), 1);
}

/// Seeding an executor by hand: spawn some tasks, then run to
/// completion.
#[test]
fn manual_executor_runs_seeded_tasks() {
    let polls = Rc::new(Cell::new(0));
    let mut ex: Executor<Immediate> = Executor::new().expect("poller");
    spawn(&mut ex, Immediate { polls: polls.clone() });
    spawn(&mut ex, Immediate { polls: polls.clone() });
    spawn(&mut ex, Immediate { polls: polls.clone() });
    let r = ex.run();
    assert!(r.is_ok());
    assert_eq!(polls.get(), 3);
}

/// Tasks are polled in FIFO order within a turn.
struct Ordered {
    tag: u32,
    log: Rc<std::cell::RefCell<Vec<u32>>>,
}

impl Pollable for Ordered {
    fn poll(&mut self, _reactor: &mut Reactor, _cx: &mut PollContext<Self>) -> Poll<()> {
        self.log.borrow_mut().push(self.tag);
        Poll::Ready(())
    }
}

#[test]
fn tasks_run_in_spawn_order() {
    let log = Rc::new(std::cell::RefCell::new(Vec::new()));
    let mut ex: Executor<Ordered> = Executor::new().expect("poller");
    for tag in 0..5 {
        spawn(&mut ex, Ordered { tag, log: log.clone() });
    }
    assert!(ex.run().is_ok());
    assert_eq!(*log.borrow(), vec![0, 1, 2, 3, 4]);
}

/// Arms a descriptor the OS never heard of, which is a programming bug.
struct BadArm {}

impl Pollable for BadArm {
    fn poll(&mut self, reactor: &mut Reactor, cx: &mut PollContext<Self>) -> Poll<()> {
        let _ = reactor.wake_on_readable(999999, cx.waker());
        Poll::Ready(())
    }
}

/// A poller failure while arming is fatal: the run stops with the fault
/// instead of reporting success.
#[test]
fn poller_fault_terminates_the_run() {
    let r = block_on(BadArm {});
    assert!(r.is_err());
}

/// Wakes itself several times per pending return.
struct NoisyWaker {
    remaining: u32,
    polls: Rc<Cell<u32>>,
}

impl Pollable for NoisyWaker {
    fn poll(&mut self, _reactor: &mut Reactor, cx: &mut PollContext<Self>) -> Poll<()> {
        self.polls.set(self.polls.get() + 1);
        if self.remaining == 0 {
            Poll::Ready(())
        } else {
            self.remaining -= 1;
            // three wakes for one suspension: re-polled once, not thrice
            cx.waker().wake();
            cx.waker().wake();
            cx.waker().wake();
            Poll::Pending
        }
    }
}

/// Interest idempotence: waking the same task many times within one
/// pending return re-polls it exactly once.
#[test]
fn duplicate_wakes_cause_one_repoll() {
    for rounds in [1u32, 4] {
        let polls = Rc::new(Cell::new(0));
        let r = block_on(NoisyWaker { remaining: rounds, polls: polls.clone() });
        assert!(r.is_ok());
        assert_eq!(polls.get(), rounds + 1);
    }
}
