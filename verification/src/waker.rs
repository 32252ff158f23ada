//! Wakers: callables bound to exactly one task.
//!
//! Invoking a waker pushes its task's identifier onto the wake channel, from
//! which the executor's ready queue absorbs it between turns.  A waker holds
//! a clone of the channel's sender half, which is thread-safe, so a waker
//! may be handed to a background worker and invoked off the runtime thread.

use crate::channel::{clone_sender, send_wake};
use vstd::prelude::*;

verus! {

/// A callable bound to one task: invoking it re-enqueues that task.
pub struct Waker {
    task: usize,
    sender: std::sync::mpsc::Sender<usize>,
}

impl Waker {
    /// The identifier of the task this waker re-enqueues.
    pub closed spec fn id(self) -> usize {
        self.task
    }

    /// Bind a waker to a task identifier and a wake-channel sender.
    pub fn new(task: usize, sender: std::sync::mpsc::Sender<usize>) -> (w: Waker)
        ensures
            w.id() == task,
    {
        Waker { task, sender }
    }

    /// A second waker for the same task, feeding the same channel.
    pub fn duplicate(&self) -> (w: Waker)
        ensures
            w.id() == self.id(),
    {
        Waker { task: self.task, sender: clone_sender(&self.sender) }
    }

    /// Wake by value: push the task's identifier onto the wake channel and
    /// consume the waker.
    pub fn wake(self) {
        send_wake(&self.sender, self.task);
    }

    /// Wake without consuming the waker.
    pub fn wake_by_ref(&self) {
        send_wake(&self.sender, self.task);
    }
}

} // verus!
