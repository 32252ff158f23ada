//! The ready queue: an ordered sequence of task identifiers plus the
//! receiving end of the wake channel.
//!
//! Wakers push identifiers into the channel; `receive` absorbs them into
//! the internal vector between turns.  Absorption deduplicates, so a task
//! never stands in the ready queue twice, however many of its wakers fired
//! (see [`lemma_duplicate_wakes_enqueue_once`]).  Drain order is FIFO.

use crate::channel::{clone_sender, try_recv_wake, wake_channel};
use vstd::prelude::*;

verus! {

/// A spawned task: the user's pollable state machine.
pub struct Task<T> {
    /// The suspended computation the executor polls.
    pub future: T,
}

/// FIFO queue of ready task identifiers, fed by the wake channel.
pub struct TaskQueue {
    sender: std::sync::mpsc::Sender<usize>,
    receiver: std::sync::mpsc::Receiver<usize>,
    tasks: Vec<usize>,
}

/// Enqueue one identifier unless it is already queued.
pub open spec fn spec_enqueue(q: Seq<usize>, id: usize) -> Seq<usize> {
    if q.contains(id) {
        q
    } else {
        q.push(id)
    }
}

/// Absorb a batch of wakes, oldest first, deduplicating against the queue.
pub open spec fn spec_intake(q: Seq<usize>, batch: Seq<usize>) -> Seq<usize>
    decreases batch.len(),
{
    if batch.len() == 0 {
        q
    } else {
        spec_intake(spec_enqueue(q, batch[0]), batch.drop_first())
    }
}

impl View for TaskQueue {
    type V = Seq<usize>;

    closed spec fn view(&self) -> Seq<usize> {
        self.tasks@
    }
}

impl TaskQueue {
    /// A fresh, empty ready queue with its own wake channel.
    pub fn new() -> (q: TaskQueue)
        ensures
            q@ == Seq::<usize>::empty(),
    {
        let (sender, receiver) = wake_channel();
        TaskQueue { sender, receiver, tasks: Vec::new() }
    }

    /// A clone of the wake channel's sender half, for building wakers.
    pub fn sender(&self) -> std::sync::mpsc::Sender<usize> {
        clone_sender(&self.sender)
    }

    /// Remove and return the oldest ready identifier, if any.
    pub fn pop(&mut self) -> (r: Option<usize>)
        ensures
            old(self)@.len() == 0 ==> r is None && final(self)@ == old(self)@,
            old(self)@.len() > 0 ==> r == Some(old(self)@[0]) && final(self)@ == old(self)@.drop_first(),
            old(self)@.no_duplicates() ==> final(self)@.no_duplicates(),
    {
        if self.tasks.len() == 0 {
            None
        } else {
            let id = self.tasks.remove(0);
            assert(self@ =~= old(self)@.drop_first());
            Some(id)
        }
    }

    /// Append an identifier at the back, unconditionally.
    pub fn push(&mut self, id: usize)
        ensures
            final(self)@ == old(self)@.push(id),
    {
        self.tasks.push(id);
    }

    /// Whether an identifier is already queued.
    pub fn contains(&self, id: usize) -> (r: bool)
        ensures
            r == self@.contains(id),
    {
        let mut i: usize = 0;
        while i < self.tasks.len()
            invariant
                i <= self.tasks.len(),
                forall|j: int| 0 <= j < i ==> self.tasks@[j] != id,
            decreases self.tasks.len() - i,
        {
            if self.tasks[i] == id {
                assert(self@.contains(id));
                return true;
            }
            i += 1;
        }
        false
    }

    /// Enqueue an identifier unless it is already queued.
    pub fn enqueue(&mut self, id: usize)
        ensures
            final(self)@ == spec_enqueue(old(self)@, id),
            old(self)@.no_duplicates() ==> final(self)@.no_duplicates(),
    {
        if !self.contains(id) {
            self.push(id);
        }
    }

    /// Absorb the wakes sitting in the channel, oldest first,
    /// deduplicating against the queue.  The batch itself comes from the
    /// channel and is arbitrary: stale identifiers are allowed and are
    /// screened out later, when the executor finds no task under them.
    /// At most `usize::MAX` wakes are absorbed per call, so the loop has
    /// a bound; a remainder, if the bound were ever hit, is picked up by
    /// the next call.
    pub fn receive(&mut self)
        ensures
            exists|batch: Seq<usize>| final(self)@ == spec_intake(old(self)@, batch),
            old(self)@.no_duplicates() ==> final(self)@.no_duplicates(),
    {
        let ghost q0 = self@;
        let ghost mut batch: Seq<usize> = Seq::empty();
        let mut budget: usize = usize::MAX;
        loop
            invariant
                self@ == spec_intake(q0, batch),
            decreases budget,
        {
            if budget == 0 {
                break;
            }
            budget -= 1;
            match try_recv_wake(&self.receiver) {
                Some(id) => {
                    proof {
                        lemma_intake_snoc(q0, batch, id);
                        batch = batch.push(id);
                    }
                    self.enqueue(id);
                }
                None => {
                    break;
                }
            }
        }
        proof {
            lemma_intake_preserves(q0, batch);
        }
    }

    /// Whether the ready queue is empty.
    pub fn is_empty(&self) -> (r: bool)
        ensures
            r == (self@.len() == 0),
    {
        self.tasks.len() == 0
    }
}

/// Absorbing one more wake after a batch is the same as enqueueing it into
/// the result of the batch.
pub proof fn lemma_intake_snoc(q: Seq<usize>, batch: Seq<usize>, id: usize)
    ensures
        spec_intake(q, batch.push(id)) == spec_enqueue(spec_intake(q, batch), id),
    decreases batch.len(),
{
    if batch.len() == 0 {
        assert(batch.push(id)[0] == id);
        assert(batch.push(id).drop_first() =~= Seq::<usize>::empty());
        assert(batch.push(id).drop_first() == Seq::<usize>::empty());
        assert(spec_intake(spec_enqueue(q, id), Seq::<usize>::empty()) == spec_enqueue(q, id));
        assert(spec_intake(q, batch) == q);
    } else {
        assert(batch.push(id)[0] == batch[0]);
        assert(batch.push(id).drop_first() =~= batch.drop_first().push(id));
        assert(batch.push(id).drop_first() == batch.drop_first().push(id));
        lemma_intake_snoc(spec_enqueue(q, batch[0]), batch.drop_first(), id);
        assert(spec_intake(q, batch) == spec_intake(spec_enqueue(q, batch[0]), batch.drop_first()));
    }
}

/// Intake introduces no duplicate identifiers.
pub proof fn lemma_intake_preserves(q: Seq<usize>, batch: Seq<usize>)
    ensures
        q.no_duplicates() ==> spec_intake(q, batch).no_duplicates(),
    decreases batch.len(),
{
    if batch.len() > 0 {
        let q1 = spec_enqueue(q, batch[0]);
        assert(q.no_duplicates() ==> q1.no_duplicates()) by {
            if q.no_duplicates() && !q.contains(batch[0]) {
                assert(forall|j: int| 0 <= j < q.len() ==> q[j] != batch[0]);
            }
        }
        lemma_intake_preserves(q1, batch.drop_first());
    }
}

/// Interest idempotence, queue side: however many times the same wake is
/// delivered, the task is enqueued at most once, so one OS event leads to
/// at most one re-poll of the task it woke.
pub proof fn lemma_duplicate_wakes_enqueue_once(q: Seq<usize>, batch: Seq<usize>, id: usize)
    requires
        batch.len() >= 1,
        forall|i: int| 0 <= i < batch.len() ==> batch[i] == id,
    ensures
        spec_intake(q, batch) == spec_enqueue(q, id),
    decreases batch.len(),
{
    let q1 = spec_enqueue(q, batch[0]);
    if batch.len() == 1 {
        assert(spec_intake(q1, batch.drop_first()) == q1);
    } else {
        assert(q1.contains(id)) by {
            if !q.contains(id) {
                assert(q1[q1.len() - 1] == id);
            }
        }
        lemma_enqueue_already_queued(q1, batch.drop_first(), id);
    }
}

/// Helper: absorbing a batch made of one already-queued identifier changes
/// nothing.
proof fn lemma_enqueue_already_queued(q: Seq<usize>, batch: Seq<usize>, id: usize)
    requires
        q.contains(id),
        forall|i: int| 0 <= i < batch.len() ==> batch[i] == id,
    ensures
        spec_intake(q, batch) == q,
    decreases batch.len(),
{
    if batch.len() > 0 {
        assert(spec_enqueue(q, batch[0]) == q);
        lemma_enqueue_already_queued(q, batch.drop_first(), id);
    }
}

} // verus!
