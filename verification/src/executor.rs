//! The executor: owns the ready queue and the reactor, and polls each
//! ready task once per turn.
//!
//! Tasks live in a table keyed by identifier; the ready queue and the
//! wakers hold identifiers only.  A completed task's storage is freed at
//! once, so a wake that arrives late finds no task and is discarded.
//! There are no thread-local runtime handles: the runtime is threaded
//! explicitly through the polling context, which also carries the task's
//! waker and collects tasks spawned during a poll.

use crate::poller::IoError;
use crate::reactor::{spec_fired, spec_rd_after, spec_wr_after, Reactor};
use crate::task_queue::{
    lemma_duplicate_wakes_enqueue_once, lemma_intake_snoc, spec_enqueue, spec_intake, Task,
    TaskQueue,
};
use crate::waker::Waker;
use std::collections::HashMap;
use vstd::prelude::*;

verus! {

/// The result of one polling step.
#[derive(Debug, PartialEq, Eq)]
pub enum Poll<T> {
    /// The computation finished with this value.
    Ready(T),
    /// The computation cannot progress; a waker has been parked somewhere
    /// that will fire when it can.
    Pending,
}

/// A pollable computation: a stateful step function driven by the
/// executor.
///
/// Every pending return must first arrange a wake: park a waker in the
/// reactor under the awaited descriptor and direction, or hand one to a
/// background notifier.  A task that yields without doing so is never
/// polled again, and the runtime may reach quiescence and return while it
/// is still parked.
pub trait Pollable: Sized {
    /// Drive the computation one step.  Readiness interest is armed
    /// through `reactor`; `cx` holds the waker of the task being polled
    /// and accepts newly spawned tasks.
    fn poll(&mut self, reactor: &mut Reactor, cx: &mut PollContext<Self>) -> Poll<()>;
}

/// What a task sees while being polled: its own waker and a place to put
/// tasks it spawns.
pub struct PollContext<T> {
    waker: Waker,
    spawned: Vec<T>,
}

impl<T> PollContext<T> {
    /// The identifier of the task being polled.
    pub closed spec fn task(self) -> usize {
        self.waker.id()
    }

    /// The tasks spawned during this poll, oldest first.
    pub closed spec fn pending_spawns(self) -> Seq<T> {
        self.spawned@
    }

    /// A context for one poll of the task `waker` belongs to.
    pub fn new(waker: Waker) -> (cx: PollContext<T>)
        ensures
            cx.task() == waker.id(),
            cx.pending_spawns() == Seq::<T>::empty(),
    {
        PollContext { waker, spawned: Vec::new() }
    }

    /// A fresh waker bound to the task being polled.
    pub fn waker(&self) -> (w: Waker)
        ensures
            w.id() == self.task(),
    {
        self.waker.duplicate()
    }

    /// Hand a new task to the executor; it is enqueued when this poll
    /// returns.
    pub fn spawn(&mut self, future: T)
        ensures
            final(self).pending_spawns() == old(self).pending_spawns().push(future),
            final(self).task() == old(self).task(),
    {
        self.spawned.push(future);
    }

    /// Surrender the spawned tasks, oldest first.
    fn into_spawned(self) -> (v: Vec<T>)
        ensures
            v@ == self.pending_spawns(),
    {
        let PollContext { waker: _, spawned } = self;
        spawned
    }
}

/// Every stored identifier lies below the spawn counter.
pub open spec fn table_ids_below<T>(t: Map<usize, Task<T>>, bound: usize) -> bool {
    forall|k: usize| #[trigger] t.contains_key(k) ==> k < bound
}

/// The identifiers handed out by the spawns between two counter values:
/// `lo, lo + 1, ..., hi - 1`.
pub open spec fn id_range(lo: usize, hi: usize) -> Seq<usize> {
    Seq::new((hi - lo) as nat, |i: int| (lo + i) as usize)
}

/// One more spawn extends the handed-out range by its own identifier.
proof fn lemma_id_range_snoc(lo: usize, hi: usize)
    requires
        lo <= hi < usize::MAX,
    ensures
        id_range(lo, (hi + 1) as usize) == id_range(lo, hi).push(hi),
{
    assert(id_range(lo, (hi + 1) as usize) =~= id_range(lo, hi).push(hi));
}

/// The executor: ready queue, task table, and the reactor they share.
pub struct Executor<T> {
    tasks: TaskQueue,
    table: HashMap<usize, Task<T>>,
    reactor: Reactor,
    next_id: usize,
}

impl<T: Pollable> Executor<T> {
    /// The ready queue, oldest identifier first.
    pub closed spec fn queued(self) -> Seq<usize> {
        self.tasks@
    }

    /// The live tasks, by identifier.
    pub closed spec fn table_view(self) -> Map<usize, Task<T>> {
        self.table@
    }

    /// The identifier the next spawned task will get.
    pub closed spec fn next_task_id(self) -> usize {
        self.next_id
    }

    /// Whether the reactor holds any outstanding interest.
    pub closed spec fn spec_has_interest(self) -> bool {
        self.reactor.spec_has_interest()
    }

    /// The first poller fault latched in the reactor, if any.
    pub closed spec fn spec_fault(self) -> Option<IoError> {
        self.reactor.spec_fault()
    }

    /// Well-formedness: a task never stands in the ready queue twice, and
    /// every stored task's identifier was handed out by a past spawn,
    /// that is, lies below the counter.  Established by `new`; every
    /// method preserves it.  The first half is what makes duplicate
    /// wakeups harmless: however many wakers of one task fire, the task
    /// is re-polled at most once per turn.  The ready queue itself may
    /// hold identifiers the wake channel delivered that name no stored
    /// task; they are discarded when polled.
    pub open spec fn wf(self) -> bool {
        &&& self.queued().no_duplicates()
        &&& table_ids_below(self.table_view(), self.next_task_id())
    }

    /// Quiescence: nothing is ready and nothing is awaited, so there is
    /// no way for any task to run again.
    pub open spec fn quiescent(self) -> bool {
        self.queued().len() == 0 && !self.spec_has_interest()
    }

    /// A fresh executor with an empty queue, an empty task table, and a
    /// new reactor.
    pub fn new() -> (r: Result<Executor<T>, IoError>)
        ensures
            r matches Ok(ex) ==> ex.wf() && ex.quiescent() && ex.table_view() == Map::<
                usize,
                Task<T>,
            >::empty() && ex.next_task_id() == 0 && ex.spec_fault() is None,
    {
        match Reactor::new() {
            Ok(reactor) => {
                let ex = Executor {
                    tasks: TaskQueue::new(),
                    table: HashMap::new(),
                    reactor,
                    next_id: 0,
                };
                Ok(ex)
            }
            Err(e) => Err(e),
        }
    }

    /// The body of `spawn`, with the reactor's preservation stated over
    /// the private field so that the executor's own callers can use it.
    fn spawn_inner(&mut self, future: T)
        requires
            old(self).wf(),
        ensures
            final(self).wf(),
            final(self).reactor == old(self).reactor,
            old(self).next_task_id() < usize::MAX ==> {
                &&& final(self).table_view() == old(self).table_view().insert(
                    old(self).next_task_id(),
                    (Task { future }),
                )
                &&& final(self).queued() == spec_enqueue(
                    old(self).queued(),
                    old(self).next_task_id(),
                )
                &&& final(self).next_task_id() == old(self).next_task_id() + 1
            },
            old(self).next_task_id() == usize::MAX ==> *final(self) == *old(self),
    {
        if self.next_id == usize::MAX {
            return;
        }
        let id = self.next_id;
        self.next_id = self.next_id + 1;
        self.table.insert(id, Task { future });
        self.tasks.enqueue(id);
        proof {
            assert(table_ids_below(self.table_view(), self.next_task_id())) by {
                assert forall|k: usize| #[trigger] self.table_view().contains_key(k) implies k
                    < self.next_task_id() by {
                    if k != id {
                        assert(old(self).table_view().contains_key(k));
                        assert(table_ids_below(old(self).table_view(), old(self).next_task_id()));
                    }
                }
            }
        }
    }

    /// Box the task into the table under a fresh identifier and enqueue
    /// it.  When the identifier space is spent (after `usize::MAX`
    /// spawns, unreachable in practice) the task is dropped and nothing
    /// changes.
    pub fn spawn(&mut self, future: T)
        requires
            old(self).wf(),
        ensures
            final(self).wf(),
            old(self).next_task_id() < usize::MAX ==> {
                &&& final(self).table_view() == old(self).table_view().insert(
                    old(self).next_task_id(),
                    (Task { future }),
                )
                &&& final(self).queued() == spec_enqueue(
                    old(self).queued(),
                    old(self).next_task_id(),
                )
                &&& final(self).next_task_id() == old(self).next_task_id() + 1
            },
            old(self).next_task_id() == usize::MAX ==> *final(self) == *old(self),
            final(self).spec_has_interest() == old(self).spec_has_interest(),
            final(self).spec_fault() == old(self).spec_fault(),
    {
        self.spawn_inner(future);
    }

    /// Run until the ready queue is empty and the reactor holds no
    /// interest.  One turn: drain-and-poll the ready queue, absorb wakes,
    /// and either finish, or park on the OS poller and dispatch what it
    /// fired.  On success the runtime is quiescent and no poller fault
    /// struck.  An error is an OS failure — latched in the reactor while
    /// a task armed or released interest, or surfaced by the blocking
    /// wait — or the turn budget of `usize::MAX` running out, which no
    /// real workload reaches.
    pub fn run(&mut self) -> (r: Result<(), IoError>)
        requires
            old(self).wf(),
        ensures
            final(self).wf(),
            r matches Ok(_) ==> final(self).quiescent() && final(self).spec_fault() is None,
            r matches Err(e) ==> e is Os || e is TurnsExhausted,
    {
        let mut turns: usize = usize::MAX;
        loop
            invariant
                self.wf(),
            decreases turns,
        {
            if turns == 0 {
                return Err(IoError::TurnsExhausted);
            }
            turns -= 1;
            match self.tasks.pop() {
                Some(id) => {
                    self.poll_one(id);
                    // a poller failure while the task armed or released
                    // interest is a corrupt runtime: stop with it
                    if let Some(e) = self.reactor.take_fault() {
                        return Err(e);
                    }
                }
                None => {
                    // the queue is drained: absorb wakes produced during
                    // the drain before deciding whether to block
                    self.tasks.receive();
                    if self.tasks.is_empty() {
                        if !self.reactor.waiting_on_events() {
                            match self.reactor.take_fault() {
                                Some(e) => {
                                    return Err(e);
                                }
                                None => {
                                    return Ok(());
                                }
                            }
                        }
                        match self.wait_for_io() {
                            Ok(_) => {}
                            Err(e) => {
                                return Err(e);
                            }
                        }
                        self.tasks.receive();
                    }
                }
            }
        }
    }

    /// Poll one task: look it up, build its waker, poll it, and keep or
    /// free its storage.  A vacant identifier is a late wake for a
    /// completed task and is discarded, changing nothing.  For a live
    /// task, the entry is freed when the poll returns ready and kept when
    /// it returns pending, so the table's domain changes only at that
    /// identifier and at the fresh identifiers of tasks spawned during
    /// the poll; those spawns are absorbed into the table and, per
    /// `spec_enqueue`, into the ready queue.  The polled task may do
    /// anything to the reactor through the `&mut` it is handed, so
    /// nothing is claimed of the reactor here.
    fn poll_one(&mut self, id: usize)
        requires
            old(self).wf(),
        ensures
            final(self).wf(),
            final(self).next_task_id() >= old(self).next_task_id(),
            !old(self).table_view().contains_key(id) ==> {
                &&& final(self).table_view() == old(self).table_view()
                &&& final(self).queued() == old(self).queued()
                &&& final(self).next_task_id() == old(self).next_task_id()
                &&& final(self).reactor == old(self).reactor
            },
            old(self).table_view().contains_key(id) ==> {
                &&& final(self).queued() == spec_intake(
                    old(self).queued(),
                    id_range(old(self).next_task_id(), final(self).next_task_id()),
                )
                &&& forall|k: usize|
                    k != id && !(old(self).next_task_id() <= k < final(self).next_task_id())
                        ==> (#[trigger] final(self).table_view().contains_key(k) == old(self).table_view().contains_key(k) && (old(self).table_view().contains_key(k)
                        ==> final(self).table_view()[k] == old(self).table_view()[k]))
            },
    {
        let ghost t0 = self.table_view();
        match self.table.remove(&id) {
            None => {
                proof {
                    assert(self.table_view() =~= t0);
                }
            }
            Some(mut task) => {
                let waker = Waker::new(id, self.tasks.sender());
                let mut cx = PollContext::new(waker);
                match task.future.poll(&mut self.reactor, &mut cx) {
                    Poll::Ready(_) => {
                        // completed: the storage is freed here, so a
                        // lingering waker clone re-enqueues a vacant
                        // identifier
                    }
                    Poll::Pending => {
                        self.table.insert(id, task);
                        proof {
                            assert(table_ids_below(self.table_view(), self.next_task_id())) by {
                                assert forall|k: usize| #[trigger]
                                    self.table_view().contains_key(k) implies k
                                    < self.next_task_id() by {
                                    if k != id {
                                        assert(old(self).table_view().contains_key(k));
                                        assert(table_ids_below(
                                            old(self).table_view(),
                                            old(self).next_task_id(),
                                        ));
                                    }
                                }
                            }
                        }
                    }
                }
                let ghost t1 = self.table_view();
                let ghost n1 = self.next_task_id();
                self.absorb(cx);
                proof {
                    assert(n1 == old(self).next_task_id());
                    assert forall|k: usize|
                        k != id && !(old(self).next_task_id() <= k < self.next_task_id())
                            implies (#[trigger] self.table_view().contains_key(k) == old(self).table_view().contains_key(k) && (old(self).table_view().contains_key(k)
                        ==> self.table_view()[k] == old(self).table_view()[k])) by {
                        assert(t1.contains_key(k) == old(self).table_view().contains_key(k));
                        if old(self).table_view().contains_key(k) {
                            assert(t1[k] == old(self).table_view()[k]);
                            assert(self.table_view()[k] == t1[k]);
                        }
                    }
                }
            }
        }
    }

    /// Move the tasks spawned during a poll into the table and the ready
    /// queue, oldest first.  Each gets the next identifier off the
    /// counter, so the absorbed identifiers are exactly the counter's
    /// range before-to-after, the queue grows by them per the dedup
    /// intake, and nothing already stored is touched.
    fn absorb(&mut self, cx: PollContext<T>)
        requires
            old(self).wf(),
        ensures
            final(self).wf(),
            final(self).next_task_id() >= old(self).next_task_id(),
            final(self).queued() == spec_intake(
                old(self).queued(),
                id_range(old(self).next_task_id(), final(self).next_task_id()),
            ),
            forall|k: usize| #[trigger]
                final(self).table_view().contains_key(k) == (old(self).table_view().contains_key(k) || old(self).next_task_id() <= k < final(self).next_task_id()),
            forall|k: usize| #[trigger]
                old(self).table_view().contains_key(k) ==> final(self).table_view()[k] == old(self).table_view()[k],
            final(self).reactor == old(self).reactor,
    {
        let ghost n0 = self.next_task_id();
        let ghost q0 = self.queued();
        let ghost t0 = self.table_view();
        let ghost r0 = self.reactor;
        let mut spawned = cx.into_spawned();
        proof {
            assert(id_range(n0, n0) =~= Seq::<usize>::empty());
        }
        loop
            invariant
                self.wf(),
                n0 <= self.next_task_id(),
                self.queued() == spec_intake(q0, id_range(n0, self.next_task_id())),
                forall|k: usize| #[trigger]
                    self.table_view().contains_key(k) == (t0.contains_key(k) || n0 <= k
                        < self.next_task_id()),
                forall|k: usize| #[trigger]
                    t0.contains_key(k) ==> self.table_view()[k] == t0[k],
                table_ids_below(t0, n0),
                self.reactor == r0,
            decreases spawned@.len(),
        {
            if spawned.len() == 0 {
                break;
            }
            let future = spawned.remove(0);
            let ghost pre = self.next_task_id();
            let ghost pre_table = self.table_view();
            self.spawn_inner(future);
            proof {
                if pre < usize::MAX {
                    lemma_id_range_snoc(n0, pre);
                    lemma_intake_snoc(q0, id_range(n0, pre), pre);
                    assert forall|k: usize| #[trigger]
                        self.table_view().contains_key(k) == (t0.contains_key(k) || n0 <= k
                            < self.next_task_id()) by {
                        assert(self.table_view().contains_key(k) == (pre_table.contains_key(k) || k
                            == pre));
                    }
                }
            }
        }
    }

    /// Park on the OS poller, then harvest the fired events into wakers
    /// and invoke each once, in firing order.  Parking is only reached
    /// with the ready queue drained and interest outstanding: the
    /// executor never spins, and never blocks while work is ready or
    /// when no event could ever come.  The queue, the task table and the
    /// counter are untouched; on success there is some OS event batch
    /// under which the interest maps were harvested and whose fired
    /// wakers the returned count tallies — in particular, parking never
    /// adds interest.  A failure comes from the wait, is an OS error,
    /// and leaves the interest maps unchanged with no waker invoked.
    fn wait_for_io(&mut self) -> (r: Result<usize, IoError>)
        requires
            old(self).wf(),
            old(self).queued().len() == 0,
            old(self).spec_has_interest(),
        ensures
            final(self).wf(),
            final(self).queued() == old(self).queued(),
            final(self).table_view() == old(self).table_view(),
            final(self).next_task_id() == old(self).next_task_id(),
            final(self).spec_fault() == old(self).spec_fault(),
            r matches Ok(n) ==> exists|batch: Seq<crate::poller::FdEvent>| {
                &&& final(self).reactor.rd() == spec_rd_after(old(self).reactor.rd(), batch)
                &&& final(self).reactor.wr() == spec_wr_after(old(self).reactor.wr(), batch)
                &&& n == spec_fired(old(self).reactor.rd(), old(self).reactor.wr(), batch).len()
            },
            r matches Err(e) ==> e is Os && final(self).reactor.rd() == old(self).reactor.rd()
                && final(self).reactor.wr() == old(self).reactor.wr(),
    {
        let events = match self.reactor.wait(None) {
            Ok(events) => events,
            Err(e) => {
                return Err(e);
            }
        };
        let ghost batch = events@;
        let mut wakers = self.reactor.wakers(events);
        let n = wakers.len();
        proof {
            assert(self.reactor.rd() == spec_rd_after(old(self).reactor.rd(), batch));
            assert(self.reactor.wr() == spec_wr_after(old(self).reactor.wr(), batch));
            assert(n == spec_fired(old(self).reactor.rd(), old(self).reactor.wr(), batch).len());
        }
        let ghost harvested = *self;
        loop
            invariant
                *self == harvested,
                harvested.wf(),
                harvested.queued() == old(self).queued(),
                harvested.table_view() == old(self).table_view(),
                harvested.next_task_id() == old(self).next_task_id(),
                harvested.spec_fault() == old(self).spec_fault(),
                harvested.reactor.rd() == spec_rd_after(old(self).reactor.rd(), batch),
                harvested.reactor.wr() == spec_wr_after(old(self).reactor.wr(), batch),
                n == spec_fired(old(self).reactor.rd(), old(self).reactor.wr(), batch).len(),
            decreases wakers@.len(),
        {
            if wakers.len() == 0 {
                break;
            }
            let w = wakers.remove(0);
            w.wake();
        }
        proof {
            assert(self.reactor.rd() == spec_rd_after(old(self).reactor.rd(), batch));
        }
        Ok(n)
    }
}

/// Enter the runtime: spawn the seed task on a fresh executor and run
/// until the ready queue is empty and no interest remains.  Returns the
/// first fatal reactor error, with all in-flight tasks dropped.
pub fn block_on<T: Pollable>(future: T) -> Result<(), IoError> {
    match Executor::<T>::new() {
        Ok(mut ex) => {
            ex.spawn(future);
            ex.run()
        }
        Err(e) => Err(e),
    }
}

/// Wake delivery meets interest idempotence, end to end.  Take any ready
/// queue without duplicates — which `wf` guarantees — and any non-empty
/// waker queue armed for one task `t` (re-arming the same direction many
/// times within one pending return builds exactly such a queue).  When
/// the awaited event fires, the reactor hands every armed waker out and
/// the executor invokes each, so the wake batch carries `t` once per
/// waker; absorbing that whole batch enqueues `t` exactly once.  The task
/// is therefore re-polled, and re-polled at most once per OS event.
pub proof fn lemma_wakes_enqueue_once(q: Seq<usize>, entry: Seq<Waker>, t: usize)
    requires
        entry.len() >= 1,
        forall|i: int| 0 <= i < entry.len() ==> entry[i].id() == t,
    ensures
        spec_intake(q, entry.map_values(|w: Waker| w.id())) == spec_enqueue(q, t),
        spec_intake(q, entry.map_values(|w: Waker| w.id())).contains(t),
{
    let batch = entry.map_values(|w: Waker| w.id());
    assert(forall|i: int| 0 <= i < batch.len() ==> batch[i] == t);
    lemma_duplicate_wakes_enqueue_once(q, batch, t);
    if !q.contains(t) {
        assert(spec_enqueue(q, t)[q.len() as int] == t);
    }
}

/// Enqueue a task whose result is discarded.  From inside a poll, spawn
/// through the polling context instead; this is for seeding an executor
/// before it runs.
pub fn spawn<T: Pollable>(executor: &mut Executor<T>, future: T)
    requires
        old(executor).wf(),
    ensures
        final(executor).wf(),
        old(executor).next_task_id() < usize::MAX ==> {
            &&& final(executor).table_view() == old(executor).table_view().insert(
                old(executor).next_task_id(),
                (Task { future }),
            )
            &&& final(executor).queued() == spec_enqueue(
                old(executor).queued(),
                old(executor).next_task_id(),
            )
            &&& final(executor).next_task_id() == old(executor).next_task_id() + 1
        },
        old(executor).next_task_id() == usize::MAX ==> *final(executor) == *old(executor),
{
    executor.spawn(future);
}

} // verus!
