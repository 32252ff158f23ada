//! The reactor: bridges OS readiness notifications to wakers.
//!
//! Interest is tracked in two mappings keyed by file descriptor, one per
//! direction.  Arming appends a waker to the direction's queue and pushes
//! the recomputed interest mask to the OS poller; harvesting a fired event
//! drains the matching queues, in registration order, readable before
//! writable.  Entries are consumed whole on fire, so interest is one-shot:
//! a task re-arms by polling again.

use crate::poller::{
    is_interrupted, poller_add, poller_delete, poller_modify, poller_new, poller_notify,
    poller_wait, share_poller, FdEvent, IoError,
};
use crate::waker::Waker;
use std::collections::HashMap;
use vstd::prelude::*;

verus! {

/// The wakers parked under a descriptor, oldest first; empty when the
/// descriptor has no entry.
pub open spec fn entry_or_empty(m: Map<usize, Seq<Waker>>, fd: usize) -> Seq<Waker> {
    if m.contains_key(fd) {
        m[fd]
    } else {
        Seq::empty()
    }
}

/// The waker queue of `fd` in `m`, provided the event direction fired.
pub open spec fn entry_if(m: Map<usize, Seq<Waker>>, fd: usize, fired: bool) -> Seq<Waker> {
    if fired && m.contains_key(fd) {
        m[fd]
    } else {
        Seq::empty()
    }
}

/// The readable interest map after a batch of events: each event whose
/// readable direction fired consumes that descriptor's entry.
pub open spec fn spec_rd_after(
    rd: Map<usize, Seq<Waker>>,
    events: Seq<FdEvent>,
) -> Map<usize, Seq<Waker>>
    decreases events.len(),
{
    if events.len() == 0 {
        rd
    } else {
        spec_rd_after(
            if events[0].readable {
                rd.remove(events[0].fd)
            } else {
                rd
            },
            events.drop_first(),
        )
    }
}

/// The writable interest map after a batch of events.
pub open spec fn spec_wr_after(
    wr: Map<usize, Seq<Waker>>,
    events: Seq<FdEvent>,
) -> Map<usize, Seq<Waker>>
    decreases events.len(),
{
    if events.len() == 0 {
        wr
    } else {
        spec_wr_after(
            if events[0].writable {
                wr.remove(events[0].fd)
            } else {
                wr
            },
            events.drop_first(),
        )
    }
}

/// Every waker a batch of events unblocks, in firing order: events in OS
/// order, and per event the readable queue before the writable queue,
/// each queue oldest waker first.
pub open spec fn spec_fired(
    rd: Map<usize, Seq<Waker>>,
    wr: Map<usize, Seq<Waker>>,
    events: Seq<FdEvent>,
) -> Seq<Waker>
    decreases events.len(),
{
    if events.len() == 0 {
        Seq::empty()
    } else {
        let e = events[0];
        entry_if(rd, e.fd, e.readable) + entry_if(wr, e.fd, e.writable) + spec_fired(
            if e.readable {
                rd.remove(e.fd)
            } else {
                rd
            },
            if e.writable {
                wr.remove(e.fd)
            } else {
                wr
            },
            events.drop_first(),
        )
    }
}

/// The interest map as a map of waker sequences.
spec fn view_of(m: Map<usize, Vec<Waker>>) -> Map<usize, Seq<Waker>> {
    m.map_values(|v: Vec<Waker>| v@)
}

proof fn lemma_view_insert(m: Map<usize, Vec<Waker>>, k: usize, v: Vec<Waker>)
    ensures
        view_of(m.insert(k, v)) == view_of(m).insert(k, v@),
{
    assert(view_of(m.insert(k, v)) =~= view_of(m).insert(k, v@));
}

proof fn lemma_view_remove(m: Map<usize, Vec<Waker>>, k: usize)
    ensures
        view_of(m.remove(k)) == view_of(m).remove(k),
{
    assert(view_of(m.remove(k)) =~= view_of(m).remove(k));
}

/// Appending one event to a batch harvests what the batch harvests, then
/// whatever still stands under the new event's descriptor.
proof fn lemma_fired_snoc(
    rd: Map<usize, Seq<Waker>>,
    wr: Map<usize, Seq<Waker>>,
    events: Seq<FdEvent>,
    e: FdEvent,
)
    ensures
        spec_fired(rd, wr, events.push(e)) == spec_fired(rd, wr, events) + entry_if(
            spec_rd_after(rd, events),
            e.fd,
            e.readable,
        ) + entry_if(spec_wr_after(wr, events), e.fd, e.writable),
        spec_rd_after(rd, events.push(e)) == (if e.readable {
            spec_rd_after(rd, events).remove(e.fd)
        } else {
            spec_rd_after(rd, events)
        }),
        spec_wr_after(wr, events.push(e)) == (if e.writable {
            spec_wr_after(wr, events).remove(e.fd)
        } else {
            spec_wr_after(wr, events)
        }),
    decreases events.len(),
{
    if events.len() == 0 {
        let one = events.push(e);
        assert(one[0] == e);
        assert(one.drop_first() =~= Seq::<FdEvent>::empty());
        assert(one.drop_first() == Seq::<FdEvent>::empty());
        let rd1 = if e.readable {
            rd.remove(e.fd)
        } else {
            rd
        };
        let wr1 = if e.writable {
            wr.remove(e.fd)
        } else {
            wr
        };
        assert(spec_fired(rd1, wr1, Seq::<FdEvent>::empty()) == Seq::<Waker>::empty());
        assert(spec_fired(rd, wr, one) == entry_if(rd, e.fd, e.readable) + entry_if(
            wr,
            e.fd,
            e.writable,
        ) + Seq::<Waker>::empty());
        assert(spec_fired(rd, wr, events) == Seq::<Waker>::empty());
        assert(spec_rd_after(rd, events) == rd);
        assert(spec_wr_after(wr, events) == wr);
        assert(spec_fired(rd, wr, one) =~= spec_fired(rd, wr, events) + entry_if(
            rd,
            e.fd,
            e.readable,
        ) + entry_if(wr, e.fd, e.writable));
        assert(spec_rd_after(rd1, Seq::<FdEvent>::empty()) == rd1);
        assert(spec_wr_after(wr1, Seq::<FdEvent>::empty()) == wr1);
        assert(spec_rd_after(rd, one) == rd1);
        assert(spec_wr_after(wr, one) == wr1);
    } else {
        let e0 = events[0];
        let rd1 = if e0.readable {
            rd.remove(e0.fd)
        } else {
            rd
        };
        let wr1 = if e0.writable {
            wr.remove(e0.fd)
        } else {
            wr
        };
        assert(events.push(e)[0] == e0);
        assert(events.push(e).drop_first() =~= events.drop_first().push(e));
        lemma_fired_snoc(rd1, wr1, events.drop_first(), e);
        assert(spec_fired(rd, wr, events.push(e)) =~= spec_fired(rd, wr, events) + entry_if(
            spec_rd_after(rd, events),
            e.fd,
            e.readable,
        ) + entry_if(spec_wr_after(wr, events), e.fd, e.writable));
    }
}

/// The reactor interest table: per-descriptor waker queues for the
/// readable and the writable direction.
pub struct InterestTable {
    readable: HashMap<usize, Vec<Waker>>,
    writable: HashMap<usize, Vec<Waker>>,
}

impl InterestTable {
    /// The readable interest map: descriptor to parked wakers, oldest
    /// first.
    pub closed spec fn rd(self) -> Map<usize, Seq<Waker>> {
        view_of(self.readable@)
    }

    /// The writable interest map.
    pub closed spec fn wr(self) -> Map<usize, Seq<Waker>> {
        view_of(self.writable@)
    }

    /// Well-formedness: a present entry holds at least one waker.
    /// Entries are created by arming and consumed whole by harvest and
    /// removal, so an empty queue never lingers to inflate the interest
    /// mask.  `new` establishes this and every method preserves it.
    pub open spec fn wf(self) -> bool {
        &&& forall|fd: usize| #[trigger]
            self.rd().contains_key(fd) ==> self.rd()[fd].len() > 0
        &&& forall|fd: usize| #[trigger]
            self.wr().contains_key(fd) ==> self.wr()[fd].len() > 0
    }

    /// An empty table: no interest in any direction.
    pub fn new() -> (t: InterestTable)
        ensures
            t.rd() == Map::<usize, Seq<Waker>>::empty(),
            t.wr() == Map::<usize, Seq<Waker>>::empty(),
            t.wf(),
    {
        let t = InterestTable { readable: HashMap::new(), writable: HashMap::new() };
        proof {
            assert(t.rd() =~= Map::<usize, Seq<Waker>>::empty());
            assert(t.wr() =~= Map::<usize, Seq<Waker>>::empty());
        }
        t
    }

    /// Append a waker to the readable queue of `fd`.
    pub fn arm_readable(&mut self, fd: usize, w: Waker)
        ensures
            final(self).rd() == old(self).rd().insert(
                fd,
                entry_or_empty(old(self).rd(), fd).push(w),
            ),
            final(self).wr() == old(self).wr(),
            old(self).wf() ==> final(self).wf(),
    {
        let ghost rd0 = self.rd();
        let mut v = match self.readable.remove(&fd) {
            Some(v) => v,
            None => Vec::new(),
        };
        proof {
            lemma_view_remove(old(self).readable@, fd);
        }
        v.push(w);
        self.readable.insert(fd, v);
        proof {
            lemma_view_insert(old(self).readable@.remove(fd), fd, v);
            assert(self.rd() =~= rd0.insert(fd, entry_or_empty(rd0, fd).push(w)));
            if old(self).wf() {
                assert forall|k: usize| #[trigger] self.rd().contains_key(k) implies self.rd()[k].len()
                    > 0 by {
                    if k != fd {
                        assert(old(self).rd().contains_key(k));
                    }
                }
                assert forall|k: usize| #[trigger] self.wr().contains_key(k) implies self.wr()[k].len()
                    > 0 by {
                    assert(old(self).wr().contains_key(k));
                }
            }
        }
    }

    /// Append a waker to the writable queue of `fd`.
    pub fn arm_writable(&mut self, fd: usize, w: Waker)
        ensures
            final(self).wr() == old(self).wr().insert(
                fd,
                entry_or_empty(old(self).wr(), fd).push(w),
            ),
            final(self).rd() == old(self).rd(),
            old(self).wf() ==> final(self).wf(),
    {
        let ghost wr0 = self.wr();
        let mut v = match self.writable.remove(&fd) {
            Some(v) => v,
            None => Vec::new(),
        };
        proof {
            lemma_view_remove(old(self).writable@, fd);
        }
        v.push(w);
        self.writable.insert(fd, v);
        proof {
            lemma_view_insert(old(self).writable@.remove(fd), fd, v);
            assert(self.wr() =~= wr0.insert(fd, entry_or_empty(wr0, fd).push(w)));
            if old(self).wf() {
                assert forall|k: usize| #[trigger] self.wr().contains_key(k) implies self.wr()[k].len()
                    > 0 by {
                    if k != fd {
                        assert(old(self).wr().contains_key(k));
                    }
                }
                assert forall|k: usize| #[trigger] self.rd().contains_key(k) implies self.rd()[k].len()
                    > 0 by {
                    assert(old(self).rd().contains_key(k));
                }
            }
        }
    }

    /// The interest mask of `fd`: whether each direction has wakers
    /// parked.
    pub fn mask(&self, fd: usize) -> (r: (bool, bool))
        ensures
            r.0 == self.rd().contains_key(fd),
            r.1 == self.wr().contains_key(fd),
    {
        (self.readable.contains_key(&fd), self.writable.contains_key(&fd))
    }

    /// Drop both entries of a descriptor, releasing its interest.
    pub fn clear_fd(&mut self, fd: usize)
        ensures
            final(self).rd() == old(self).rd().remove(fd),
            final(self).wr() == old(self).wr().remove(fd),
            old(self).wf() ==> final(self).wf(),
    {
        self.readable.remove(&fd);
        self.writable.remove(&fd);
        proof {
            lemma_view_remove(old(self).readable@, fd);
            lemma_view_remove(old(self).writable@, fd);
        }
    }

    /// Harvest: for each fired event, move the matching queues out, in
    /// firing order.  The drained entries are gone afterwards, so the
    /// caller must re-arm to re-establish interest.
    pub fn drain(&mut self, events: &Vec<FdEvent>) -> (fired: Vec<Waker>)
        ensures
            fired@ == spec_fired(old(self).rd(), old(self).wr(), events@),
            final(self).rd() == spec_rd_after(old(self).rd(), events@),
            final(self).wr() == spec_wr_after(old(self).wr(), events@),
            old(self).wf() ==> final(self).wf(),
    {
        let ghost rd0 = self.rd();
        let ghost wr0 = self.wr();
        let mut fired: Vec<Waker> = Vec::new();
        let mut i: usize = 0;
        while i < events.len()
            invariant
                i <= events.len(),
                self.rd() == spec_rd_after(rd0, events@.subrange(0, i as int)),
                self.wr() == spec_wr_after(wr0, events@.subrange(0, i as int)),
                fired@ == spec_fired(rd0, wr0, events@.subrange(0, i as int)),
                forall|fd: usize| #[trigger]
                    self.rd().contains_key(fd) ==> rd0.contains_key(fd) && self.rd()[fd] == rd0[fd],
                forall|fd: usize| #[trigger]
                    self.wr().contains_key(fd) ==> wr0.contains_key(fd) && self.wr()[fd] == wr0[fd],
            decreases events.len() - i,
        {
            let ghost done = events@.subrange(0, i as int);
            let e = events[i];
            proof {
                lemma_fired_snoc(rd0, wr0, done, e);
                assert(events@.subrange(0, i + 1 as int) =~= done.push(e));
            }
            if e.readable {
                let ghost before = self.readable@;
                match self.readable.remove(&e.fd) {
                    Some(mut v) => {
                        fired.append(&mut v);
                    }
                    None => {
                        assert(fired@ =~= fired@ + Seq::<Waker>::empty());
                    }
                }
                proof {
                    lemma_view_remove(before, e.fd);
                }
            } else {
                assert(fired@ =~= fired@ + Seq::<Waker>::empty());
            }
            if e.writable {
                let ghost before = self.writable@;
                match self.writable.remove(&e.fd) {
                    Some(mut v) => {
                        fired.append(&mut v);
                    }
                    None => {
                        assert(fired@ =~= fired@ + Seq::<Waker>::empty());
                    }
                }
                proof {
                    lemma_view_remove(before, e.fd);
                }
            } else {
                assert(fired@ =~= fired@ + Seq::<Waker>::empty());
            }
            i += 1;
        }
        proof {
            assert(events@.subrange(0, events@.len() as int) =~= events@);
        }
        fired
    }

    /// Whether any waker is parked in either direction.
    pub fn has_interest(&self) -> (r: bool)
        ensures
            r == (self.rd().len() != 0 || self.wr().len() != 0),
    {
        proof {
            assert(self.rd().dom() =~= self.readable@.dom());
            assert(self.wr().dom() =~= self.writable@.dom());
        }
        !self.readable.is_empty() || !self.writable.is_empty()
    }
}

/// The reactor: the interest table plus the OS poller it mirrors into.
///
/// A failure from the poller while registering, re-arming or deleting a
/// descriptor is a programming bug (a bad descriptor, an unsupported
/// operation) and is fatal: the first such fault is latched here, and the
/// executor terminates the run with it.
pub struct Reactor {
    interest: InterestTable,
    poller: std::sync::Arc<polling::Poller>,
    fault: Option<IoError>,
}

/// A thread-safe handle that unblocks the reactor's parked wait from
/// another thread.  Background work that completes off the runtime thread
/// invokes its waker and then `notify`; without the notify, the wake
/// could sit unseen until an unrelated OS event.
pub struct Notifier {
    poller: std::sync::Arc<polling::Poller>,
}

impl Notifier {
    /// The poller this handle notifies.
    pub closed spec fn spec_poller(self) -> std::sync::Arc<polling::Poller> {
        self.poller
    }

    /// Make the current or next `wait` on the reactor's poller return
    /// immediately.  The unblocking itself is OS-internal state; what is
    /// promised is only that a failure is an OS error.
    pub fn notify(&self) -> (r: Result<(), IoError>)
        ensures
            r matches Err(e) ==> e is Os,
    {
        match poller_notify(&*self.poller) {
            Ok(()) => Ok(()),
            Err(e) => Err(IoError::of(&e)),
        }
    }
}

impl Reactor {
    /// The readable interest map.
    pub closed spec fn rd(self) -> Map<usize, Seq<Waker>> {
        self.interest.rd()
    }

    /// The writable interest map.
    pub closed spec fn wr(self) -> Map<usize, Seq<Waker>> {
        self.interest.wr()
    }

    /// Whether any interest is outstanding in either direction.
    pub open spec fn spec_has_interest(self) -> bool {
        self.rd().len() != 0 || self.wr().len() != 0
    }

    /// Well-formedness of the interest table: a present entry holds at
    /// least one waker.
    pub closed spec fn wf(self) -> bool {
        self.interest.wf()
    }

    /// The first poller fault, if one has struck.
    pub closed spec fn spec_fault(self) -> Option<IoError> {
        self.fault
    }

    /// The OS poller this reactor mirrors interest into.
    pub closed spec fn spec_poller(self) -> std::sync::Arc<polling::Poller> {
        self.poller
    }

    /// Latch the first fault; later ones keep the first, which names the
    /// original corruption.
    fn record_fault(&mut self, e: IoError) -> (r: IoError)
        ensures
            r == e,
            final(self).spec_fault() == (if old(self).spec_fault() is None {
                Some(e)
            } else {
                old(self).spec_fault()
            }),
            final(self).rd() == old(self).rd(),
            final(self).wr() == old(self).wr(),
            final(self).wf() == old(self).wf(),
    {
        if self.fault.is_none() {
            self.fault = Some(e);
        }
        e
    }

    /// Hand out and clear the latched fault.
    pub fn take_fault(&mut self) -> (r: Option<IoError>)
        ensures
            r == old(self).spec_fault(),
            final(self).spec_fault() is None,
            final(self).rd() == old(self).rd(),
            final(self).wr() == old(self).wr(),
            final(self).wf() == old(self).wf(),
    {
        self.fault.take()
    }

    /// A reactor with a fresh OS poller and no interest.
    pub fn new() -> (r: Result<Reactor, IoError>)
        ensures
            r matches Ok(rt) ==> rt.rd() == Map::<usize, Seq<Waker>>::empty() && rt.wr()
                == Map::<usize, Seq<Waker>>::empty() && rt.wf() && rt.spec_fault() is None,
    {
        match poller_new() {
            Ok(poller) => Ok(
                Reactor {
                    interest: InterestTable::new(),
                    poller: std::sync::Arc::new(poller),
                    fault: None,
                },
            ),
            Err(e) => Err(IoError::of(&e)),
        }
    }

    /// Register a descriptor with the OS poller under its current (usually
    /// empty) interest mask.  Callers register a source once, before first
    /// arming it.  A refusal from the OS is a fatal fault.
    pub fn add(&mut self, fd: usize) -> (r: Result<(), IoError>)
        ensures
            final(self).rd() == old(self).rd(),
            final(self).wr() == old(self).wr(),
            r matches Ok(_) ==> final(self).spec_fault() == old(self).spec_fault(),
            r matches Err(e) ==> final(self).spec_fault() == (if old(self).spec_fault() is None {
                Some(e)
            } else {
                old(self).spec_fault()
            }),
    {
        let (rmask, wmask) = self.interest.mask(fd);
        match poller_add(&*self.poller, fd, rmask, wmask) {
            Ok(()) => Ok(()),
            Err(e) => Err(self.record_fault(IoError::of(&e))),
        }
    }

    /// Park a waker under the readable direction of `fd` and push the
    /// recomputed mask to the OS.  A failure from the OS poller is fatal
    /// to the runtime; the waker is parked either way.
    pub fn wake_on_readable(&mut self, fd: usize, w: Waker) -> (r: Result<(), IoError>)
        ensures
            final(self).rd() == old(self).rd().insert(
                fd,
                entry_or_empty(old(self).rd(), fd).push(w),
            ),
            final(self).wr() == old(self).wr(),
            old(self).wf() ==> final(self).wf(),
            r matches Ok(_) ==> final(self).spec_fault() == old(self).spec_fault(),
            r matches Err(e) ==> final(self).spec_fault() == (if old(self).spec_fault() is None {
                Some(e)
            } else {
                old(self).spec_fault()
            }),
    {
        self.interest.arm_readable(fd, w);
        let (rmask, wmask) = self.interest.mask(fd);
        match poller_modify(&*self.poller, fd, rmask, wmask) {
            Ok(()) => Ok(()),
            Err(e) => Err(self.record_fault(IoError::of(&e))),
        }
    }

    /// Park a waker under the writable direction of `fd` and push the
    /// recomputed mask to the OS.
    pub fn wake_on_writable(&mut self, fd: usize, w: Waker) -> (r: Result<(), IoError>)
        ensures
            final(self).wr() == old(self).wr().insert(
                fd,
                entry_or_empty(old(self).wr(), fd).push(w),
            ),
            final(self).rd() == old(self).rd(),
            old(self).wf() ==> final(self).wf(),
            r matches Ok(_) ==> final(self).spec_fault() == old(self).spec_fault(),
            r matches Err(e) ==> final(self).spec_fault() == (if old(self).spec_fault() is None {
                Some(e)
            } else {
                old(self).spec_fault()
            }),
    {
        self.interest.arm_writable(fd, w);
        let (rmask, wmask) = self.interest.mask(fd);
        match poller_modify(&*self.poller, fd, rmask, wmask) {
            Ok(()) => Ok(()),
            Err(e) => Err(self.record_fault(IoError::of(&e))),
        }
    }

    /// Drop a descriptor from the OS poller and clear both interest
    /// entries.  Dropping an I/O source must release its interest: after
    /// this call the descriptor stands in neither direction's map,
    /// whatever the OS said.
    pub fn remove(&mut self, fd: usize) -> (r: Result<(), IoError>)
        ensures
            final(self).rd() == old(self).rd().remove(fd),
            final(self).wr() == old(self).wr().remove(fd),
            old(self).wf() ==> final(self).wf(),
            r matches Ok(_) ==> final(self).spec_fault() == old(self).spec_fault(),
            r matches Err(e) ==> final(self).spec_fault() == (if old(self).spec_fault() is None {
                Some(e)
            } else {
                old(self).spec_fault()
            }),
    {
        let res = poller_delete(&*self.poller, fd);
        self.interest.clear_fd(fd);
        match res {
            Ok(()) => Ok(()),
            Err(e) => Err(self.record_fault(IoError::of(&e))),
        }
    }

    /// Block on the OS poller up to the timeout (forever when none is
    /// given).  An interrupted wait is retried transparently; any other
    /// failure is surfaced.  The retries are bounded at `usize::MAX`
    /// consecutive interrupts — beyond reach in practice — after which
    /// the interrupt itself is surfaced as an OS error.  What the events
    /// hold is the OS's to decide (the wait may return none at all, on a
    /// notify, a timeout, or spuriously), so only the failure side is
    /// promised: an error is an OS error.
    pub fn wait(&self, timeout_ms: Option<u64>) -> (r: Result<Vec<FdEvent>, IoError>)
        ensures
            r matches Err(e) ==> e is Os,
    {
        let mut attempts: usize = usize::MAX;
        loop
            decreases attempts,
        {
            match poller_wait(&*self.poller, timeout_ms) {
                Ok(events) => {
                    return Ok(events);
                }
                Err(e) => {
                    if !is_interrupted(&e) || attempts == 0 {
                        return Err(IoError::of(&e));
                    }
                    attempts -= 1;
                }
            }
        }
    }

    /// Harvest fired events into the wakers they unblock; the caller
    /// invokes each.  Matching entries are consumed: re-arming is the only
    /// way to re-establish interest.
    pub fn wakers(&mut self, events: Vec<FdEvent>) -> (fired: Vec<Waker>)
        ensures
            fired@ == spec_fired(old(self).rd(), old(self).wr(), events@),
            final(self).rd() == spec_rd_after(old(self).rd(), events@),
            final(self).wr() == spec_wr_after(old(self).wr(), events@),
            old(self).wf() ==> final(self).wf(),
            final(self).spec_fault() == old(self).spec_fault(),
    {
        self.interest.drain(&events)
    }

    /// Whether any waker is parked in either direction: while true, the
    /// executor may not terminate, because an OS event could still wake a
    /// task.
    pub fn waiting_on_events(&self) -> (r: bool)
        ensures
            r == self.spec_has_interest(),
    {
        self.interest.has_interest()
    }

    /// A handle for waking the parked runtime from another thread; it
    /// notifies this reactor's own poller.
    pub fn notifier(&self) -> (r: Notifier)
        ensures
            r.spec_poller() == self.spec_poller(),
    {
        Notifier { poller: share_poller(&self.poller) }
    }

    /// Make the current or next `wait` return immediately.  Required when
    /// a wake arrives from a thread other than the runtime thread: without
    /// it, a cross-thread wake could sit unseen until an unrelated OS
    /// event.  A failure is an OS error.
    pub fn notify(&self) -> (r: Result<(), IoError>)
        ensures
            r matches Err(e) ==> e is Os,
    {
        match poller_notify(&*self.poller) {
            Ok(()) => Ok(()),
            Err(e) => Err(IoError::of(&e)),
        }
    }
}

/// Harvesting a single event: the fired wakers are exactly the matching
/// queues, readable before writable, and exactly those entries are
/// consumed.
pub proof fn lemma_single_event(
    rd: Map<usize, Seq<Waker>>,
    wr: Map<usize, Seq<Waker>>,
    e: FdEvent,
)
    ensures
        spec_fired(rd, wr, seq![e]) == entry_if(rd, e.fd, e.readable) + entry_if(
            wr,
            e.fd,
            e.writable,
        ),
        spec_rd_after(rd, seq![e]) == (if e.readable {
            rd.remove(e.fd)
        } else {
            rd
        }),
        spec_wr_after(wr, seq![e]) == (if e.writable {
            wr.remove(e.fd)
        } else {
            wr
        }),
{
    lemma_fired_snoc(rd, wr, Seq::empty(), e);
    assert(Seq::<FdEvent>::empty().push(e) =~= seq![e]);
    assert(spec_fired(rd, wr, Seq::<FdEvent>::empty()) == Seq::<Waker>::empty());
    assert(spec_rd_after(rd, Seq::<FdEvent>::empty()) == rd);
    assert(spec_wr_after(wr, Seq::<FdEvent>::empty()) == wr);
    assert(spec_fired(rd, wr, seq![e]) =~= entry_if(rd, e.fd, e.readable) + entry_if(
        wr,
        e.fd,
        e.writable,
    ));
}

/// No wakeup is lost by harvest, readable side: a waker queue parked
/// under a descriptor before a batch of events either survives the batch
/// untouched, or every one of its wakers stands among the fired, which
/// the executor invokes.  Nothing is silently dropped.
pub proof fn lemma_no_lost_readable_wakeups(
    rd: Map<usize, Seq<Waker>>,
    wr: Map<usize, Seq<Waker>>,
    events: Seq<FdEvent>,
    fd: usize,
)
    requires
        rd.contains_key(fd),
    ensures
        ({
            let after = spec_rd_after(rd, events);
            let fired = spec_fired(rd, wr, events);
            ||| (after.contains_key(fd) && after[fd] == rd[fd])
            ||| (forall|i: int| 0 <= i < rd[fd].len() ==> fired.contains(rd[fd][i]))
        }),
    decreases events.len(),
{
    if events.len() > 0 {
        let e = events[0];
        let rd1 = if e.readable {
            rd.remove(e.fd)
        } else {
            rd
        };
        let wr1 = if e.writable {
            wr.remove(e.fd)
        } else {
            wr
        };
        let head = entry_if(rd, e.fd, e.readable) + entry_if(wr, e.fd, e.writable);
        let rest = spec_fired(rd1, wr1, events.drop_first());
        let fired = spec_fired(rd, wr, events);
        assert(fired == head + rest);
        if e.readable && e.fd == fd {
            assert(entry_if(rd, e.fd, e.readable) == rd[fd]);
            assert forall|i: int| 0 <= i < rd[fd].len() implies fired.contains(rd[fd][i]) by {
                assert(fired[i] == rd[fd][i]);
            }
        } else {
            assert(rd1.contains_key(fd) && rd1[fd] == rd[fd]);
            lemma_no_lost_readable_wakeups(rd1, wr1, events.drop_first(), fd);
            let after1 = spec_rd_after(rd1, events.drop_first());
            assert(spec_rd_after(rd, events) == after1);
            if !(after1.contains_key(fd) && after1[fd] == rd1[fd]) {
                assert forall|i: int| 0 <= i < rd[fd].len() implies fired.contains(rd[fd][i]) by {
                    let w = rd[fd][i];
                    assert(rest.contains(w));
                    let j = choose|j: int| 0 <= j < rest.len() && rest[j] == w;
                    assert(fired[head.len() + j] == w);
                }
            }
        }
    }
}

/// No wakeup is lost by harvest, writable side.
pub proof fn lemma_no_lost_writable_wakeups(
    rd: Map<usize, Seq<Waker>>,
    wr: Map<usize, Seq<Waker>>,
    events: Seq<FdEvent>,
    fd: usize,
)
    requires
        wr.contains_key(fd),
    ensures
        ({
            let after = spec_wr_after(wr, events);
            let fired = spec_fired(rd, wr, events);
            ||| (after.contains_key(fd) && after[fd] == wr[fd])
            ||| (forall|i: int| 0 <= i < wr[fd].len() ==> fired.contains(wr[fd][i]))
        }),
    decreases events.len(),
{
    if events.len() > 0 {
        let e = events[0];
        let rd1 = if e.readable {
            rd.remove(e.fd)
        } else {
            rd
        };
        let wr1 = if e.writable {
            wr.remove(e.fd)
        } else {
            wr
        };
        let head = entry_if(rd, e.fd, e.readable) + entry_if(wr, e.fd, e.writable);
        let rest = spec_fired(rd1, wr1, events.drop_first());
        let fired = spec_fired(rd, wr, events);
        assert(fired == head + rest);
        if e.writable && e.fd == fd {
            assert(entry_if(wr, e.fd, e.writable) == wr[fd]);
            let lead = entry_if(rd, e.fd, e.readable);
            assert forall|i: int| 0 <= i < wr[fd].len() implies fired.contains(wr[fd][i]) by {
                assert(fired[lead.len() + i] == wr[fd][i]);
            }
        } else {
            assert(wr1.contains_key(fd) && wr1[fd] == wr[fd]);
            lemma_no_lost_writable_wakeups(rd1, wr1, events.drop_first(), fd);
            let after1 = spec_wr_after(wr1, events.drop_first());
            assert(spec_wr_after(wr, events) == after1);
            if !(after1.contains_key(fd) && after1[fd] == wr1[fd]) {
                assert forall|i: int| 0 <= i < wr[fd].len() implies fired.contains(wr[fd][i]) by {
                    let w = wr[fd][i];
                    assert(rest.contains(w));
                    let j = choose|j: int| 0 <= j < rest.len() && rest[j] == w;
                    assert(fired[head.len() + j] == w);
                }
            }
        }
    }
}

/// Wake delivery, readable side: arming a waker and then harvesting a
/// readable-only event for the same descriptor fires exactly the queue
/// that was armed — the earlier wakers in registration order, then the
/// new one.
pub proof fn lemma_armed_readable_fires(
    rd: Map<usize, Seq<Waker>>,
    wr: Map<usize, Seq<Waker>>,
    fd: usize,
    w: Waker,
    e: FdEvent,
)
    requires
        e.fd == fd,
        e.readable,
        !e.writable,
    ensures
        spec_fired(rd.insert(fd, entry_or_empty(rd, fd).push(w)), wr, seq![e]) == entry_or_empty(
            rd,
            fd,
        ).push(w),
{
    let rd2 = rd.insert(fd, entry_or_empty(rd, fd).push(w));
    let one = seq![e];
    assert(one[0] == e);
    assert(one.drop_first() =~= Seq::<FdEvent>::empty());
    assert(one.drop_first() == Seq::<FdEvent>::empty());
    assert(spec_fired(rd2.remove(e.fd), wr, Seq::<FdEvent>::empty()) == Seq::<Waker>::empty());
    assert(entry_if(rd2, e.fd, e.readable) == entry_or_empty(rd, fd).push(w));
    assert(entry_if(wr, e.fd, e.writable) == Seq::<Waker>::empty());
    assert(spec_fired(rd2, wr, one) =~= entry_or_empty(rd, fd).push(w));
}

/// Wake delivery, writable side.
pub proof fn lemma_armed_writable_fires(
    rd: Map<usize, Seq<Waker>>,
    wr: Map<usize, Seq<Waker>>,
    fd: usize,
    w: Waker,
    e: FdEvent,
)
    requires
        e.fd == fd,
        e.writable,
        !e.readable,
    ensures
        spec_fired(rd, wr.insert(fd, entry_or_empty(wr, fd).push(w)), seq![e]) == entry_or_empty(
            wr,
            fd,
        ).push(w),
{
    let wr2 = wr.insert(fd, entry_or_empty(wr, fd).push(w));
    let one = seq![e];
    assert(one[0] == e);
    assert(one.drop_first() =~= Seq::<FdEvent>::empty());
    assert(one.drop_first() == Seq::<FdEvent>::empty());
    assert(spec_fired(rd, wr2.remove(e.fd), Seq::<FdEvent>::empty()) == Seq::<Waker>::empty());
    assert(entry_if(wr2, e.fd, e.writable) == entry_or_empty(wr, fd).push(w));
    assert(entry_if(rd, e.fd, e.readable) == Seq::<Waker>::empty());
    assert(spec_fired(rd, wr2, one) =~= entry_or_empty(wr, fd).push(w));
}

} // verus!
