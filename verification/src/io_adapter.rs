//! The I/O adapters' shared polling step.
//!
//! An adapter wraps a non-blocking socket: its poll makes one non-blocking
//! attempt (accept, read, or write) and hands the outcome here as plain
//! values.  Success and terminal errors complete the poll; not-ready parks
//! the task's waker in the reactor under the awaited descriptor and
//! direction, and yields.  The attempt itself touches the OS and stays
//! with the caller; every decision after it is made, and verified, here.

use crate::executor::Poll;
use crate::poller::IoError;
use crate::reactor::{entry_or_empty, Reactor};
use crate::waker::Waker;
use vstd::prelude::*;

verus! {

/// The readiness direction an I/O attempt waits on.
#[derive(Clone, Copy, Debug, PartialEq, Eq, Structural)]
pub enum Direction {
    /// Waiting to read (also what `accept` waits on).
    Read,
    /// Waiting to write.
    Write,
}

/// The outcome of one non-blocking I/O attempt, as plain values.
pub enum IoAttempt<T> {
    /// The call succeeded and produced this value.
    Done(T),
    /// The call failed for good; the error is surfaced to the caller.
    Failed(IoError),
    /// The call would have blocked; readiness must be awaited.
    NotReady,
}

/// Resolve one I/O attempt: complete on success or terminal failure,
/// park-and-yield on not-ready.
///
/// Not-ready arms the reactor: the waker joins the queue for `fd` in the
/// awaited direction and the OS interest mask is re-armed.  If the OS
/// poller rejects the re-arm — a programming bug such as an unregistered
/// descriptor — the failure is surfaced as the poll's result rather than
/// yielding, since no event could ever wake the task.
pub fn resolve_io<T>(
    reactor: &mut Reactor,
    fd: usize,
    dir: Direction,
    waker: Waker,
    attempt: IoAttempt<T>,
) -> (r: Poll<Result<T, IoError>>)
    ensures
        attempt matches IoAttempt::Done(v) ==> r == Poll::<Result<T, IoError>>::Ready(Ok(v))
            && *final(reactor) == *old(reactor),
        attempt matches IoAttempt::Failed(e) ==> r == Poll::<Result<T, IoError>>::Ready(Err(e))
            && *final(reactor) == *old(reactor),
        attempt is NotReady && dir is Read ==> final(reactor).rd() == old(reactor).rd().insert(
            fd,
            entry_or_empty(old(reactor).rd(), fd).push(waker),
        ) && final(reactor).wr() == old(reactor).wr(),
        attempt is NotReady && dir is Write ==> final(reactor).wr() == old(reactor).wr().insert(
            fd,
            entry_or_empty(old(reactor).wr(), fd).push(waker),
        ) && final(reactor).rd() == old(reactor).rd(),
        attempt is NotReady ==> match r {
            Poll::Ready(res) => res matches Err(_),
            Poll::Pending => true,
        },
{
    match attempt {
        IoAttempt::Done(v) => Poll::Ready(Ok(v)),
        IoAttempt::Failed(e) => Poll::Ready(Err(e)),
        IoAttempt::NotReady => {
            let armed = match dir {
                Direction::Read => reactor.wake_on_readable(fd, waker),
                Direction::Write => reactor.wake_on_writable(fd, waker),
            };
            match armed {
                Ok(()) => Poll::Pending,
                Err(e) => Poll::Ready(Err(e)),
            }
        }
    }
}

} // verus!
