//! Trusted surface over the OS readiness poller and its errors.
//!
//! Everything the runtime asks of the operating system goes through the
//! wrappers in this file: registering a file descriptor with an interest
//! mask, blocking for events, and waking a parked wait from another thread.
//! What an event means is OS-dependent, so the wrappers promise nothing
//! about the events that come back; the reactor's verified logic takes
//! them as plain values.

use vstd::prelude::*;

verus! {

/// The OS readiness poller.
/// Relies on polling::Poller, which multiplexes readiness for many file
/// descriptors behind one blocking wait.
#[verifier::external_type_specification]
#[verifier::external_body]
pub struct ExPoller(polling::Poller);

/// The standard library's I/O error.
#[verifier::external_type_specification]
#[verifier::external_body]
pub struct ExIoError(std::io::Error);

/// A readiness event, reduced to plain values: which descriptor fired and
/// in which directions.
#[derive(Clone, Copy, Debug, PartialEq, Eq, Structural)]
pub struct FdEvent {
    /// The key the descriptor was registered under (the descriptor itself).
    pub fd: usize,
    /// The descriptor can be read without blocking.
    pub readable: bool,
    /// The descriptor can be written without blocking.
    pub writable: bool,
}

/// A runtime-fatal I/O failure, surfaced to the caller of `block_on`.
#[derive(Clone, Copy, Debug, PartialEq, Eq)]
pub enum IoError {
    /// An OS call failed, with its raw error code when the OS gave one.
    Os(Option<i32>),
    /// The executor spent its entire turn budget without reaching
    /// quiescence.  The budget is `usize::MAX` turns, so this is out of
    /// reach in practice; it exists so that every loop in the runtime has
    /// a stated bound.
    TurnsExhausted,
}

/// Relies on polling::Poller::new: creates an OS poller with no
/// descriptors registered.
#[verifier::external_body]
pub(crate) fn poller_new() -> Result<polling::Poller, std::io::Error> {
    polling::Poller::new()
}

/// Relies on polling::Poller::add: registers the descriptor under its own
/// value as key, in the default one-shot mode, with the given interest
/// mask.
#[verifier::external_body]
pub(crate) fn poller_add(
    p: &polling::Poller,
    fd: usize,
    readable: bool,
    writable: bool,
) -> Result<(), std::io::Error> {
    p.add(fd as i32, polling::Event { key: fd, readable, writable })
}

/// Relies on polling::Poller::modify: replaces the interest mask of an
/// already-registered descriptor and re-arms its one-shot interest.
#[verifier::external_body]
pub(crate) fn poller_modify(
    p: &polling::Poller,
    fd: usize,
    readable: bool,
    writable: bool,
) -> Result<(), std::io::Error> {
    p.modify(fd as i32, polling::Event { key: fd, readable, writable })
}

/// Relies on polling::Poller::delete: removes the descriptor from the
/// poller.
#[verifier::external_body]
pub(crate) fn poller_delete(p: &polling::Poller, fd: usize) -> Result<(), std::io::Error> {
    p.delete(fd as i32)
}

/// Relies on polling::Poller::wait: blocks up to the timeout (forever when
/// none is given) and hands back the fired events as plain values.  May
/// return no events when woken by `notify`, on timeout, or spuriously.
#[verifier::external_body]
pub(crate) fn poller_wait(
    p: &polling::Poller,
    timeout_ms: Option<u64>,
) -> Result<Vec<FdEvent>, std::io::Error> {
    let mut raw: Vec<polling::Event> = Vec::new();
    p.wait(&mut raw, timeout_ms.map(std::time::Duration::from_millis))?;
    Ok(raw.iter().map(|e| FdEvent { fd: e.key, readable: e.readable, writable: e.writable }).collect())
}

/// Relies on polling::Poller::notify: makes the current or next `wait`
/// return immediately; callable from any thread.
#[verifier::external_body]
pub(crate) fn poller_notify(p: &polling::Poller) -> Result<(), std::io::Error> {
    p.notify()
}

/// Relies on std::sync::Arc::clone: the clone is a second handle to the
/// same OS poller, so `notify` through it unblocks the same `wait`.
#[verifier::external_body]
pub(crate) fn share_poller(p: &std::sync::Arc<polling::Poller>) -> (r: std::sync::Arc<
    polling::Poller,
>)
    ensures
        r == *p,
{
    std::sync::Arc::clone(p)
}

/// Relies on std::io::Error::kind: tells an interrupted wait (EINTR),
/// which the reactor retries, apart from every other failure.
#[verifier::external_body]
pub(crate) fn is_interrupted(e: &std::io::Error) -> bool {
    e.kind() == std::io::ErrorKind::Interrupted
}

/// Relies on std::io::Error::raw_os_error: the raw OS code behind the
/// error, when the error came from the OS.
#[verifier::external_body]
pub(crate) fn os_code(e: &std::io::Error) -> Option<i32> {
    e.raw_os_error()
}

impl IoError {
    /// Fold a standard I/O error into the runtime's own error value.
    pub(crate) fn of(e: &std::io::Error) -> (r: IoError)
        ensures
            r is Os,
    {
        IoError::Os(os_code(e))
    }
}

} // verus!
