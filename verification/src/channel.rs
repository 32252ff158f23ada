//! Trusted surface over the standard multi-producer channel that carries
//! wakeups.
//!
//! The wake channel moves task identifiers from wakers (possibly held by
//! other threads) to the executor's ready queue.  Its contents are shared
//! between every sender clone and the receiver, so nothing is promised
//! about the values that come out: the queue absorbs whatever arrives and
//! re-checks each identifier against the task table before polling.

use vstd::prelude::*;

verus! {

/// The sender half of the standard multi-producer channel.
/// Relies on std::sync::mpsc::Sender being cloneable and thread-safe.
#[verifier::external_type_specification]
#[verifier::external_body]
#[verifier::reject_recursive_types(T)]
pub struct ExSender<T>(std::sync::mpsc::Sender<T>);

/// The receiver half of the standard multi-producer channel.
#[verifier::external_type_specification]
#[verifier::external_body]
#[verifier::reject_recursive_types(T)]
pub struct ExReceiver<T>(std::sync::mpsc::Receiver<T>);

/// Relies on std::sync::mpsc::channel: returns a connected sender/receiver
/// pair for an asynchronous (unbounded) channel.
#[verifier::external_body]
pub fn wake_channel() -> (std::sync::mpsc::Sender<usize>, std::sync::mpsc::Receiver<usize>) {
    std::sync::mpsc::channel()
}

/// Relies on std::sync::mpsc::Sender::clone: the clone feeds the same
/// receiver as the sender it was cloned from.
#[verifier::external_body]
pub fn clone_sender(s: &std::sync::mpsc::Sender<usize>) -> std::sync::mpsc::Sender<usize> {
    s.clone()
}

/// Relies on std::sync::mpsc::Sender::send: enqueues the value unless the
/// receiver is gone.  A wake aimed at a runtime that has already shut down
/// is dropped silently, so this never panics.
#[verifier::external_body]
pub fn send_wake(s: &std::sync::mpsc::Sender<usize>, id: usize) {
    let _ = s.send(id);
}

/// Relies on std::sync::mpsc::Receiver::try_recv: returns a queued value
/// without blocking, or nothing when the channel is empty or disconnected.
#[verifier::external_body]
pub fn try_recv_wake(r: &std::sync::mpsc::Receiver<usize>) -> Option<usize> {
    match r.try_recv() {
        Ok(id) => Some(id),
        Err(_) => None,
    }
}

} // verus!
