//! A single-threaded, cooperative task runtime bound to a readiness-based
//! I/O reactor.
//!
//! The executor owns a FIFO ready queue of task identifiers and polls each
//! ready task once per turn.  A task that cannot make progress arms the
//! reactor with a waker for the file descriptor and direction it waits on,
//! then yields.  When the ready queue is empty and interest is outstanding,
//! the executor blocks on the OS poller; fired events are harvested back
//! into wakers, whose invocation re-enqueues the owning task.  The runtime
//! terminates when nothing is ready and nothing is awaited.

pub mod channel;
pub mod executor;
pub mod http;
pub mod io_adapter;
pub mod poller;
pub mod reactor;
pub mod task_queue;
pub mod waker;

pub use executor::{block_on, spawn, Executor, Poll, PollContext, Pollable};
pub use io_adapter::{resolve_io, Direction, IoAttempt};
pub use poller::{FdEvent, IoError};
pub use reactor::{InterestTable, Notifier, Reactor};
pub use task_queue::{Task, TaskQueue};
pub use waker::Waker;
