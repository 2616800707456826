//! Core of a single-threaded, callback-driven event loop (a reactor).
//!
//! The library models the object-lifecycle and callback-dispatch substrate of
//! an event loop: a [`Loop`](event_loop::Loop) owns a payload store with one
//! tagged entry per handle, watcher handles (idle, check, signal) and stream
//! handles move through the lifecycle `Initialized -> {Started <-> Stopped} ->
//! Closing -> Destroyed`, and one-shot requests (work, write, shutdown) fire
//! exactly one completion each and are then destroyed.
//!
//! The OS polling backend, the worker pool and the monotonic clock are
//! external collaborators: each loop iteration takes the batch of events the
//! backend reported and returns, in order, the callback invocations the
//! embedder must perform.  Callbacks are identified by plain tokens chosen by
//! the embedder, with `None` meaning "do not report this event at all".

use vstd::prelude::*;

pub mod handle;
pub mod event_loop;
pub mod check;
pub mod idle;
pub mod signal;
pub mod stream;
pub mod work;
pub mod dispatch;
pub mod laws;

verus! {

/// Classification of every failure the reactor core can report.
#[derive(Clone, Copy, Debug, PartialEq, Eq, Structural)]
pub enum Error {
    /// Allocation failed while creating an object; the object never exists.
    OutOfMemory,
    /// An argument is outside what the operation supports.
    InvalidArgument,
    /// The loop still has open handles or requests.
    Busy,
    /// `accept` was called with no connection pending.
    NoPendingConnection,
    /// The stream is not in a connected state.
    NotConnected,
    /// The operation was attempted on an object past its terminal state.
    Closed,
    /// A queued work item was cancelled before it ran.
    Cancelled,
    /// Opaque passthrough of a polling-backend failure code.
    BackendError(i32),
}

} // verus!
