//! Handles, their lifecycle states, and the payload store entries that carry
//! each handle's registered callbacks.
//!
//! Every handle owns exactly one payload store entry whose variant tag always
//! matches the handle's kind; the entry is attached when the handle is created
//! and freed exactly once, when the handle finishes closing.

use vstd::prelude::*;

verus! {

/// The kind tag of a handle.  The payload store entry attached to a handle
/// always carries the variant matching this tag.
#[derive(Clone, Copy, Debug, PartialEq, Eq, Structural)]
pub enum HandleKind {
    Check,
    Idle,
    Signal,
    Stream,
}

/// Lifecycle state of a handle.
///
/// `Started` and `Stopped` are freely reversible; `Closing` is entered once,
/// by a close request, and leads to `Destroyed` when the loop processes the
/// close at the end of an iteration.  Operations on a `Closing` or `Destroyed`
/// handle fail with `Error::Closed`.
#[derive(Clone, Copy, Debug, PartialEq, Eq, Structural)]
pub enum HandleState {
    Initialized,
    Started,
    Stopped,
    Closing,
    Destroyed,
}

/// A kind-tagged reference to any handle of a loop.  Handle identity is the
/// slot index in the owning loop; the wrapper carries the kind tag so that
/// typed views can be recovered from it.
#[derive(Clone, Copy, Debug, PartialEq, Eq, Structural)]
pub struct Handle {
    pub id: usize,
    pub kind: HandleKind,
}

/// One write request queued on a stream: the request identity, the bytes to
/// send (buffers are flattened in submission order), and the completion
/// callback token, if one was registered.
#[derive(Clone, Debug)]
pub struct WriteEntry {
    pub id: u64,
    pub bytes: Vec<u8>,
    pub cb: Option<u64>,
}

/// A pending shutdown request on a stream: completes once the write queue
/// has fully drained.
#[derive(Clone, Copy, Debug)]
pub struct ShutdownEntry {
    pub id: u64,
    pub cb: Option<u64>,
}

/// Variant state for a stream handle: its registered callbacks, its flow
/// flags, the pending-connection count for a listener, and the ordered write
/// queue.  `sent` records every byte handed to the transport, in order; it is
/// what a remote peer would have received.
#[derive(Clone, Debug)]
pub struct StreamData {
    pub alloc_cb: Option<u64>,
    pub read_cb: Option<u64>,
    pub connection_cb: Option<u64>,
    pub reading: bool,
    pub listening: bool,
    pub backlog: i32,
    pub pending_connections: u64,
    pub write_queue: Vec<WriteEntry>,
    pub next_req_id: u64,
    pub shutdown_req: Option<ShutdownEntry>,
    pub blocking: bool,
    pub readable: bool,
    pub writable: bool,
    pub sent: Vec<u8>,
}

/// A payload store entry: a closed variant type keyed by handle kind, holding
/// the handle's registered callback tokens and variant state.  `Freed` is the
/// state after the entry has been released, once the handle is fully closed.
#[derive(Clone, Debug)]
pub enum Payload {
    CheckPayload { check_cb: Option<u64> },
    IdlePayload { idle_cb: Option<u64> },
    SignalPayload { signal_cb: Option<u64>, signum: i32, oneshot: bool },
    StreamPayload(StreamData),
    Freed,
}

/// One handle slot of a loop: kind tag, lifecycle state, the attached payload
/// store entry, and the close callback registered when closing was requested.
#[derive(Clone, Debug)]
pub struct HandleSlot {
    pub kind: HandleKind,
    pub state: HandleState,
    pub payload: Payload,
    pub close_cb: Option<u64>,
}

/// Stage of a queued work request.
#[derive(Clone, Copy, Debug, PartialEq, Eq, Structural)]
pub enum WorkStage {
    /// Submitted, not yet picked up by the worker pool.
    Queued,
    /// Running on a worker thread; can no longer be cancelled.
    Running,
    /// Cancelled while queued; the completion callback will fire with
    /// `Error::Cancelled` on the next iteration.
    CancelPending,
    /// The completion callback has fired and the request is destroyed.
    Done,
}

/// One work request slot: its stage and its two callback tokens.
#[derive(Clone, Copy, Debug)]
pub struct WorkSlot {
    pub stage: WorkStage,
    pub work_cb: Option<u64>,
    pub after_work_cb: Option<u64>,
}

// ---------------------------------------------------------------------------
// Mathematical model of the types above.
// ---------------------------------------------------------------------------

/// Model of one queued write.
#[verifier::ext_equal]
pub struct WriteModel {
    pub id: u64,
    pub bytes: Seq<u8>,
    pub cb: Option<u64>,
}

/// Model of a stream's variant state.
#[verifier::ext_equal]
pub struct StreamModel {
    pub alloc_cb: Option<u64>,
    pub read_cb: Option<u64>,
    pub connection_cb: Option<u64>,
    pub reading: bool,
    pub listening: bool,
    pub backlog: i32,
    pub pending_connections: u64,
    pub write_queue: Seq<WriteModel>,
    pub next_req_id: u64,
    pub shutdown_req: Option<ShutdownEntry>,
    pub blocking: bool,
    pub readable: bool,
    pub writable: bool,
    pub sent: Seq<u8>,
}

/// Model of a payload store entry.
#[verifier::ext_equal]
pub enum PayloadModel {
    CheckP { check_cb: Option<u64> },
    IdleP { idle_cb: Option<u64> },
    SignalP { signal_cb: Option<u64>, signum: i32, oneshot: bool },
    StreamP(StreamModel),
    FreedP,
}

/// Model of one handle slot.
#[verifier::ext_equal]
pub struct SlotModel {
    pub kind: HandleKind,
    pub state: HandleState,
    pub payload: PayloadModel,
    pub close_cb: Option<u64>,
}

impl View for WriteEntry {
    type V = WriteModel;

    open spec fn view(&self) -> WriteModel {
        WriteModel { id: self.id, bytes: self.bytes@, cb: self.cb }
    }
}

impl View for StreamData {
    type V = StreamModel;

    open spec fn view(&self) -> StreamModel {
        StreamModel {
            alloc_cb: self.alloc_cb,
            read_cb: self.read_cb,
            connection_cb: self.connection_cb,
            reading: self.reading,
            listening: self.listening,
            backlog: self.backlog,
            pending_connections: self.pending_connections,
            write_queue: self.write_queue@.map_values(|w: WriteEntry| w@),
            next_req_id: self.next_req_id,
            shutdown_req: self.shutdown_req,
            blocking: self.blocking,
            readable: self.readable,
            writable: self.writable,
            sent: self.sent@,
        }
    }
}

impl View for Payload {
    type V = PayloadModel;

    open spec fn view(&self) -> PayloadModel {
        match self {
            Payload::CheckPayload { check_cb } => PayloadModel::CheckP { check_cb: *check_cb },
            Payload::IdlePayload { idle_cb } => PayloadModel::IdleP { idle_cb: *idle_cb },
            Payload::SignalPayload { signal_cb, signum, oneshot } => PayloadModel::SignalP {
                signal_cb: *signal_cb,
                signum: *signum,
                oneshot: *oneshot,
            },
            Payload::StreamPayload(d) => PayloadModel::StreamP(d@),
            Payload::Freed => PayloadModel::FreedP,
        }
    }
}

impl View for HandleSlot {
    type V = SlotModel;

    open spec fn view(&self) -> SlotModel {
        SlotModel {
            kind: self.kind,
            state: self.state,
            payload: self.payload@,
            close_cb: self.close_cb,
        }
    }
}

impl SlotModel {
    /// The payload store entry's tag agrees with the handle's kind tag, or
    /// the entry has already been freed (only once the handle is destroyed).
    pub open spec fn tag_consistent(self) -> bool {
        match self.payload {
            PayloadModel::CheckP { .. } => self.kind == HandleKind::Check,
            PayloadModel::IdleP { .. } => self.kind == HandleKind::Idle,
            PayloadModel::SignalP { .. } => self.kind == HandleKind::Signal,
            PayloadModel::StreamP(_) => self.kind == HandleKind::Stream,
            PayloadModel::FreedP => self.state == HandleState::Destroyed,
        }
    }

    /// The payload entry is attached exactly as long as the handle is not
    /// destroyed.
    pub open spec fn payload_consistent(self) -> bool {
        (self.payload is FreedP) <==> (self.state == HandleState::Destroyed)
    }

    pub open spec fn wf(self) -> bool {
        self.tag_consistent() && self.payload_consistent()
    }
}

} // verus!
