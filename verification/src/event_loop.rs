//! The event loop: owner of every handle slot and work request, of the cached
//! monotonic time, and of the stop/closed flags.
//!
//! The loop never polls the OS itself; the polling backend is an external
//! collaborator.  Each iteration (see [`crate::dispatch`]) takes the batch of
//! events the backend reported and returns the callback invocations to
//! perform, in order.

use vstd::prelude::*;
use crate::handle::{
    Handle, HandleKind, HandleState, HandleSlot, Payload, PayloadModel, SlotModel, StreamModel,
    WorkSlot, WorkStage,
};
use crate::Error;

verus! {

/// Mode used to run the loop.
#[derive(Clone, Copy, Debug, PartialEq, Eq, Structural)]
pub enum RunMode {
    /// Iterate until no active and referenced handles or requests remain, or
    /// the loop is stopped, or the supplied event batches run out.
    Default,
    /// Process at most one batch of ready events, then return.
    Once,
    /// Process at most one batch without blocking for readiness, then return.
    NoWait,
}

/// The signal number that [`Loop::block_signal`] accepts: the profiling
/// timer signal, the only one the backend supports blocking.
pub const PROFILING_SIGNAL: i32 = 27;

/// Mathematical model of a [`Loop`].
#[verifier::ext_equal]
pub struct LoopModel {
    pub handles: Seq<SlotModel>,
    pub works: Seq<WorkSlot>,
    pub time: u64,
    pub stop_requested: bool,
    pub closed: bool,
    pub profiling_signal_blocked: bool,
}

impl LoopModel {
    /// A slot index that denotes a live (not yet destroyed) handle.
    pub open spec fn live_handle(self, i: int) -> bool {
        0 <= i < self.handles.len() && self.handles[i].state != HandleState::Destroyed
    }

    /// Some handle is started.
    pub open spec fn has_started(self) -> bool {
        exists|i: int|
            0 <= i < self.handles.len() && self.handles[i].state == HandleState::Started
    }

    /// Some handle is waiting for its close to be processed.
    pub open spec fn has_closing(self) -> bool {
        exists|i: int|
            0 <= i < self.handles.len() && self.handles[i].state == HandleState::Closing
    }

    /// Some started idle handle exists; while one does, the backend must use
    /// a zero-timeout poll instead of blocking.
    pub open spec fn has_started_idle(self) -> bool {
        exists|i: int|
            0 <= i < self.handles.len() && self.handles[i].kind == HandleKind::Idle
                && self.handles[i].state == HandleState::Started
    }

    /// The slot holds a stream payload with a queued write or a pending
    /// shutdown: an active one-shot request.
    pub open spec fn slot_has_stream_req(self, i: int) -> bool {
        0 <= i < self.handles.len() && match self.handles[i].payload {
            PayloadModel::StreamP(d) => d.write_queue.len() > 0 || d.shutdown_req is Some,
            _ => false,
        }
    }

    pub open spec fn has_stream_req(self) -> bool {
        exists|i: int| self.slot_has_stream_req(i)
    }

    /// Some work request has not yet delivered its completion.
    pub open spec fn has_open_work(self) -> bool {
        exists|i: int| 0 <= i < self.works.len() && self.works[i].stage != WorkStage::Done
    }

    /// A cancelled work item is waiting for its completion callback; the
    /// next iteration delivers it without any backend event.
    pub open spec fn has_cancel_pending(self) -> bool {
        exists|i: int|
            0 <= i < self.works.len() && self.works[i].stage == WorkStage::CancelPending
    }

    /// There are referenced active handles, active requests, or handles
    /// pending close.
    pub open spec fn alive(self) -> bool {
        self.has_started() || self.has_closing() || self.has_stream_req() || self.has_open_work()
    }

    /// Some handle or request remains open, so closing the loop must fail.
    pub open spec fn has_open_objects(self) -> bool {
        (exists|i: int| self.live_handle(i)) || self.has_open_work()
    }

    /// Every slot's payload tag matches its kind and its payload is attached
    /// exactly while the handle is not destroyed.
    pub open spec fn wf(self) -> bool {
        forall|i: int| 0 <= i < self.handles.len() ==> (#[trigger] self.handles[i]).wf()
    }

    /// The poll timeout the backend should use, in milliseconds: zero when
    /// the loop must not block, `-1` (block indefinitely) otherwise.
    pub open spec fn spec_backend_timeout(self) -> i32 {
        if self.stop_requested {
            0
        } else if !self.alive() {
            0
        } else if self.has_started_idle() {
            0
        } else if self.has_closing() {
            0
        } else if self.has_cancel_pending() {
            0
        } else {
            -1i32
        }
    }
}

/// Number of payload store entries still attached (not yet freed).
pub open spec fn outstanding_payloads(handles: Seq<SlotModel>) -> int
    decreases handles.len(),
{
    if handles.len() == 0 {
        0
    } else {
        outstanding_payloads(handles.drop_last())
            + if handles.last().payload is FreedP { 0int } else { 1int }
    }
}

/// The central part of the reactor: takes care of dispatching callbacks for
/// the events the polling backend reports, and of handle/request lifecycle.
pub struct Loop {
    pub handles: Vec<HandleSlot>,
    pub works: Vec<WorkSlot>,
    pub time: u64,
    pub stop_requested: bool,
    pub closed: bool,
    pub profiling_signal_blocked: bool,
}

impl View for Loop {
    type V = LoopModel;

    open spec fn view(&self) -> LoopModel {
        LoopModel {
            handles: self.handles@.map_values(|s: HandleSlot| s@),
            works: self.works@,
            time: self.time,
            stop_requested: self.stop_requested,
            closed: self.closed,
            profiling_signal_blocked: self.profiling_signal_blocked,
        }
    }
}

/// The model of a freshly created loop.
pub open spec fn fresh_loop_model() -> LoopModel {
    LoopModel {
        handles: Seq::empty(),
        works: Seq::empty(),
        time: 0,
        stop_requested: false,
        closed: false,
        profiling_signal_blocked: false,
    }
}

impl Loop {
    /// Creates a new loop with no handles, no requests, and time zero.
    pub fn new() -> (r: Result<Loop, Error>)
        ensures
            r is Ok,
            r->Ok_0@ =~= fresh_loop_model(),
    {
        Ok(Loop {
            handles: Vec::new(),
            works: Vec::new(),
            time: 0,
            stop_requested: false,
            closed: false,
            profiling_signal_blocked: false,
        })
    }

    /// Returns a default loop.  The default loop is in no way different from
    /// one created with `new`: it is an explicitly constructed context object
    /// the embedder passes around, and it should be closed like any other so
    /// that its resources are released.
    pub fn default() -> (r: Result<Loop, Error>)
        ensures
            r is Ok,
            r->Ok_0@ =~= fresh_loop_model(),
    {
        Loop::new()
    }

    /// Releases the loop's resources.  Fails with `Busy` while any handle or
    /// request remains open, and reports `Closed` if the loop was already
    /// closed (a second close does not silently succeed).
    pub fn close(&mut self) -> (r: Result<(), Error>)
        ensures
            old(self)@.closed ==> r == Err::<(), Error>(Error::Closed) && final(self)@ =~= old(self)@,
            !old(self)@.closed && old(self)@.has_open_objects() ==> r == Err::<(), Error>(
                Error::Busy,
            ) && final(self)@ =~= old(self)@,
            !old(self)@.closed && !old(self)@.has_open_objects() ==> r == Ok::<(), Error>(())
                && final(self)@ =~= (LoopModel { closed: true, ..old(self)@ }),
    {
        if self.closed {
            return Err(Error::Closed);
        }
        if self.scan_open_objects() {
            return Err(Error::Busy);
        }
        self.closed = true;
        Ok(())
    }

    /// Whether any handle slot is live or any work request is not done.
    fn scan_open_objects(&self) -> (r: bool)
        ensures
            r == self@.has_open_objects(),
    {
        let mut i: usize = 0;
        while i < self.handles.len()
            invariant
                i <= self.handles@.len(),
                forall|j: int| 0 <= j < i ==> !self@.live_handle(j),
            decreases self.handles@.len() - i,
        {
            if !matches!(self.handles[i].state, HandleState::Destroyed) {
                assert(self@.live_handle(i as int));
                return true;
            }
            i = i + 1;
        }
        let mut k: usize = 0;
        while k < self.works.len()
            invariant
                k <= self.works@.len(),
                forall|j: int|
                    0 <= j < k ==> (#[trigger] self.works@[j]).stage == WorkStage::Done,
                forall|j: int| 0 <= j < self.handles@.len() ==> !self@.live_handle(j),
            decreases self.works@.len() - k,
        {
            if !matches!(self.works[k].stage, WorkStage::Done) {
                assert(self@.has_open_work());
                return true;
            }
            k = k + 1;
        }
        false
    }

    /// Requests that the loop exit at the next safe point: `run` ends no
    /// sooner than the current iteration's end, and never mid-callback.  If
    /// requested before a blocking poll, that poll must not block.
    pub fn stop(&mut self)
        ensures
            final(self)@ =~= (LoopModel { stop_requested: true, ..old(self)@ }),
    {
        self.stop_requested = true;
    }

    /// True iff there are referenced active handles, active requests or
    /// closing handles in the loop.
    pub fn is_alive(&self) -> (r: bool)
        ensures
            r == self@.alive(),
    {
        let mut i: usize = 0;
        while i < self.handles.len()
            invariant
                i <= self.handles@.len(),
                forall|j: int|
                    0 <= j < i ==> (#[trigger] self@.handles[j]).state != HandleState::Started
                        && self@.handles[j].state != HandleState::Closing
                        && !self@.slot_has_stream_req(j),
            decreases self.handles@.len() - i,
        {
            let slot = &self.handles[i];
            if matches!(slot.state, HandleState::Started | HandleState::Closing) {
                return true;
            }
            if let Payload::StreamPayload(d) = &slot.payload {
                if d.write_queue.len() > 0 || d.shutdown_req.is_some() {
                    assert(self@.slot_has_stream_req(i as int));
                    return true;
                }
            }
            assert(!self@.slot_has_stream_req(i as int));
            i = i + 1;
        }
        let mut k: usize = 0;
        while k < self.works.len()
            invariant
                k <= self.works@.len(),
                forall|j: int|
                    0 <= j < k ==> (#[trigger] self.works@[j]).stage == WorkStage::Done,
                forall|j: int|
                    0 <= j < self.handles@.len() ==> (#[trigger] self@.handles[j]).state
                        != HandleState::Started && self@.handles[j].state != HandleState::Closing
                        && !self@.slot_has_stream_req(j),
            decreases self.works@.len() - k,
        {
            if !matches!(self.works[k].stage, WorkStage::Done) {
                assert(self@.has_open_work());
                return true;
            }
            k = k + 1;
        }
        false
    }

    /// The current cached timestamp in milliseconds.  It is refreshed once
    /// per iteration from the backend's monotonic clock, not re-queried per
    /// call.
    pub fn now(&self) -> (r: u64)
        ensures
            r == self@.time,
    {
        self.time
    }

    /// Forces a refresh of the cached time from the given reading of the
    /// backend's monotonic clock.  The cache never moves backwards.
    pub fn update_time(&mut self, now_ms: u64)
        ensures
            final(self)@ =~= (LoopModel {
                time: if now_ms > old(self)@.time { now_ms } else { old(self)@.time },
                ..old(self)@
            }),
    {
        if now_ms > self.time {
            self.time = now_ms;
        }
    }

    /// Reinitializes backend state after a process fork.  The model itself
    /// holds no kernel state, so this succeeds with the loop unchanged; on a
    /// closed loop it reports `Closed`.
    pub fn fork(&mut self) -> (r: Result<(), Error>)
        ensures
            final(self)@ =~= old(self)@,
            r == if old(self)@.closed {
                Err::<(), Error>(Error::Closed)
            } else {
                Ok::<(), Error>(())
            },
    {
        if self.closed {
            Err(Error::Closed)
        } else {
            Ok(())
        }
    }

    /// Asks the backend to block a signal while polling.  Only the profiling
    /// timer signal is supported; any other number fails with
    /// `InvalidArgument`.
    pub fn block_signal(&mut self, signum: i32) -> (r: Result<(), Error>)
        ensures
            old(self)@.closed ==> r == Err::<(), Error>(Error::Closed) && final(self)@ =~= old(self)@,
            !old(self)@.closed && signum != PROFILING_SIGNAL ==> r == Err::<(), Error>(
                Error::InvalidArgument,
            ) && final(self)@ =~= old(self)@,
            !old(self)@.closed && signum == PROFILING_SIGNAL ==> r == Ok::<(), Error>(())
                && final(self)@ =~= (LoopModel { profiling_signal_blocked: true, ..old(self)@ }),
    {
        if self.closed {
            return Err(Error::Closed);
        }
        if signum != PROFILING_SIGNAL {
            return Err(Error::InvalidArgument);
        }
        self.profiling_signal_blocked = true;
        Ok(())
    }

    /// The poll timeout for the backend, in milliseconds: `0` when the loop
    /// must not block (stop requested, nothing alive, an idle handle active,
    /// a close or a cancelled work item pending), `-1` to block indefinitely.
    pub fn backend_timeout(&self) -> (r: i32)
        ensures
            r == self@.spec_backend_timeout(),
    {
        if self.stop_requested {
            return 0;
        }
        if !self.is_alive() {
            return 0;
        }
        if self.scan_started_idle() {
            return 0;
        }
        if self.scan_closing() {
            return 0;
        }
        if self.scan_cancel_pending() {
            return 0;
        }
        -1
    }

    fn scan_started_idle(&self) -> (r: bool)
        ensures
            r == self@.has_started_idle(),
    {
        let mut i: usize = 0;
        while i < self.handles.len()
            invariant
                i <= self.handles@.len(),
                forall|j: int|
                    0 <= j < i ==> !((#[trigger] self@.handles[j]).kind == HandleKind::Idle
                        && self@.handles[j].state == HandleState::Started),
            decreases self.handles@.len() - i,
        {
            let slot = &self.handles[i];
            if matches!(slot.kind, HandleKind::Idle) && matches!(
                slot.state,
                HandleState::Started,
            ) {
                assert(self@.handles[i as int].kind == HandleKind::Idle
                    && self@.handles[i as int].state == HandleState::Started);
                return true;
            }
            i = i + 1;
        }
        false
    }

    fn scan_closing(&self) -> (r: bool)
        ensures
            r == self@.has_closing(),
    {
        let mut i: usize = 0;
        while i < self.handles.len()
            invariant
                i <= self.handles@.len(),
                forall|j: int|
                    0 <= j < i ==> (#[trigger] self@.handles[j]).state != HandleState::Closing,
            decreases self.handles@.len() - i,
        {
            if matches!(self.handles[i].state, HandleState::Closing) {
                assert(self@.handles[i as int].state == HandleState::Closing);
                return true;
            }
            i = i + 1;
        }
        false
    }

    fn scan_cancel_pending(&self) -> (r: bool)
        ensures
            r == self@.has_cancel_pending(),
    {
        let mut k: usize = 0;
        while k < self.works.len()
            invariant
                k <= self.works@.len(),
                forall|j: int|
                    0 <= j < k ==> (#[trigger] self.works@[j]).stage != WorkStage::CancelPending,
            decreases self.works@.len() - k,
        {
            if matches!(self.works[k].stage, WorkStage::CancelPending) {
                return true;
            }
            k = k + 1;
        }
        false
    }
}


/// What the generic handle operations report for handle `h`: `Closed` on a
/// closed loop or a closing/destroyed handle, `InvalidArgument` when the
/// slot does not exist or its kind tag does not match the reference.
pub open spec fn handle_op_outcome(m: LoopModel, h: Handle) -> Result<(), Error> {
    if m.closed {
        Err(Error::Closed)
    } else if !(0 <= h.id < m.handles.len() && m.handles[h.id as int].kind == h.kind) {
        Err(Error::InvalidArgument)
    } else if m.handles[h.id as int].state == HandleState::Closing || m.handles[h.id as int].state
        == HandleState::Destroyed {
        Err(Error::Closed)
    } else {
        Ok(())
    }
}

/// Model of requesting a close: the handle enters its terminal `Closing`
/// state at once; the loop destroys it, frees its payload store entry and
/// fires the close callback at the end of the next iteration.
pub open spec fn close_handle_model(m: LoopModel, h: Handle, cb: Option<u64>) -> LoopModel {
    LoopModel {
        handles: m.handles.update(
            h.id as int,
            SlotModel { state: HandleState::Closing, close_cb: cb, ..m.handles[h.id as int] },
        ),
        ..m
    }
}

/// Model of replacing a handle's primary registered callback: the one its
/// kind dispatches on (the read callback, for a stream).
pub open spec fn set_callback_model(m: LoopModel, h: Handle, cb: Option<u64>) -> LoopModel {
    LoopModel {
        handles: m.handles.update(
            h.id as int,
            SlotModel {
                payload: match m.handles[h.id as int].payload {
                    PayloadModel::CheckP { .. } => PayloadModel::CheckP { check_cb: cb },
                    PayloadModel::IdleP { .. } => PayloadModel::IdleP { idle_cb: cb },
                    PayloadModel::SignalP { signum, oneshot, .. } => PayloadModel::SignalP {
                        signal_cb: cb,
                        signum,
                        oneshot,
                    },
                    PayloadModel::StreamP(d) => PayloadModel::StreamP(
                        StreamModel { read_cb: cb, ..d },
                    ),
                    PayloadModel::FreedP => PayloadModel::FreedP,
                },
                ..m.handles[h.id as int]
            },
        ),
        ..m
    }
}

impl Loop {
    /// Requests that handle `h` be closed.  The handle enters `Closing` at
    /// once and no callback of its own fires any more; at the end of the
    /// next iteration the loop frees its payload store entry, marks it
    /// destroyed, cancels its still queued requests, and fires `cb`.
    pub fn close_handle(&mut self, h: Handle, cb: Option<u64>) -> (r: Result<(), Error>)
        ensures
            r == handle_op_outcome(old(self)@, h),
            r is Ok ==> final(self)@ =~= close_handle_model(old(self)@, h, cb),
            r is Err ==> final(self)@ =~= old(self)@,
    {
        if self.closed {
            return Err(Error::Closed);
        }
        if h.id >= self.handles.len() {
            return Err(Error::InvalidArgument);
        }
        if !(self.handles[h.id].kind == h.kind) {
            return Err(Error::InvalidArgument);
        }
        let state = self.handles[h.id].state;
        if state == HandleState::Closing || state == HandleState::Destroyed {
            return Err(Error::Closed);
        }
        let slot = &mut self.handles[h.id];
        slot.state = HandleState::Closing;
        slot.close_cb = cb;
        assert(self@.handles =~~= close_handle_model(old(self)@, h, cb).handles);
        Ok(())
    }

    /// Looks up the payload store entry attached to `h`.  `None` only when
    /// the handle does not exist (or the reference's kind tag is wrong) or
    /// the entry was already freed; dispatch treats that as "do nothing"
    /// rather than an error.
    pub fn get_payload<'a>(&'a self, h: Handle) -> (r: Option<&'a Payload>)
        ensures
            (r is Some) <==> (0 <= h.id && h.id < self@.handles.len() && self@.handles[
                h.id as int
            ].kind == h.kind && !(self@.handles[h.id as int].payload is FreedP)),
            r is Some ==> r->Some_0@ == self@.handles[h.id as int].payload,
    {
        if h.id >= self.handles.len() {
            return None;
        }
        if !(self.handles[h.id].kind == h.kind) {
            return None;
        }
        if matches!(self.handles[h.id].payload, Payload::Freed) {
            return None;
        }
        Some(&self.handles[h.id].payload)
    }

    /// Replaces the callback registered for `h`'s own events: the check,
    /// idle, signal or read callback, by the handle's kind.  Passing `None`
    /// clears it, which means "do not report this event at all" — a real
    /// difference from a callback that ignores its arguments, since nothing
    /// is dispatched for it.  The change takes effect on the next dispatch,
    /// never retroactively.
    pub fn set_callback(&mut self, h: Handle, cb: Option<u64>) -> (r: Result<(), Error>)
        ensures
            r == handle_op_outcome(old(self)@, h),
            r is Ok ==> final(self)@ =~= set_callback_model(old(self)@, h, cb),
            r is Err ==> final(self)@ =~= old(self)@,
    {
        if self.closed {
            return Err(Error::Closed);
        }
        if h.id >= self.handles.len() {
            return Err(Error::InvalidArgument);
        }
        if !(self.handles[h.id].kind == h.kind) {
            return Err(Error::InvalidArgument);
        }
        let state = self.handles[h.id].state;
        if state == HandleState::Closing || state == HandleState::Destroyed {
            return Err(Error::Closed);
        }
        let slot = &mut self.handles[h.id];
        match &mut slot.payload {
            Payload::CheckPayload { check_cb } => {
                *check_cb = cb;
            },
            Payload::IdlePayload { idle_cb } => {
                *idle_cb = cb;
            },
            Payload::SignalPayload { signal_cb, .. } => {
                *signal_cb = cb;
            },
            Payload::StreamPayload(d) => {
                d.read_cb = cb;
            },
            Payload::Freed => {},
        }
        assert(self@.handles =~~= set_callback_model(old(self)@, h, cb).handles);
        Ok(())
    }
}

} // verus!

