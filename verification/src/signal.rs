//! Signal handles: per-loop signal watching.  A handle watches one
//! `(callback, signal number)` pair at a time; `start` re-arms on every
//! delivery, `start_oneshot` disarms the handle the moment the signal is
//! received.
//!
//! Delivery is inherently lossy and platform-dependent: some signal numbers
//! are fundamentally uncatchable, and a watcher for them is accepted but
//! never fires.  The loop only dispatches the deliveries the backend
//! actually reports.

use vstd::prelude::*;
use crate::event_loop::{Loop, LoopModel};
use crate::handle::{Handle, HandleKind, HandleState, Payload, PayloadModel, SlotModel};
use crate::Error;

verus! {

/// A typed view of a signal handle: the slot index in its loop.
#[derive(Clone, Copy, Debug, PartialEq, Eq, Structural)]
pub struct SignalHandle {
    pub id: usize,
}

/// The slot `id` of `m` exists and is a signal handle's.
pub open spec fn is_signal_slot(m: LoopModel, id: int) -> bool {
    0 <= id < m.handles.len() && m.handles[id].kind == HandleKind::Signal
}

/// Model of creating a signal handle: one fresh slot, initialized, with an
/// empty signal payload attached (watching no signal yet).
pub open spec fn signal_new_model(m: LoopModel) -> LoopModel {
    LoopModel {
        handles: m.handles.push(
            SlotModel {
                kind: HandleKind::Signal,
                state: HandleState::Initialized,
                payload: PayloadModel::SignalP { signal_cb: None, signum: 0, oneshot: false },
                close_cb: None,
            },
        ),
        ..m
    }
}

/// Model of `start`/`start_oneshot`: the handle becomes a started watcher
/// for exactly the given pair, replacing any previous registration.  A
/// `None` callback keeps the watcher armed but reports nothing.
pub open spec fn signal_start_model(
    m: LoopModel,
    id: int,
    cb: Option<u64>,
    signum: i32,
    oneshot: bool,
) -> LoopModel {
    LoopModel {
        handles: m.handles.update(
            id,
            SlotModel {
                state: HandleState::Started,
                payload: PayloadModel::SignalP { signal_cb: cb, signum, oneshot },
                ..m.handles[id]
            },
        ),
        ..m
    }
}

/// Model of `stop`: the watcher is disarmed; the registered pair is kept
/// but nothing fires until a new `start`.
pub open spec fn signal_stop_model(m: LoopModel, id: int) -> LoopModel {
    LoopModel {
        handles: m.handles.update(
            id,
            SlotModel { state: HandleState::Stopped, ..m.handles[id] },
        ),
        ..m
    }
}

/// The result the signal operations report, by validity of loop and slot.
pub open spec fn signal_op_outcome(m: LoopModel, id: int) -> Result<(), Error> {
    if m.closed {
        Err(Error::Closed)
    } else if !is_signal_slot(m, id) {
        Err(Error::InvalidArgument)
    } else if m.handles[id].state == HandleState::Closing || m.handles[id].state
        == HandleState::Destroyed {
        Err(Error::Closed)
    } else {
        Ok(())
    }
}

impl SignalHandle {
    /// Creates and initializes a new signal handle on the given loop.
    pub fn new(lp: &mut Loop) -> (r: Result<SignalHandle, Error>)
        ensures
            old(lp)@.closed ==> r == Err::<SignalHandle, Error>(Error::Closed) && final(lp)@
                =~= old(lp)@,
            !old(lp)@.closed ==> r == Ok::<SignalHandle, Error>(
                SignalHandle { id: old(lp)@.handles.len() as usize },
            ) && final(lp)@ =~= signal_new_model(old(lp)@),
    {
        if lp.closed {
            return Err(Error::Closed);
        }
        let id = lp.handles.len();
        lp.handles.push(
            crate::handle::HandleSlot {
                kind: HandleKind::Signal,
                state: HandleState::Initialized,
                payload: Payload::SignalPayload { signal_cb: None, signum: 0, oneshot: false },
                close_cb: None,
            },
        );
        assert(lp@.handles =~= signal_new_model(old(lp)@).handles);
        Ok(SignalHandle { id })
    }

    /// Starts watching `signum` with the given callback, replacing any
    /// previously registered pair.  The watcher re-arms on every delivery.
    /// A `None` callback is legal and means "do not notify me".
    pub fn start(&self, lp: &mut Loop, cb: Option<u64>, signum: i32) -> (r: Result<(), Error>)
        ensures
            r == signal_op_outcome(old(lp)@, self.id as int),
            r is Ok ==> final(lp)@ =~= signal_start_model(
                old(lp)@,
                self.id as int,
                cb,
                signum,
                false,
            ),
            r is Err ==> final(lp)@ =~= old(lp)@,
    {
        self.arm(lp, cb, signum, false)
    }

    /// Same as `start`, but the watcher is disarmed the moment the signal
    /// is received: at most one delivery is dispatched until it is started
    /// again.
    pub fn start_oneshot(&self, lp: &mut Loop, cb: Option<u64>, signum: i32) -> (r: Result<
        (),
        Error,
    >)
        ensures
            r == signal_op_outcome(old(lp)@, self.id as int),
            r is Ok ==> final(lp)@ =~= signal_start_model(
                old(lp)@,
                self.id as int,
                cb,
                signum,
                true,
            ),
            r is Err ==> final(lp)@ =~= old(lp)@,
    {
        self.arm(lp, cb, signum, true)
    }

    /// Stops the handle: the callback no longer fires until a new start.
    pub fn stop(&self, lp: &mut Loop) -> (r: Result<(), Error>)
        ensures
            r == signal_op_outcome(old(lp)@, self.id as int),
            r is Ok ==> final(lp)@ =~= signal_stop_model(old(lp)@, self.id as int),
            r is Err ==> final(lp)@ =~= old(lp)@,
    {
        let outcome = self.op_precheck(lp);
        if let Err(e) = outcome {
            return Err(e);
        }
        let slot = &mut lp.handles[self.id];
        slot.state = HandleState::Stopped;
        assert(lp@.handles =~= signal_stop_model(old(lp)@, self.id as int).handles);
        Ok(())
    }

    /// The generic kind-tagged reference to this handle.
    pub fn to_handle(&self) -> (r: Handle)
        ensures
            r == (Handle { id: self.id, kind: HandleKind::Signal }),
    {
        Handle { id: self.id, kind: HandleKind::Signal }
    }

    /// Recovers the typed view from a generic handle, checking the kind tag.
    pub fn try_from(handle: Handle) -> (r: Result<SignalHandle, Error>)
        ensures
            handle.kind == HandleKind::Signal ==> r == Ok::<SignalHandle, Error>(
                SignalHandle { id: handle.id },
            ),
            handle.kind != HandleKind::Signal ==> r == Err::<SignalHandle, Error>(
                Error::InvalidArgument,
            ),
    {
        if matches!(handle.kind, HandleKind::Signal) {
            Ok(SignalHandle { id: handle.id })
        } else {
            Err(Error::InvalidArgument)
        }
    }

    fn arm(&self, lp: &mut Loop, cb: Option<u64>, signum: i32, oneshot: bool) -> (r: Result<
        (),
        Error,
    >)
        ensures
            r == signal_op_outcome(old(lp)@, self.id as int),
            r is Ok ==> final(lp)@ =~= signal_start_model(
                old(lp)@,
                self.id as int,
                cb,
                signum,
                oneshot,
            ),
            r is Err ==> final(lp)@ =~= old(lp)@,
    {
        let outcome = self.op_precheck(lp);
        if let Err(e) = outcome {
            return Err(e);
        }
        let slot = &mut lp.handles[self.id];
        slot.state = HandleState::Started;
        slot.payload = Payload::SignalPayload { signal_cb: cb, signum, oneshot };
        assert(lp@.handles =~= signal_start_model(
            old(lp)@,
            self.id as int,
            cb,
            signum,
            oneshot,
        ).handles);
        Ok(())
    }

    /// Shared validity test for the signal operations.
    fn op_precheck(&self, lp: &Loop) -> (r: Result<(), Error>)
        ensures
            r == signal_op_outcome(lp@, self.id as int),
    {
        if lp.closed {
            return Err(Error::Closed);
        }
        if self.id >= lp.handles.len() {
            return Err(Error::InvalidArgument);
        }
        if !(lp.handles[self.id].kind == HandleKind::Signal) {
            return Err(Error::InvalidArgument);
        }
        let state = lp.handles[self.id].state;
        if state == HandleState::Closing || state == HandleState::Destroyed {
            return Err(Error::Closed);
        }
        Ok(())
    }
}

impl Loop {
    /// Creates and initializes a new signal handle.
    pub fn signal(&mut self) -> (r: Result<SignalHandle, Error>)
        ensures
            old(self)@.closed ==> r == Err::<SignalHandle, Error>(Error::Closed) && final(self)@
                =~= old(self)@,
            !old(self)@.closed ==> r == Ok::<SignalHandle, Error>(
                SignalHandle { id: old(self)@.handles.len() as usize },
            ) && final(self)@ =~= signal_new_model(old(self)@),
    {
        SignalHandle::new(self)
    }
}

} // verus!
