//! Idle handles: their callback runs once per loop iteration, before every
//! check callback of that iteration.  While any idle handle is active the
//! loop performs a zero-timeout poll instead of blocking for i/o, so active
//! idle handles keep the loop from ever sleeping.

use vstd::prelude::*;
use crate::event_loop::{Loop, LoopModel};
use crate::handle::{Handle, HandleKind, HandleState, Payload, PayloadModel, SlotModel};
use crate::Error;

verus! {

/// A typed view of an idle handle: the slot index in its loop.
#[derive(Clone, Copy, Debug, PartialEq, Eq, Structural)]
pub struct IdleHandle {
    pub id: usize,
}

/// The slot `id` of `m` exists and is an idle handle's.
pub open spec fn is_idle_slot(m: LoopModel, id: int) -> bool {
    0 <= id < m.handles.len() && m.handles[id].kind == HandleKind::Idle
}

/// Model of creating an idle handle: one fresh slot, initialized, with an
/// empty idle payload attached.
pub open spec fn idle_new_model(m: LoopModel) -> LoopModel {
    LoopModel {
        handles: m.handles.push(
            SlotModel {
                kind: HandleKind::Idle,
                state: HandleState::Initialized,
                payload: PayloadModel::IdleP { idle_cb: None },
                close_cb: None,
            },
        ),
        ..m
    }
}

/// Model of `start`/`stop` on an idle handle's slot.  Registering `None` is
/// the same as stopping: there is nothing to invoke, so the watcher is not
/// armed at all.
pub open spec fn idle_start_model(m: LoopModel, id: int, cb: Option<u64>) -> LoopModel {
    LoopModel {
        handles: m.handles.update(
            id,
            SlotModel {
                state: if cb is Some {
                    HandleState::Started
                } else {
                    HandleState::Stopped
                },
                payload: PayloadModel::IdleP { idle_cb: cb },
                ..m.handles[id]
            },
        ),
        ..m
    }
}

/// The result `start` and `stop` report for an idle slot.
pub open spec fn idle_op_outcome(m: LoopModel, id: int) -> Result<(), Error> {
    if m.closed {
        Err(Error::Closed)
    } else if !is_idle_slot(m, id) {
        Err(Error::InvalidArgument)
    } else if m.handles[id].state == HandleState::Closing || m.handles[id].state
        == HandleState::Destroyed {
        Err(Error::Closed)
    } else {
        Ok(())
    }
}

impl IdleHandle {
    /// Creates and initializes a new idle handle on the given loop.
    pub fn new(lp: &mut Loop) -> (r: Result<IdleHandle, Error>)
        ensures
            old(lp)@.closed ==> r == Err::<IdleHandle, Error>(Error::Closed) && final(lp)@ =~= old(
                lp,
            )@,
            !old(lp)@.closed ==> r == Ok::<IdleHandle, Error>(
                IdleHandle { id: old(lp)@.handles.len() as usize },
            ) && final(lp)@ =~= idle_new_model(old(lp)@),
    {
        if lp.closed {
            return Err(Error::Closed);
        }
        let id = lp.handles.len();
        lp.handles.push(
            crate::handle::HandleSlot {
                kind: HandleKind::Idle,
                state: HandleState::Initialized,
                payload: Payload::IdlePayload { idle_cb: None },
                close_cb: None,
            },
        );
        assert(lp@.handles =~= idle_new_model(old(lp)@).handles);
        Ok(IdleHandle { id })
    }

    /// Starts the handle: from now on the given callback fires once per loop
    /// iteration, before check callbacks.  Registering `None` stores no
    /// callback and is treated as `stop`, since there is nothing to invoke.
    pub fn start(&self, lp: &mut Loop, cb: Option<u64>) -> (r: Result<(), Error>)
        ensures
            r == idle_op_outcome(old(lp)@, self.id as int),
            r is Ok ==> final(lp)@ =~= idle_start_model(old(lp)@, self.id as int, cb),
            r is Err ==> final(lp)@ =~= old(lp)@,
    {
        let outcome = self.op_precheck(lp);
        if let Err(e) = outcome {
            return Err(e);
        }
        let slot = &mut lp.handles[self.id];
        match cb {
            Some(t) => {
                slot.state = HandleState::Started;
                slot.payload = Payload::IdlePayload { idle_cb: Some(t) };
            },
            None => {
                slot.state = HandleState::Stopped;
                slot.payload = Payload::IdlePayload { idle_cb: None };
            },
        }
        assert(lp@.handles =~= idle_start_model(old(lp)@, self.id as int, cb).handles);
        Ok(())
    }

    /// Stops the handle: the callback no longer fires.  Succeeds on any
    /// idle handle that is not closing or destroyed, and is idempotent.
    pub fn stop(&self, lp: &mut Loop) -> (r: Result<(), Error>)
        ensures
            r == idle_op_outcome(old(lp)@, self.id as int),
            r is Ok ==> final(lp)@ =~= idle_start_model(old(lp)@, self.id as int, None),
            r is Err ==> final(lp)@ =~= old(lp)@,
    {
        self.start(lp, None)
    }

    /// The generic kind-tagged reference to this handle.
    pub fn to_handle(&self) -> (r: Handle)
        ensures
            r == (Handle { id: self.id, kind: HandleKind::Idle }),
    {
        Handle { id: self.id, kind: HandleKind::Idle }
    }

    /// Recovers the typed view from a generic handle, checking the kind tag.
    pub fn try_from(handle: Handle) -> (r: Result<IdleHandle, Error>)
        ensures
            handle.kind == HandleKind::Idle ==> r == Ok::<IdleHandle, Error>(
                IdleHandle { id: handle.id },
            ),
            handle.kind != HandleKind::Idle ==> r == Err::<IdleHandle, Error>(
                Error::InvalidArgument,
            ),
    {
        if matches!(handle.kind, HandleKind::Idle) {
            Ok(IdleHandle { id: handle.id })
        } else {
            Err(Error::InvalidArgument)
        }
    }

    /// Shared validity test for `start` and `stop`.
    fn op_precheck(&self, lp: &Loop) -> (r: Result<(), Error>)
        ensures
            r == idle_op_outcome(lp@, self.id as int),
    {
        if lp.closed {
            return Err(Error::Closed);
        }
        if self.id >= lp.handles.len() {
            return Err(Error::InvalidArgument);
        }
        if !(lp.handles[self.id].kind == HandleKind::Idle) {
            return Err(Error::InvalidArgument);
        }
        let state = lp.handles[self.id].state;
        if state == HandleState::Closing || state == HandleState::Destroyed {
            return Err(Error::Closed);
        }
        Ok(())
    }
}

impl Loop {
    /// Creates and initializes a new idle handle.
    pub fn idle(&mut self) -> (r: Result<IdleHandle, Error>)
        ensures
            old(self)@.closed ==> r == Err::<IdleHandle, Error>(Error::Closed) && final(self)@
                =~= old(self)@,
            !old(self)@.closed ==> r == Ok::<IdleHandle, Error>(
                IdleHandle { id: old(self)@.handles.len() as usize },
            ) && final(self)@ =~= idle_new_model(old(self)@),
    {
        IdleHandle::new(self)
    }
}

} // verus!
