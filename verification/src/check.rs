//! Check handles: their callback runs once per loop iteration, right after
//! polling for i/o (and after every idle callback of that iteration).

use vstd::prelude::*;
use crate::event_loop::{Loop, LoopModel};
use crate::handle::{Handle, HandleKind, HandleState, Payload, PayloadModel, SlotModel};
use crate::Error;

verus! {

/// A typed view of a check handle: the slot index in its loop, plus the kind
/// tag carried by the type itself.
#[derive(Clone, Copy, Debug, PartialEq, Eq, Structural)]
pub struct CheckHandle {
    pub id: usize,
}

/// The slot `id` of `m` exists and is a check handle's.
pub open spec fn is_check_slot(m: LoopModel, id: int) -> bool {
    0 <= id < m.handles.len() && m.handles[id].kind == HandleKind::Check
}

/// Model of creating a check handle: one fresh slot, initialized, with an
/// empty check payload attached.
pub open spec fn check_new_model(m: LoopModel) -> LoopModel {
    LoopModel {
        handles: m.handles.push(
            SlotModel {
                kind: HandleKind::Check,
                state: HandleState::Initialized,
                payload: PayloadModel::CheckP { check_cb: None },
                close_cb: None,
            },
        ),
        ..m
    }
}

/// Model of `start`/`stop` on a check handle's slot.  Registering `None` is
/// the same as stopping: there is nothing to invoke, so the watcher is not
/// armed at all.
pub open spec fn check_start_model(m: LoopModel, id: int, cb: Option<u64>) -> LoopModel {
    LoopModel {
        handles: m.handles.update(
            id,
            SlotModel {
                state: if cb is Some {
                    HandleState::Started
                } else {
                    HandleState::Stopped
                },
                payload: PayloadModel::CheckP { check_cb: cb },
                ..m.handles[id]
            },
        ),
        ..m
    }
}

/// The result `start` and `stop` report for a check slot: `Closed` on a
/// closed loop or a closing/destroyed handle, `InvalidArgument` for a slot
/// that is not a check handle's.
pub open spec fn check_op_outcome(m: LoopModel, id: int) -> Result<(), Error> {
    if m.closed {
        Err(Error::Closed)
    } else if !is_check_slot(m, id) {
        Err(Error::InvalidArgument)
    } else if m.handles[id].state == HandleState::Closing || m.handles[id].state
        == HandleState::Destroyed {
        Err(Error::Closed)
    } else {
        Ok(())
    }
}

impl CheckHandle {
    /// Creates and initializes a new check handle on the given loop.
    pub fn new(lp: &mut Loop) -> (r: Result<CheckHandle, Error>)
        ensures
            old(lp)@.closed ==> r == Err::<CheckHandle, Error>(Error::Closed) && final(lp)@ =~= old(
                lp,
            )@,
            !old(lp)@.closed ==> r == Ok::<CheckHandle, Error>(
                CheckHandle { id: old(lp)@.handles.len() as usize },
            ) && final(lp)@ =~= check_new_model(old(lp)@),
    {
        if lp.closed {
            return Err(Error::Closed);
        }
        let id = lp.handles.len();
        lp.handles.push(
            crate::handle::HandleSlot {
                kind: HandleKind::Check,
                state: HandleState::Initialized,
                payload: Payload::CheckPayload { check_cb: None },
                close_cb: None,
            },
        );
        assert(lp@.handles =~= check_new_model(old(lp)@).handles);
        Ok(CheckHandle { id })
    }

    /// Starts the handle: from now on the given callback fires once per loop
    /// iteration, after polling.  Registering `None` stores no callback and
    /// is treated as `stop`, since there is nothing to invoke.
    pub fn start(&self, lp: &mut Loop, cb: Option<u64>) -> (r: Result<(), Error>)
        ensures
            r == check_op_outcome(old(lp)@, self.id as int),
            r is Ok ==> final(lp)@ =~= check_start_model(old(lp)@, self.id as int, cb),
            r is Err ==> final(lp)@ =~= old(lp)@,
    {
        let outcome = self.op_precheck(lp);
        if let Err(e) = outcome {
            return Err(e);
        }
        let slot = &mut lp.handles[self.id];
        match cb {
            Some(t) => {
                slot.state = HandleState::Started;
                slot.payload = Payload::CheckPayload { check_cb: Some(t) };
            },
            None => {
                slot.state = HandleState::Stopped;
                slot.payload = Payload::CheckPayload { check_cb: None };
            },
        }
        assert(lp@.handles =~= check_start_model(old(lp)@, self.id as int, cb).handles);
        Ok(())
    }

    /// Stops the handle: the callback no longer fires.  Succeeds on any
    /// check handle that is not closing or destroyed, and is idempotent.
    pub fn stop(&self, lp: &mut Loop) -> (r: Result<(), Error>)
        ensures
            r == check_op_outcome(old(lp)@, self.id as int),
            r is Ok ==> final(lp)@ =~= check_start_model(old(lp)@, self.id as int, None),
            r is Err ==> final(lp)@ =~= old(lp)@,
    {
        self.start(lp, None)
    }

    /// The generic kind-tagged reference to this handle.
    pub fn to_handle(&self) -> (r: Handle)
        ensures
            r == (Handle { id: self.id, kind: HandleKind::Check }),
    {
        Handle { id: self.id, kind: HandleKind::Check }
    }

    /// Recovers the typed view from a generic handle, checking the kind tag.
    pub fn try_from(handle: Handle) -> (r: Result<CheckHandle, Error>)
        ensures
            handle.kind == HandleKind::Check ==> r == Ok::<CheckHandle, Error>(
                CheckHandle { id: handle.id },
            ),
            handle.kind != HandleKind::Check ==> r == Err::<CheckHandle, Error>(
                Error::InvalidArgument,
            ),
    {
        if matches!(handle.kind, HandleKind::Check) {
            Ok(CheckHandle { id: handle.id })
        } else {
            Err(Error::InvalidArgument)
        }
    }

    /// Shared validity test for `start` and `stop`: the loop must be open,
    /// the slot must be a check handle's, and it must not be past closing.
    fn op_precheck(&self, lp: &Loop) -> (r: Result<(), Error>)
        ensures
            r == check_op_outcome(lp@, self.id as int),
    {
        if lp.closed {
            return Err(Error::Closed);
        }
        if self.id >= lp.handles.len() {
            return Err(Error::InvalidArgument);
        }
        if !(lp.handles[self.id].kind == HandleKind::Check) {
            return Err(Error::InvalidArgument);
        }
        let state = lp.handles[self.id].state;
        if state == HandleState::Closing || state == HandleState::Destroyed {
            return Err(Error::Closed);
        }
        Ok(())
    }
}

impl Loop {
    /// Creates and initializes a new check handle.
    pub fn check(&mut self) -> (r: Result<CheckHandle, Error>)
        ensures
            old(self)@.closed ==> r == Err::<CheckHandle, Error>(Error::Closed) && final(self)@
                =~= old(self)@,
            !old(self)@.closed ==> r == Ok::<CheckHandle, Error>(
                CheckHandle { id: old(self)@.handles.len() as usize },
            ) && final(self)@ =~= check_new_model(old(self)@),
    {
        CheckHandle::new(self)
    }
}

} // verus!
