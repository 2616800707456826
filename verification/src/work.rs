//! Work requests: background work offloaded to a worker pool, with the
//! completion funneled back onto the loop thread.
//!
//! The work callback runs on a worker thread, concurrently with the loop; it
//! must not touch loop-owned state.  The completion callback runs on the loop
//! thread, exactly once per submission — with the work's classified outcome,
//! or with `Error::Cancelled` if the item was cancelled while still queued —
//! and the request destroys itself right after.

use vstd::prelude::*;
use crate::event_loop::{Loop, LoopModel};
use crate::handle::{WorkSlot, WorkStage};
use crate::Error;

verus! {

/// Identity of a work request: its slot index in the owning loop's work
/// table.
#[derive(Clone, Copy, Debug, PartialEq, Eq, Structural)]
pub struct WorkReq {
    pub id: usize,
}

/// The work slot `id` of `m` exists.
pub open spec fn is_work_slot(m: LoopModel, id: int) -> bool {
    0 <= id < m.works.len()
}

/// Model of submitting work: one fresh queued slot holding both callbacks.
pub open spec fn queue_work_model(m: LoopModel, work_cb: Option<u64>, after_work_cb: Option<
    u64,
>) -> LoopModel {
    LoopModel {
        works: m.works.push(WorkSlot { stage: WorkStage::Queued, work_cb, after_work_cb }),
        ..m
    }
}

/// What `queue_work` reports: a fresh request id unless the loop is closed.
pub open spec fn queue_work_outcome(m: LoopModel) -> Result<WorkReq, Error> {
    if m.closed {
        Err(Error::Closed)
    } else {
        Ok(WorkReq { id: m.works.len() as usize })
    }
}

/// What `cancel_work` reports: only a still-queued item can be cancelled.
/// A running item cannot be interrupted (`Busy`), an already cancelled item
/// reports `Busy` as well, and a completed one is gone (`Closed`).
pub open spec fn cancel_work_outcome(m: LoopModel, id: int) -> Result<(), Error> {
    if m.closed {
        Err(Error::Closed)
    } else if !is_work_slot(m, id) {
        Err(Error::InvalidArgument)
    } else if m.works[id].stage == WorkStage::Queued {
        Ok(())
    } else if m.works[id].stage == WorkStage::Done {
        Err(Error::Closed)
    } else {
        Err(Error::Busy)
    }
}

/// Model of a successful `cancel_work`: the item waits for its `Cancelled`
/// completion on the next iteration.
pub open spec fn cancel_work_model(m: LoopModel, id: int) -> LoopModel {
    LoopModel {
        works: m.works.update(
            id,
            WorkSlot { stage: WorkStage::CancelPending, ..m.works[id] },
        ),
        ..m
    }
}

impl WorkReq {
    /// The stage the request is currently in, if it exists on this loop.
    pub fn stage(&self, lp: &Loop) -> (r: Option<WorkStage>)
        ensures
            r is Some <==> is_work_slot(lp@, self.id as int),
            r is Some ==> r->Some_0 == lp@.works[self.id as int].stage,
    {
        if self.id < lp.works.len() {
            Some(lp.works[self.id].stage)
        } else {
            None
        }
    }
}

impl Loop {
    /// Submits `work_cb` to run on a worker thread; once it has returned,
    /// `after_work_cb` is invoked on the loop thread with the classified
    /// outcome, exactly once, and the request is destroyed.  The request can
    /// be cancelled with `cancel_work` while it is still queued.
    pub fn queue_work(&mut self, work_cb: Option<u64>, after_work_cb: Option<u64>) -> (r: Result<
        WorkReq,
        Error,
    >)
        ensures
            r == queue_work_outcome(old(self)@),
            r is Ok ==> final(self)@ =~= queue_work_model(old(self)@, work_cb, after_work_cb),
            r is Err ==> final(self)@ =~= old(self)@,
    {
        if self.closed {
            return Err(Error::Closed);
        }
        let id = self.works.len();
        self.works.push(WorkSlot { stage: WorkStage::Queued, work_cb, after_work_cb });
        assert(self@.works =~= queue_work_model(old(self)@, work_cb, after_work_cb).works);
        Ok(WorkReq { id })
    }

    /// Cancels a queued work item: its completion callback will fire with
    /// `Error::Cancelled` on the next iteration.  An item already picked up
    /// by a worker cannot be interrupted, only awaited.
    pub fn cancel_work(&mut self, req: WorkReq) -> (r: Result<(), Error>)
        ensures
            r == cancel_work_outcome(old(self)@, req.id as int),
            r is Ok ==> final(self)@ =~= cancel_work_model(old(self)@, req.id as int),
            r is Err ==> final(self)@ =~= old(self)@,
    {
        if self.closed {
            return Err(Error::Closed);
        }
        if req.id >= self.works.len() {
            return Err(Error::InvalidArgument);
        }
        let stage = self.works[req.id].stage;
        if stage == WorkStage::Queued {
            let slot = &mut self.works[req.id];
            slot.stage = WorkStage::CancelPending;
            assert(self@.works =~= cancel_work_model(old(self)@, req.id as int).works);
            Ok(())
        } else if stage == WorkStage::Done {
            Err(Error::Closed)
        } else {
            Err(Error::Busy)
        }
    }
}

} // verus!
