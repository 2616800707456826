//! Callback dispatch: one loop iteration takes the batch of events the
//! polling backend reported and produces, in order, the callback invocations
//! the embedder must perform.
//!
//! The order within one iteration is fixed: the cached time is refreshed,
//! every armed idle callback fires, cancelled work completions are
//! delivered, the backend's events are dispatched in the order reported,
//! every armed check callback fires (so idle fires strictly before check),
//! and finally handles whose close was requested are destroyed, their
//! still-queued requests cancelled, their payload entries freed, and their
//! close callbacks fired.

use vstd::prelude::*;
use crate::check::CheckHandle;
use crate::event_loop::{Loop, LoopModel, RunMode};
use crate::handle::{
    Handle, HandleKind, HandleState, Payload, PayloadModel, SlotModel, StreamModel, WorkSlot,
    WorkStage, WriteEntry, WriteModel,
};
use crate::idle::IdleHandle;
use crate::signal::SignalHandle;
use crate::stream::{
    is_stream_slot, stream_data_of, with_stream_data, with_stream_data_state, ShutdownReq,
    StreamHandle, WriteReq,
};
use crate::work::WorkReq;
use crate::Error;

verus! {

/// The scratch-buffer size suggested to a stream's allocation callback
/// before each read.
pub const SUGGESTED_BUFFER_SIZE: usize = 65536;

/// One readiness or completion event reported by the polling backend for
/// one iteration.
#[derive(Clone, Copy, Debug, PartialEq, Eq)]
pub enum Event {
    /// A platform signal of the given number reached the loop.
    SignalDelivered { signum: i32 },
    /// An incoming connection is ready on a listening stream; `status` is
    /// the backend's classification (zero for success).
    ConnectionArrived { stream: StreamHandle, status: i32 },
    /// A read completed on a stream: positive `nread` counts bytes, zero
    /// means no data this round, negative means end-of-stream or error.
    DataArrived { stream: StreamHandle, nread: i32 },
    /// The transport accepted the first `count` queued writes of a stream.
    WritesFlushed { stream: StreamHandle, count: usize },
    /// The worker pool picked up a queued work item.
    WorkStarted { req: WorkReq },
    /// A work item's worker-side callback returned with the given status.
    WorkFinished { req: WorkReq, status: i32 },
}

/// One callback invocation the embedder must perform, with the freshly
/// synthesized typed handle or request view to pass to it.
#[derive(Clone, Copy, Debug, PartialEq, Eq)]
pub enum Invocation {
    /// Fires once per iteration while the idle handle is started.
    IdleCallback { cb: u64, handle: IdleHandle },
    /// Fires once per iteration, after polling, while the check handle is
    /// started.
    CheckCallback { cb: u64, handle: CheckHandle },
    /// A watched signal was delivered.
    SignalCallback { cb: u64, handle: SignalHandle, signum: i32 },
    /// Asks for a scratch buffer before a read is reported.
    AllocCallback { cb: u64, handle: StreamHandle, suggested_size: usize },
    /// Reports a read: positive byte count, zero for "keep reading", or a
    /// negative end-of-stream/error value.
    ReadCallback { cb: u64, handle: StreamHandle, nread: i32 },
    /// Reports one incoming connection on a listening stream.
    ConnectionCallback { cb: u64, handle: StreamHandle, status: i32 },
    /// Reports completion of one queued write; the request is destroyed.
    WriteCallback { cb: u64, req: WriteReq, status: Result<(), Error> },
    /// Reports completion of a shutdown; the request is destroyed.
    ShutdownCallback { cb: u64, req: ShutdownReq, status: Result<(), Error> },
    /// Must be run on a worker thread, never on the loop thread.
    WorkCallback { cb: u64, req: WorkReq },
    /// Reports a work item's classified outcome on the loop thread; the
    /// request is destroyed.
    AfterWorkCallback { cb: u64, req: WorkReq, status: Result<u32, Error> },
    /// The handle finished closing and its resources are released.
    CloseCallback { cb: u64, handle: Handle },
}

/// One loop iteration's input: the clock reading the backend took when its
/// poll returned, and the events it reported.
#[derive(Clone, Debug)]
pub struct Tick {
    pub now: u64,
    pub events: Vec<Event>,
}

/// Model of a [`Tick`].
#[verifier::ext_equal]
pub struct TickModel {
    pub now: u64,
    pub events: Seq<Event>,
}

impl View for Tick {
    type V = TickModel;

    open spec fn view(&self) -> TickModel {
        TickModel { now: self.now, events: self.events@ }
    }
}

// ---------------------------------------------------------------------------
// The iteration's model, phase by phase.
// ---------------------------------------------------------------------------

/// The idle callback of slot `i`, if one would fire: the handle is a
/// started idle handle with a registered callback.
pub open spec fn idle_fire(m: LoopModel, i: int) -> Seq<Invocation> {
    if 0 <= i < m.handles.len() && m.handles[i].kind == HandleKind::Idle && m.handles[i].state
        == HandleState::Started {
        match m.handles[i].payload {
            PayloadModel::IdleP { idle_cb: Some(t) } => seq![
                Invocation::IdleCallback { cb: t, handle: IdleHandle { id: i as usize } },
            ],
            _ => Seq::empty(),
        }
    } else {
        Seq::empty()
    }
}

/// The idle pass over slots `[0, n)`, in slot order.
pub open spec fn idle_pass(m: LoopModel, n: int) -> Seq<Invocation>
    decreases n,
{
    if n <= 0 {
        Seq::empty()
    } else {
        idle_pass(m, n - 1) + idle_fire(m, n - 1)
    }
}

/// The check callback of slot `i`, if one would fire.
pub open spec fn check_fire(m: LoopModel, i: int) -> Seq<Invocation> {
    if 0 <= i < m.handles.len() && m.handles[i].kind == HandleKind::Check && m.handles[i].state
        == HandleState::Started {
        match m.handles[i].payload {
            PayloadModel::CheckP { check_cb: Some(t) } => seq![
                Invocation::CheckCallback { cb: t, handle: CheckHandle { id: i as usize } },
            ],
            _ => Seq::empty(),
        }
    } else {
        Seq::empty()
    }
}

/// The check pass over slots `[0, n)`, in slot order.
pub open spec fn check_pass(m: LoopModel, n: int) -> Seq<Invocation>
    decreases n,
{
    if n <= 0 {
        Seq::empty()
    } else {
        check_pass(m, n - 1) + check_fire(m, n - 1)
    }
}

/// Delivery of one cancelled work completion: the item becomes done and its
/// completion callback fires with `Error::Cancelled`.
pub open spec fn cancel_step(m: LoopModel, i: int) -> (LoopModel, Seq<Invocation>) {
    if 0 <= i < m.works.len() && m.works[i].stage == WorkStage::CancelPending {
        (
            LoopModel {
                works: m.works.update(i, WorkSlot { stage: WorkStage::Done, ..m.works[i] }),
                ..m
            },
            match m.works[i].after_work_cb {
                Some(t) => seq![
                    Invocation::AfterWorkCallback {
                        cb: t,
                        req: WorkReq { id: i as usize },
                        status: Err(Error::Cancelled),
                    },
                ],
                None => Seq::empty(),
            },
        )
    } else {
        (m, Seq::empty())
    }
}

/// The cancelled-work pass over work slots `[0, n)`, in slot order.
pub open spec fn cancel_pass(m: LoopModel, n: int) -> (LoopModel, Seq<Invocation>)
    decreases n,
{
    if n <= 0 {
        (m, Seq::empty())
    } else {
        let (m1, invs1) = cancel_pass(m, n - 1);
        let (m2, invs2) = cancel_step(m1, n - 1);
        (m2, invs1 + invs2)
    }
}

/// Delivery of one signal to slot `i`: a started signal watcher for that
/// number fires (if a callback is registered) and, when armed one-shot, is
/// disarmed the moment the signal is received.
pub open spec fn signal_step(m: LoopModel, signum: i32, i: int) -> (LoopModel, Seq<Invocation>) {
    if 0 <= i < m.handles.len() && m.handles[i].kind == HandleKind::Signal && m.handles[i].state
        == HandleState::Started {
        match m.handles[i].payload {
            PayloadModel::SignalP { signal_cb, signum: watched, oneshot } => {
                if watched == signum {
                    let invs = match signal_cb {
                        Some(t) => seq![
                            Invocation::SignalCallback {
                                cb: t,
                                handle: SignalHandle { id: i as usize },
                                signum,
                            },
                        ],
                        None => Seq::empty(),
                    };
                    if oneshot {
                        (
                            LoopModel {
                                handles: m.handles.update(
                                    i,
                                    SlotModel { state: HandleState::Stopped, ..m.handles[i] },
                                ),
                                ..m
                            },
                            invs,
                        )
                    } else {
                        (m, invs)
                    }
                } else {
                    (m, Seq::empty())
                }
            },
            _ => (m, Seq::empty()),
        }
    } else {
        (m, Seq::empty())
    }
}

/// Delivery of one signal to every watcher among slots `[0, n)`, in order.
pub open spec fn signal_delivery(m: LoopModel, signum: i32, n: int) -> (LoopModel, Seq<Invocation>)
    decreases n,
{
    if n <= 0 {
        (m, Seq::empty())
    } else {
        let (m1, invs1) = signal_delivery(m, signum, n - 1);
        let (m2, invs2) = signal_step(m1, signum, n - 1);
        (m2, invs1 + invs2)
    }
}

/// An incoming connection on stream `sid`: while the listener has backlog
/// capacity the connection becomes pending and the connection callback
/// fires; past the backlog the backend drops it silently.
pub open spec fn connection_event(m: LoopModel, sid: int, status: i32) -> (
    LoopModel,
    Seq<Invocation>,
) {
    if is_stream_slot(m, sid) && m.handles[sid].state == HandleState::Started && stream_data_of(
        m,
        sid,
    ).listening {
        let d = stream_data_of(m, sid);
        if d.pending_connections < d.backlog as u64 {
            (
                with_stream_data(
                    m,
                    sid,
                    StreamModel {
                        pending_connections: (d.pending_connections + 1) as u64,
                        ..d
                    },
                ),
                match d.connection_cb {
                    Some(t) => seq![
                        Invocation::ConnectionCallback {
                            cb: t,
                            handle: StreamHandle { id: sid as usize },
                            status,
                        },
                    ],
                    None => Seq::empty(),
                },
            )
        } else {
            (m, Seq::empty())
        }
    } else {
        (m, Seq::empty())
    }
}

/// A read on stream `sid` while it is reading: the allocation callback is
/// asked for a buffer, then the read callback gets the count.  A negative
/// count ends the stream: reading stops and the handle is no longer
/// readable.
pub open spec fn data_event(m: LoopModel, sid: int, nread: i32) -> (LoopModel, Seq<Invocation>) {
    if is_stream_slot(m, sid) && m.handles[sid].state == HandleState::Started && stream_data_of(
        m,
        sid,
    ).reading {
        let d = stream_data_of(m, sid);
        let invs = (match d.alloc_cb {
            Some(t) => seq![
                Invocation::AllocCallback {
                    cb: t,
                    handle: StreamHandle { id: sid as usize },
                    suggested_size: SUGGESTED_BUFFER_SIZE,
                },
            ],
            None => Seq::empty(),
        }) + (match d.read_cb {
            Some(t) => seq![
                Invocation::ReadCallback {
                    cb: t,
                    handle: StreamHandle { id: sid as usize },
                    nread,
                },
            ],
            None => Seq::empty(),
        });
        if nread < 0 {
            (
                with_stream_data_state(
                    m,
                    sid,
                    StreamModel { reading: false, readable: false, ..d },
                    if d.listening {
                        HandleState::Started
                    } else {
                        HandleState::Stopped
                    },
                ),
                invs,
            )
        } else {
            (m, invs)
        }
    } else {
        (m, Seq::empty())
    }
}

/// Completion invocations for flushed writes, in queue order.
pub open spec fn write_completion_invs(q: Seq<WriteModel>, sid: int) -> Seq<Invocation>
    decreases q.len(),
{
    if q.len() == 0 {
        Seq::empty()
    } else {
        write_completion_invs(q.drop_last(), sid) + (match q.last().cb {
            Some(t) => seq![
                Invocation::WriteCallback {
                    cb: t,
                    req: WriteReq { stream: sid as usize, id: q.last().id },
                    status: Ok(()),
                },
            ],
            None => Seq::empty(),
        })
    }
}

/// The bytes of the given writes, concatenated in queue order.
pub open spec fn flushed_bytes(q: Seq<WriteModel>) -> Seq<u8>
    decreases q.len(),
{
    if q.len() == 0 {
        Seq::empty()
    } else {
        flushed_bytes(q.drop_last()) + q.last().bytes
    }
}

/// The transport accepted the first `count` queued writes of stream `sid`:
/// their bytes go out in order, their completion callbacks fire in
/// submission order, and each completed request is destroyed.  If the queue
/// drains with a shutdown pending, the shutdown completes and the outgoing
/// direction closes.
pub open spec fn flush_event(m: LoopModel, sid: int, count: int) -> (LoopModel, Seq<Invocation>) {
    if is_stream_slot(m, sid) && m.handles[sid].state != HandleState::Closing && m.handles[
        sid
    ].state != HandleState::Destroyed {
        let d = stream_data_of(m, sid);
        let n = if count < d.write_queue.len() {
            count
        } else {
            d.write_queue.len() as int
        };
        let done = d.write_queue.take(n);
        let rest = d.write_queue.skip(n);
        let invs = write_completion_invs(done, sid);
        let d2 = StreamModel { write_queue: rest, sent: d.sent + flushed_bytes(done), ..d };
        if rest.len() == 0 && d2.shutdown_req is Some {
            let sh = d2.shutdown_req->Some_0;
            (
                with_stream_data(
                    m,
                    sid,
                    StreamModel { shutdown_req: None, writable: false, ..d2 },
                ),
                invs + (match sh.cb {
                    Some(t) => seq![
                        Invocation::ShutdownCallback {
                            cb: t,
                            req: ShutdownReq { stream: sid as usize, id: sh.id },
                            status: Ok(()),
                        },
                    ],
                    None => Seq::empty(),
                }),
            )
        } else {
            (with_stream_data(m, sid, d2), invs)
        }
    } else {
        (m, Seq::empty())
    }
}

/// A queued work item was picked up by the pool: it is now running and its
/// worker-side callback must be invoked on a worker thread.
pub open spec fn work_started_event(m: LoopModel, rid: int) -> (LoopModel, Seq<Invocation>) {
    if 0 <= rid < m.works.len() && m.works[rid].stage == WorkStage::Queued {
        (
            LoopModel {
                works: m.works.update(
                    rid,
                    WorkSlot { stage: WorkStage::Running, ..m.works[rid] },
                ),
                ..m
            },
            match m.works[rid].work_cb {
                Some(t) => seq![
                    Invocation::WorkCallback { cb: t, req: WorkReq { id: rid as usize } },
                ],
                None => Seq::empty(),
            },
        )
    } else {
        (m, Seq::empty())
    }
}

/// A worker-side callback's classified outcome: non-negative statuses
/// succeed, negative ones pass the backend's code through.
pub open spec fn classify_work_status(status: i32) -> Result<u32, Error> {
    if status >= 0 {
        Ok(status as u32)
    } else {
        Err(Error::BackendError(status))
    }
}

/// A work item finished on its worker: the completion callback fires
/// exactly once, on the loop thread, and the request is destroyed.
pub open spec fn work_finished_event(m: LoopModel, rid: int, status: i32) -> (
    LoopModel,
    Seq<Invocation>,
) {
    if 0 <= rid < m.works.len() && (m.works[rid].stage == WorkStage::Queued || m.works[rid].stage
        == WorkStage::Running) {
        (
            LoopModel {
                works: m.works.update(rid, WorkSlot { stage: WorkStage::Done, ..m.works[rid] }),
                ..m
            },
            match m.works[rid].after_work_cb {
                Some(t) => seq![
                    Invocation::AfterWorkCallback {
                        cb: t,
                        req: WorkReq { id: rid as usize },
                        status: classify_work_status(status),
                    },
                ],
                None => Seq::empty(),
            },
        )
    } else {
        (m, Seq::empty())
    }
}

/// Dispatch of one backend event.
pub open spec fn apply_event(m: LoopModel, ev: Event) -> (LoopModel, Seq<Invocation>) {
    match ev {
        Event::SignalDelivered { signum } => signal_delivery(m, signum, m.handles.len() as int),
        Event::ConnectionArrived { stream, status } => connection_event(
            m,
            stream.id as int,
            status,
        ),
        Event::DataArrived { stream, nread } => data_event(m, stream.id as int, nread),
        Event::WritesFlushed { stream, count } => flush_event(m, stream.id as int, count as int),
        Event::WorkStarted { req } => work_started_event(m, req.id as int),
        Event::WorkFinished { req, status } => work_finished_event(m, req.id as int, status),
    }
}

/// Dispatch of a batch of events, in the order the backend reported them.
pub open spec fn apply_events(m: LoopModel, evs: Seq<Event>) -> (LoopModel, Seq<Invocation>)
    decreases evs.len(),
{
    if evs.len() == 0 {
        (m, Seq::empty())
    } else {
        let (m1, invs1) = apply_events(m, evs.drop_last());
        let (m2, invs2) = apply_event(m1, evs.last());
        (m2, invs1 + invs2)
    }
}

/// The invocations owed when a closing slot is destroyed: every still
/// queued write and the pending shutdown complete with `Error::Cancelled`
/// (nothing queued is dropped silently), then the close callback fires.
pub open spec fn cancelled_req_invs(s: SlotModel, i: int) -> Seq<Invocation> {
    match s.payload {
        PayloadModel::StreamP(d) => cancelled_write_invs(d.write_queue, i) + (
        match d.shutdown_req {
            Some(sh) => match sh.cb {
                Some(t) => seq![
                    Invocation::ShutdownCallback {
                        cb: t,
                        req: ShutdownReq { stream: i as usize, id: sh.id },
                        status: Err(Error::Cancelled),
                    },
                ],
                None => Seq::empty(),
            },
            None => Seq::empty(),
        }),
        _ => Seq::empty(),
    }
}

/// Cancellation invocations for the writes of a torn-down stream, in queue
/// order.
pub open spec fn cancelled_write_invs(q: Seq<WriteModel>, sid: int) -> Seq<Invocation>
    decreases q.len(),
{
    if q.len() == 0 {
        Seq::empty()
    } else {
        cancelled_write_invs(q.drop_last(), sid) + (match q.last().cb {
            Some(t) => seq![
                Invocation::WriteCallback {
                    cb: t,
                    req: WriteReq { stream: sid as usize, id: q.last().id },
                    status: Err(Error::Cancelled),
                },
            ],
            None => Seq::empty(),
        })
    }
}

/// Destruction of one closing slot: its queued requests are cancelled, its
/// close callback fires, its payload store entry is freed exactly here —
/// no callback for this handle can fire afterwards — and the slot is
/// destroyed.
pub open spec fn close_step(m: LoopModel, i: int) -> (LoopModel, Seq<Invocation>) {
    if 0 <= i < m.handles.len() && m.handles[i].state == HandleState::Closing {
        let s = m.handles[i];
        (
            LoopModel {
                handles: m.handles.update(
                    i,
                    SlotModel {
                        state: HandleState::Destroyed,
                        payload: PayloadModel::FreedP,
                        ..s
                    },
                ),
                ..m
            },
            cancelled_req_invs(s, i) + (match s.close_cb {
                Some(t) => seq![
                    Invocation::CloseCallback {
                        cb: t,
                        handle: Handle { id: i as usize, kind: s.kind },
                    },
                ],
                None => Seq::empty(),
            }),
        )
    } else {
        (m, Seq::empty())
    }
}

/// The close pass over slots `[0, n)`, in slot order.
pub open spec fn close_pass(m: LoopModel, n: int) -> (LoopModel, Seq<Invocation>)
    decreases n,
{
    if n <= 0 {
        (m, Seq::empty())
    } else {
        let (m1, invs1) = close_pass(m, n - 1);
        let (m2, invs2) = close_step(m1, n - 1);
        (m2, invs1 + invs2)
    }
}

/// Model of one whole iteration, phases in order: time refresh, idle pass,
/// cancelled-work completions, the backend's events, check pass, close
/// pass.
pub open spec fn tick_model(m: LoopModel, now: u64, evs: Seq<Event>) -> (LoopModel, Seq<Invocation>) {
    let mt = LoopModel { time: if now > m.time { now } else { m.time }, ..m };
    let idle_invs = idle_pass(mt, mt.handles.len() as int);
    let (m1, cancel_invs) = cancel_pass(mt, mt.works.len() as int);
    let (m2, ev_invs) = apply_events(m1, evs);
    let check_invs = check_pass(m2, m2.handles.len() as int);
    let (m3, close_invs) = close_pass(m2, m2.handles.len() as int);
    (m3, idle_invs + cancel_invs + ev_invs + check_invs + close_invs)
}

/// Model of `run`: iterations are taken while the loop is alive, no stop is
/// requested and event batches remain; `Once` and `NoWait` take at most one
/// batch.  On return the stop request is consumed.
pub open spec fn run_model(m: LoopModel, mode: RunMode, ticks: Seq<TickModel>) -> (
    LoopModel,
    Seq<Invocation>,
)
    decreases ticks.len(),
{
    if !m.alive() || m.stop_requested || ticks.len() == 0 {
        (LoopModel { stop_requested: false, ..m }, Seq::empty())
    } else {
        let (m1, invs1) = tick_model(m, ticks[0].now, ticks[0].events);
        if mode == RunMode::Default {
            let (m2, invs2) = run_model(m1, mode, ticks.skip(1));
            (m2, invs1 + invs2)
        } else {
            (LoopModel { stop_requested: false, ..m1 }, invs1)
        }
    }
}



/// Mapping entries to their models commutes with dropping a prefix.
proof fn lemma_map_skip(v: Seq<WriteEntry>, j: int)
    requires
        0 <= j <= v.len(),
    ensures
        v.skip(j).map_values(|w: WriteEntry| w@) =~= v.map_values(|w: WriteEntry| w@).skip(j),
{
}


// ---------------------------------------------------------------------------
// The executable iteration.
// ---------------------------------------------------------------------------

impl Loop {
    /// Fires every armed idle callback, in slot order.
    fn run_idle_pass(&self, invs: &mut Vec<Invocation>)
        ensures
            final(invs)@ =~~= old(invs)@ + idle_pass(self@, self@.handles.len() as int),
    {
        let ghost m = self@;
        let ghost base = old(invs)@;
        let n = self.handles.len();
        let mut i: usize = 0;
        while i < n
            invariant
                i <= n,
                n == self.handles@.len(),
                m == self@,
                invs@ =~~= base + idle_pass(m, i as int),
            decreases n - i,
        {
            let slot = &self.handles[i];
            if matches!(slot.kind, HandleKind::Idle) && matches!(slot.state, HandleState::Started) {
                if let Payload::IdlePayload { idle_cb: Some(t) } = &slot.payload {
                    invs.push(Invocation::IdleCallback { cb: *t, handle: IdleHandle { id: i } });
                }
            }
            assert(idle_pass(m, (i + 1) as int) =~~= idle_pass(m, i as int) + idle_fire(
                m,
                i as int,
            ));
            i = i + 1;
        }
    }

    /// Fires every armed check callback, in slot order.
    fn run_check_pass(&self, invs: &mut Vec<Invocation>)
        ensures
            final(invs)@ =~~= old(invs)@ + check_pass(self@, self@.handles.len() as int),
    {
        let ghost m = self@;
        let ghost base = old(invs)@;
        let n = self.handles.len();
        let mut i: usize = 0;
        while i < n
            invariant
                i <= n,
                n == self.handles@.len(),
                m == self@,
                invs@ =~~= base + check_pass(m, i as int),
            decreases n - i,
        {
            let slot = &self.handles[i];
            if matches!(slot.kind, HandleKind::Check) && matches!(slot.state, HandleState::Started) {
                if let Payload::CheckPayload { check_cb: Some(t) } = &slot.payload {
                    invs.push(Invocation::CheckCallback { cb: *t, handle: CheckHandle { id: i } });
                }
            }
            assert(check_pass(m, (i + 1) as int) =~~= check_pass(m, i as int) + check_fire(
                m,
                i as int,
            ));
            i = i + 1;
        }
    }

    /// Delivers the completion of every cancelled work item.
    fn run_cancel_pass(&mut self, invs: &mut Vec<Invocation>)
        ensures
            ({
                let (m2, i2) = cancel_pass(old(self)@, old(self)@.works.len() as int);
                final(self)@ =~~= m2 && final(invs)@ =~~= old(invs)@ + i2
            }),
    {
        let ghost m0 = self@;
        let ghost base = old(invs)@;
        let n = self.works.len();
        let mut i: usize = 0;
        while i < n
            invariant
                i <= n,
                n == m0.works.len(),
                self.works@.len() == n,
                ({
                    let (mi, ii) = cancel_pass(m0, i as int);
                    self@ =~~= mi && invs@ =~~= base + ii
                }),
            decreases n - i,
        {
            proof {
                let (mi, ii) = cancel_pass(m0, i as int);
                let (ms, is2) = cancel_step(mi, i as int);
                assert(cancel_pass(m0, (i + 1) as int) == (ms, ii + is2));
            }
            if matches!(self.works[i].stage, WorkStage::CancelPending) {
                let acb = self.works[i].after_work_cb;
                let slot = &mut self.works[i];
                slot.stage = WorkStage::Done;
                if let Some(t) = acb {
                    invs.push(
                        Invocation::AfterWorkCallback {
                            cb: t,
                            req: WorkReq { id: i },
                            status: Err(Error::Cancelled),
                        },
                    );
                }
            }
            assert(self@ =~~= cancel_pass(m0, (i + 1) as int).0);
            assert(invs@ =~~= base + cancel_pass(m0, (i + 1) as int).1);
            i = i + 1;
        }
    }

    /// Delivers one signal to every watcher of its number, in slot order.
    fn apply_signal(&mut self, signum: i32, invs: &mut Vec<Invocation>)
        ensures
            ({
                let (m2, i2) = signal_delivery(old(self)@, signum, old(self)@.handles.len() as int);
                final(self)@ =~~= m2 && final(invs)@ =~~= old(invs)@ + i2
            }),
    {
        let ghost m0 = self@;
        let ghost base = old(invs)@;
        let n = self.handles.len();
        let mut i: usize = 0;
        while i < n
            invariant
                i <= n,
                n == m0.handles.len(),
                self.handles@.len() == n,
                ({
                    let (mi, ii) = signal_delivery(m0, signum, i as int);
                    self@ =~~= mi && invs@ =~~= base + ii
                }),
            decreases n - i,
        {
            proof {
                let (mi, ii) = signal_delivery(m0, signum, i as int);
                let (ms, is2) = signal_step(mi, signum, i as int);
                assert(signal_delivery(m0, signum, (i + 1) as int) == (ms, ii + is2));
            }
            if matches!(self.handles[i].kind, HandleKind::Signal) && matches!(
                self.handles[i].state,
                HandleState::Started,
            ) {
                let mut fired_oneshot = false;
                if let Payload::SignalPayload { signal_cb, signum: watched, oneshot } = &self
                    .handles[i].payload {
                    if *watched == signum {
                        if let Some(t) = signal_cb {
                            invs.push(
                                Invocation::SignalCallback {
                                    cb: *t,
                                    handle: SignalHandle { id: i },
                                    signum,
                                },
                            );
                        }
                        fired_oneshot = *oneshot;
                    }
                }
                if fired_oneshot {
                    let slot = &mut self.handles[i];
                    slot.state = HandleState::Stopped;
                }
            }
            assert(self@ =~~= signal_delivery(m0, signum, (i + 1) as int).0);
            assert(invs@ =~~= base + signal_delivery(m0, signum, (i + 1) as int).1);
            i = i + 1;
        }
    }

    /// Dispatches one incoming connection on a listening stream.
    fn apply_connection(&mut self, s: StreamHandle, status: i32, invs: &mut Vec<Invocation>)
        ensures
            ({
                let (m2, i2) = connection_event(old(self)@, s.id as int, status);
                final(self)@ =~~= m2 && final(invs)@ =~~= old(invs)@ + i2
            }),
    {
        let ghost m0 = self@;
        if s.id >= self.handles.len() {
            return ;
        }
        if !(self.handles[s.id].kind == HandleKind::Stream) {
            return ;
        }
        if !(self.handles[s.id].state == HandleState::Started) {
            return ;
        }
        let slot = &mut self.handles[s.id];
        if let Payload::StreamPayload(d) = &mut slot.payload {
            if d.listening && d.pending_connections < d.backlog as u64 {
                d.pending_connections = d.pending_connections + 1;
                if let Some(t) = d.connection_cb {
                    invs.push(
                        Invocation::ConnectionCallback { cb: t, handle: StreamHandle { id: s.id }, status },
                    );
                }
            }
        }
        assert(self@ =~~= connection_event(m0, s.id as int, status).0);
        assert(invs@ =~~= old(invs)@ + connection_event(m0, s.id as int, status).1);
    }

    /// Dispatches one read on a reading stream: the allocation callback is
    /// asked for scratch space, then the read callback gets the count.
    fn apply_data(&mut self, s: StreamHandle, nread: i32, invs: &mut Vec<Invocation>)
        ensures
            ({
                let (m2, i2) = data_event(old(self)@, s.id as int, nread);
                final(self)@ =~~= m2 && final(invs)@ =~~= old(invs)@ + i2
            }),
    {
        let ghost m0 = self@;
        if s.id >= self.handles.len() {
            return ;
        }
        if !(self.handles[s.id].kind == HandleKind::Stream) {
            return ;
        }
        if !(self.handles[s.id].state == HandleState::Started) {
            return ;
        }
        let mut ends = false;
        let mut listening = false;
        let slot = &mut self.handles[s.id];
        if let Payload::StreamPayload(d) = &mut slot.payload {
            if d.reading {
                if let Some(t) = d.alloc_cb {
                    invs.push(
                        Invocation::AllocCallback {
                            cb: t,
                            handle: StreamHandle { id: s.id },
                            suggested_size: SUGGESTED_BUFFER_SIZE,
                        },
                    );
                }
                if let Some(t) = d.read_cb {
                    invs.push(
                        Invocation::ReadCallback { cb: t, handle: StreamHandle { id: s.id }, nread },
                    );
                }
                if nread < 0 {
                    d.reading = false;
                    d.readable = false;
                    ends = true;
                    listening = d.listening;
                }
            }
        }
        if ends {
            let slot2 = &mut self.handles[s.id];
            slot2.state = if listening {
                HandleState::Started
            } else {
                HandleState::Stopped
            };
        }
        assert(self@ =~~= data_event(m0, s.id as int, nread).0);
        assert(invs@ =~~= old(invs)@ + data_event(m0, s.id as int, nread).1);
    }

    /// Completes the first `count` queued writes of a stream, in submission
    /// order, handing their bytes to the transport; completes a pending
    /// shutdown if the queue drains.
    fn apply_flush(&mut self, s: StreamHandle, count: usize, invs: &mut Vec<Invocation>)
        ensures
            ({
                let (m2, i2) = flush_event(old(self)@, s.id as int, count as int);
                final(self)@ =~~= m2 && final(invs)@ =~~= old(invs)@ + i2
            }),
    {
        let ghost m0 = self@;
        let ghost base = old(invs)@;
        if s.id >= self.handles.len() {
            return ;
        }
        if !(self.handles[s.id].kind == HandleKind::Stream) {
            return ;
        }
        let state = self.handles[s.id].state;
        if state == HandleState::Closing || state == HandleState::Destroyed {
            return ;
        }
        let slot = &mut self.handles[s.id];
        if let Payload::StreamPayload(d) = &mut slot.payload {
            let ghost d0 = d@;
            let ghost q0: Seq<WriteEntry> = d.write_queue@;
            let n: usize = if count < d.write_queue.len() {
                count
            } else {
                d.write_queue.len()
            };
            let mut j: usize = 0;
            while j < n
                invariant
                    j <= n,
                    n <= q0.len(),
                    d0.write_queue == q0.map_values(|w: WriteEntry| w@),
                    d.write_queue@ =~= q0.skip(j as int),
                    d.sent@ =~~= d0.sent + flushed_bytes(d0.write_queue.take(j as int)),
                    invs@ =~~= base + write_completion_invs(
                        d0.write_queue.take(j as int),
                        s.id as int,
                    ),
                    d@ =~~= (StreamModel {
                        write_queue: d.write_queue@.map_values(|w: WriteEntry| w@),
                        sent: d.sent@,
                        ..d0
                    }),
                decreases n - j,
            {
                proof {
                    assert(d0.write_queue.take((j + 1) as int).drop_last() =~~= d0.write_queue
                        .take(j as int));
                    assert(d0.write_queue.take((j + 1) as int).last() == d0.write_queue[j as int]);
                    assert(d.write_queue@.len() == q0.len() - j);
                }
                let mut entry = d.write_queue.remove(0);
                proof {
                    assert(entry == q0[j as int]);
                    assert(d.write_queue@ =~= q0.skip((j + 1) as int));
                    lemma_map_skip(q0, (j + 1) as int);
                }
                if let Some(t) = entry.cb {
                    invs.push(
                        Invocation::WriteCallback {
                            cb: t,
                            req: WriteReq { stream: s.id, id: entry.id },
                            status: Ok(()),
                        },
                    );
                }
                d.sent.append(&mut entry.bytes);
                proof {
                    assert(d.sent@ =~~= d0.sent + flushed_bytes(
                        d0.write_queue.take((j + 1) as int),
                    ));
                    assert(invs@ =~~= base + write_completion_invs(
                        d0.write_queue.take((j + 1) as int),
                        s.id as int,
                    ));
                    assert(d@.write_queue =~~= d0.write_queue.skip((j + 1) as int));
                }
                j = j + 1;
            }
            proof {
                lemma_map_skip(q0, n as int);
                assert(d@.write_queue =~~= d0.write_queue.skip(n as int));
            }
            if d.write_queue.len() == 0 {
                if let Some(sh) = d.shutdown_req {
                    d.shutdown_req = None;
                    d.writable = false;
                    if let Some(t) = sh.cb {
                        invs.push(
                            Invocation::ShutdownCallback {
                                cb: t,
                                req: ShutdownReq { stream: s.id, id: sh.id },
                                status: Ok(()),
                            },
                        );
                    }
                }
            }
        }
        assert(self@ =~~= flush_event(m0, s.id as int, count as int).0);
        assert(invs@ =~~= base + flush_event(m0, s.id as int, count as int).1);
    }

    /// Marks a queued work item running and asks for its worker-side
    /// callback to be run on a worker thread.
    fn apply_work_started(&mut self, req: WorkReq, invs: &mut Vec<Invocation>)
        ensures
            ({
                let (m2, i2) = work_started_event(old(self)@, req.id as int);
                final(self)@ =~~= m2 && final(invs)@ =~~= old(invs)@ + i2
            }),
    {
        if req.id >= self.works.len() {
            return ;
        }
        if !matches!(self.works[req.id].stage, WorkStage::Queued) {
            return ;
        }
        let wcb = self.works[req.id].work_cb;
        let slot = &mut self.works[req.id];
        slot.stage = WorkStage::Running;
        if let Some(t) = wcb {
            invs.push(Invocation::WorkCallback { cb: t, req: WorkReq { id: req.id } });
        }
    }

    /// Delivers a work item's completion on the loop thread, exactly once,
    /// and destroys the request.
    fn apply_work_finished(&mut self, req: WorkReq, status: i32, invs: &mut Vec<Invocation>)
        ensures
            ({
                let (m2, i2) = work_finished_event(old(self)@, req.id as int, status);
                final(self)@ =~~= m2 && final(invs)@ =~~= old(invs)@ + i2
            }),
    {
        if req.id >= self.works.len() {
            return ;
        }
        if !matches!(self.works[req.id].stage, WorkStage::Queued | WorkStage::Running) {
            return ;
        }
        let acb = self.works[req.id].after_work_cb;
        let slot = &mut self.works[req.id];
        slot.stage = WorkStage::Done;
        if let Some(t) = acb {
            let classified: Result<u32, Error> = if status >= 0 {
                Ok(status as u32)
            } else {
                Err(Error::BackendError(status))
            };
            invs.push(
                Invocation::AfterWorkCallback { cb: t, req: WorkReq { id: req.id }, status: classified },
            );
        }
    }

    /// Dispatches one backend event.
    fn apply_one_event(&mut self, ev: &Event, invs: &mut Vec<Invocation>)
        ensures
            ({
                let (m2, i2) = apply_event(old(self)@, *ev);
                final(self)@ =~~= m2 && final(invs)@ =~~= old(invs)@ + i2
            }),
    {
        match ev {
            Event::SignalDelivered { signum } => self.apply_signal(*signum, invs),
            Event::ConnectionArrived { stream, status } => self.apply_connection(
                *stream,
                *status,
                invs,
            ),
            Event::DataArrived { stream, nread } => self.apply_data(*stream, *nread, invs),
            Event::WritesFlushed { stream, count } => self.apply_flush(*stream, *count, invs),
            Event::WorkStarted { req } => self.apply_work_started(*req, invs),
            Event::WorkFinished { req, status } => self.apply_work_finished(*req, *status, invs),
        }
    }

    /// Destroys every handle whose close was requested: its queued requests
    /// are cancelled (never dropped silently), its close callback fires,
    /// and its payload store entry is freed exactly once, here.
    fn run_close_pass(&mut self, invs: &mut Vec<Invocation>)
        ensures
            ({
                let (m2, i2) = close_pass(old(self)@, old(self)@.handles.len() as int);
                final(self)@ =~~= m2 && final(invs)@ =~~= old(invs)@ + i2
            }),
    {
        let ghost m0 = self@;
        let ghost base = old(invs)@;
        let n = self.handles.len();
        let mut i: usize = 0;
        while i < n
            invariant
                i <= n,
                n == m0.handles.len(),
                self.handles@.len() == n,
                ({
                    let (mi, ii) = close_pass(m0, i as int);
                    self@ =~~= mi && invs@ =~~= base + ii
                }),
            decreases n - i,
        {
            proof {
                let (mi, ii) = close_pass(m0, i as int);
                let (ms, is2) = close_step(mi, i as int);
                assert(close_pass(m0, (i + 1) as int) == (ms, ii + is2));
            }
            if matches!(self.handles[i].state, HandleState::Closing) {
                let ghost base2 = invs@;
                let ghost s0 = self@.handles[i as int];
                match &self.handles[i].payload {
                    Payload::StreamPayload(d) => {
                        let ghost q = d@.write_queue;
                        let qn = d.write_queue.len();
                        let mut j: usize = 0;
                        while j < qn
                            invariant
                                j <= qn,
                                qn == q.len(),
                                q == d.write_queue@.map_values(|w: WriteEntry| w@),
                                qn == d.write_queue@.len(),
                                invs@ =~~= base2 + cancelled_write_invs(q.take(j as int), i as int),
                            decreases qn - j,
                        {
                            proof {
                                assert(q.take((j + 1) as int).drop_last() =~~= q.take(j as int));
                                assert(q.take((j + 1) as int).last() == q[j as int]);
                            }
                            let e = &d.write_queue[j];
                            if let Some(t) = e.cb {
                                invs.push(
                                    Invocation::WriteCallback {
                                        cb: t,
                                        req: WriteReq { stream: i, id: e.id },
                                        status: Err(Error::Cancelled),
                                    },
                                );
                            }
                            j = j + 1;
                        }
                        assert(q.take(qn as int) =~~= q);
                        if let Some(sh) = d.shutdown_req {
                            if let Some(t) = sh.cb {
                                invs.push(
                                    Invocation::ShutdownCallback {
                                        cb: t,
                                        req: ShutdownReq { stream: i, id: sh.id },
                                        status: Err(Error::Cancelled),
                                    },
                                );
                            }
                        }
                    },
                    _ => {},
                }
                assert(invs@ =~~= base2 + cancelled_req_invs(s0, i as int));
                if let Some(t) = self.handles[i].close_cb {
                    let kind = self.handles[i].kind;
                    invs.push(Invocation::CloseCallback { cb: t, handle: Handle { id: i, kind } });
                }
                let slot = &mut self.handles[i];
                slot.state = HandleState::Destroyed;
                slot.payload = Payload::Freed;
            }
            assert(self@ =~~= close_pass(m0, (i + 1) as int).0);
            assert(invs@ =~~= base + close_pass(m0, (i + 1) as int).1);
            i = i + 1;
        }
    }

    /// Runs one whole iteration against the events the backend reported,
    /// returning every callback invocation to perform, in order.
    pub fn run_iteration(&mut self, now_ms: u64, events: &Vec<Event>) -> (invs: Vec<Invocation>)
        ensures
            ({
                let (m2, i2) = tick_model(old(self)@, now_ms, events@);
                final(self)@ =~~= m2 && invs@ =~~= i2
            }),
    {
        let mut invs: Vec<Invocation> = Vec::new();
        self.update_time(now_ms);
        let ghost mt = self@;
        self.run_idle_pass(&mut invs);
        assert(invs@ =~~= Seq::<Invocation>::empty() + idle_pass(mt, mt.handles.len() as int));
        self.run_cancel_pass(&mut invs);
        let ghost m1 = self@;
        let mut k: usize = 0;
        let ghost base_ev = invs@;
        while k < events.len()
            invariant
                k <= events@.len(),
                ({
                    let (mk, ik) = apply_events(m1, events@.take(k as int));
                    self@ =~~= mk && invs@ =~~= base_ev + ik
                }),
            decreases events@.len() - k,
        {
            proof {
                assert(events@.take((k + 1) as int).drop_last() =~~= events@.take(k as int));
                assert(events@.take((k + 1) as int).last() == events@[k as int]);
            }
            self.apply_one_event(&events[k], &mut invs);
            assert(self@ =~~= apply_events(m1, events@.take((k + 1) as int)).0);
            assert(invs@ =~~= base_ev + apply_events(m1, events@.take((k + 1) as int)).1);
            k = k + 1;
        }
        assert(events@.take(events@.len() as int) =~~= events@);
        let ghost m2 = self@;
        self.run_check_pass(&mut invs);
        self.run_close_pass(&mut invs);
        proof {
            let (sm, si) = tick_model(old(self)@, now_ms, events@);
            assert(self@ =~~= sm);
            assert(invs@ =~~= si);
        }
        invs
    }

    /// Runs the event loop against the supplied schedule of iteration
    /// inputs.  `Default` iterates while the loop stays alive, no stop is
    /// requested and batches remain; `Once` and `NoWait` take at most one
    /// batch.  Returns whether further iterations would still have work,
    /// and every callback invocation of the run, in order.  `run` is not
    /// reentrant: it must not be called from within a callback.
    pub fn run(&mut self, mode: RunMode, ticks: &Vec<Tick>) -> (r: (bool, Vec<Invocation>))
        ensures
            ({
                let (m2, i2) = run_model(old(self)@, mode, ticks@.map_values(|t: Tick| t@));
                final(self)@ =~~= m2 && r.1@ =~~= i2 && r.0 == m2.alive()
            }),
    {
        let ghost m0 = self@;
        let ghost tms = ticks@.map_values(|t: Tick| t@);
        let mut invs: Vec<Invocation> = Vec::new();
        if matches!(mode, RunMode::Default) {
            let mut k: usize = 0;
            let mut stopped = !self.is_alive() || self.stop_requested;
            proof {
                assert(tms.skip(0) =~~= tms);
                let (mf, iff) = run_model(m0, RunMode::Default, tms);
                assert(iff =~~= invs@ + iff);
            }
            while !stopped && k < ticks.len()
                invariant
                    k <= tms.len(),
                    tms == ticks@.map_values(|t: Tick| t@),
                    tms.len() == ticks@.len(),
                    stopped == (!self@.alive() || self@.stop_requested),
                    ({
                        let (mf, iff) = run_model(m0, RunMode::Default, tms);
                        let (mr, ir) = run_model(self@, RunMode::Default, tms.skip(k as int));
                        mf =~~= mr && iff =~~= invs@ + ir
                    }),
                decreases tms.len() - k,
            {
                proof {
                    assert(tms.skip(k as int)[0] == tms[k as int]);
                    assert(tms.skip(k as int).skip(1) =~~= tms.skip((k + 1) as int));
                    assert(tms.skip(k as int).len() == tms.len() - k);
                }
                let t = &ticks[k];
                let mut tick_invs = self.run_iteration(t.now, &t.events);
                invs.append(&mut tick_invs);
                k = k + 1;
                stopped = !self.is_alive() || self.stop_requested;
            }
            proof {
                if stopped || k == tms.len() {
                    assert(run_model(self@, RunMode::Default, tms.skip(k as int)).1
                        =~~= Seq::<Invocation>::empty());
                }
            }
        } else {
            if self.is_alive() && !self.stop_requested && ticks.len() > 0 {
                proof {
                    assert(tms[0] == ticks@[0]@);
                }
                let t = &ticks[0];
                let mut tick_invs = self.run_iteration(t.now, &t.events);
                invs.append(&mut tick_invs);
            }
        }
        self.stop_requested = false;
        let more = self.is_alive();
        proof {
            let (m2, i2) = run_model(m0, mode, tms);
            assert(self@ =~~= m2);
            assert(invs@ =~~= i2);
        }
        (more, invs)
    }
}

} // verus!

