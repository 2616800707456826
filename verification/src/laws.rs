//! The library's laws: proof functions stating, over the loop model, the
//! guarantees that hold across several operations — no payload leak on
//! create/close, stopped handles stay silent, idle fires before check with
//! equal counts, completion callbacks fire exactly once and in order, and
//! the accept and one-shot signal disciplines.

use vstd::prelude::*;
use crate::dispatch::{
    apply_event, apply_events, cancel_pass, check_fire, check_pass, close_pass, close_step,
    flush_event, idle_fire, idle_pass, signal_delivery, signal_step, tick_model, Event, Invocation,
};
use crate::event_loop::{outstanding_payloads, LoopModel};
use crate::handle::{HandleKind, HandleState, PayloadModel, SlotModel, WorkStage};
use crate::Error;

verus! {

// ---------------------------------------------------------------------------
// Predicates and counters over invocations.
// ---------------------------------------------------------------------------

/// The model is one of an actual loop: its tables fit in memory.
pub open spec fn bounded(m: LoopModel) -> bool {
    m.handles.len() <= usize::MAX && m.works.len() <= usize::MAX
}

/// Slot `i` is an idle handle that would fire this iteration.
pub open spec fn idle_armed(m: LoopModel, i: int) -> bool {
    0 <= i < m.handles.len() && m.handles[i].kind == HandleKind::Idle && m.handles[i].state
        == HandleState::Started && (m.handles[i].payload matches PayloadModel::IdleP {
        idle_cb: Some(_),
    })
}

/// Slot `c` is a check handle that would fire this iteration.
pub open spec fn check_armed(m: LoopModel, c: int) -> bool {
    0 <= c < m.handles.len() && m.handles[c].kind == HandleKind::Check && m.handles[c].state
        == HandleState::Started && (m.handles[c].payload matches PayloadModel::CheckP {
        check_cb: Some(_),
    })
}

/// Slot `h` is a started signal watcher for `signum` (with or without a
/// callback registered).
pub open spec fn signal_watching(m: LoopModel, h: int, signum: i32) -> bool {
    0 <= h < m.handles.len() && m.handles[h].kind == HandleKind::Signal && m.handles[h].state
        == HandleState::Started && (m.handles[h].payload matches PayloadModel::SignalP {
        signum: w,
        ..
    } && w == signum)
}

/// Slot `h` watches `signum` and would actually report a delivery.
pub open spec fn signal_notifies(m: LoopModel, h: int, signum: i32) -> bool {
    signal_watching(m, h, signum) && (m.handles[h].payload matches PayloadModel::SignalP {
        signal_cb: Some(_),
        ..
    })
}

/// A delivery of `signum` would disarm slot `h` (a one-shot watcher).
pub open spec fn signal_disarms(m: LoopModel, h: int, signum: i32) -> bool {
    signal_watching(m, h, signum) && (m.handles[h].payload matches PayloadModel::SignalP {
        oneshot: true,
        ..
    })
}

pub open spec fn is_idle_fire_for(inv: Invocation, h: int) -> bool {
    match inv {
        Invocation::IdleCallback { handle, .. } => handle.id as int == h,
        _ => false,
    }
}

pub open spec fn is_check_fire_for(inv: Invocation, c: int) -> bool {
    match inv {
        Invocation::CheckCallback { handle, .. } => handle.id as int == c,
        _ => false,
    }
}

pub open spec fn is_signal_fire_for(inv: Invocation, h: int) -> bool {
    match inv {
        Invocation::SignalCallback { handle, .. } => handle.id as int == h,
        _ => false,
    }
}

pub open spec fn is_after_work_for(inv: Invocation, r: int) -> bool {
    match inv {
        Invocation::AfterWorkCallback { req, .. } => req.id as int == r,
        _ => false,
    }
}

/// The invocation is a firing of handle `h`'s own registered callbacks: its
/// idle, check, signal, allocation, read or connection callback.  Close and
/// request completions are owed regardless and are not counted here.
pub open spec fn fires_for_handle(inv: Invocation, h: int) -> bool {
    match inv {
        Invocation::IdleCallback { handle, .. } => handle.id as int == h,
        Invocation::CheckCallback { handle, .. } => handle.id as int == h,
        Invocation::SignalCallback { handle, .. } => handle.id as int == h,
        Invocation::AllocCallback { handle, .. } => handle.id as int == h,
        Invocation::ReadCallback { handle, .. } => handle.id as int == h,
        Invocation::ConnectionCallback { handle, .. } => handle.id as int == h,
        _ => false,
    }
}

/// How many idle firings for handle `h` the sequence holds.
pub open spec fn count_idle_fires(invs: Seq<Invocation>, h: int) -> int
    decreases invs.len(),
{
    if invs.len() == 0 {
        0
    } else {
        count_idle_fires(invs.drop_last(), h) + if is_idle_fire_for(invs.last(), h) {
            1int
        } else {
            0int
        }
    }
}

/// How many check firings for handle `c` the sequence holds.
pub open spec fn count_check_fires(invs: Seq<Invocation>, c: int) -> int
    decreases invs.len(),
{
    if invs.len() == 0 {
        0
    } else {
        count_check_fires(invs.drop_last(), c) + if is_check_fire_for(invs.last(), c) {
            1int
        } else {
            0int
        }
    }
}

/// How many signal firings for handle `h` the sequence holds.
pub open spec fn count_signal_fires(invs: Seq<Invocation>, h: int) -> int
    decreases invs.len(),
{
    if invs.len() == 0 {
        0
    } else {
        count_signal_fires(invs.drop_last(), h) + if is_signal_fire_for(invs.last(), h) {
            1int
        } else {
            0int
        }
    }
}

/// How many work completions for request `r` the sequence holds.
pub open spec fn count_after_work(invs: Seq<Invocation>, r: int) -> int
    decreases invs.len(),
{
    if invs.len() == 0 {
        0
    } else {
        count_after_work(invs.drop_last(), r) + if is_after_work_for(invs.last(), r) {
            1int
        } else {
            0int
        }
    }
}

pub proof fn lemma_count_idle_append(a: Seq<Invocation>, b: Seq<Invocation>, h: int)
    ensures
        count_idle_fires(a + b, h) == count_idle_fires(a, h) + count_idle_fires(b, h),
    decreases b.len(),
{
    if b.len() == 0 {
        assert(a + b =~= a);
    } else {
        lemma_count_idle_append(a, b.drop_last(), h);
        assert((a + b).drop_last() =~= a + b.drop_last());
    }
}

pub proof fn lemma_count_check_append(a: Seq<Invocation>, b: Seq<Invocation>, c: int)
    ensures
        count_check_fires(a + b, c) == count_check_fires(a, c) + count_check_fires(b, c),
    decreases b.len(),
{
    if b.len() == 0 {
        assert(a + b =~= a);
    } else {
        lemma_count_check_append(a, b.drop_last(), c);
        assert((a + b).drop_last() =~= a + b.drop_last());
    }
}

pub proof fn lemma_count_signal_append(a: Seq<Invocation>, b: Seq<Invocation>, h: int)
    ensures
        count_signal_fires(a + b, h) == count_signal_fires(a, h) + count_signal_fires(b, h),
    decreases b.len(),
{
    if b.len() == 0 {
        assert(a + b =~= a);
    } else {
        lemma_count_signal_append(a, b.drop_last(), h);
        assert((a + b).drop_last() =~= a + b.drop_last());
    }
}

pub proof fn lemma_count_after_work_append(a: Seq<Invocation>, b: Seq<Invocation>, r: int)
    ensures
        count_after_work(a + b, r) == count_after_work(a, r) + count_after_work(b, r),
    decreases b.len(),
{
    if b.len() == 0 {
        assert(a + b =~= a);
    } else {
        lemma_count_after_work_append(a, b.drop_last(), r);
        assert((a + b).drop_last() =~= a + b.drop_last());
    }
}

// ---------------------------------------------------------------------------
// What each phase of an iteration emits and touches.
// ---------------------------------------------------------------------------

/// The idle pass emits exactly one firing per armed idle handle, and
/// nothing else.
pub proof fn lemma_idle_pass_count(m: LoopModel, n: int, h: int)
    requires
        bounded(m),
    ensures
        count_idle_fires(idle_pass(m, n), h) == if 0 <= h < n && idle_armed(m, h) {
            1int
        } else {
            0int
        },
    decreases n,
{
    if n <= 0 {
    } else {
        lemma_idle_pass_count(m, n - 1, h);
        lemma_count_idle_append(idle_pass(m, n - 1), idle_fire(m, n - 1), h);
        lemma_count_zero_or_one_fire(m, n - 1, h);
    }
}

proof fn lemma_count_zero_or_one_fire(m: LoopModel, i: int, h: int)
    requires
        bounded(m),
    ensures
        count_idle_fires(idle_fire(m, i), h) == if i == h && idle_armed(m, h) {
            1int
        } else {
            0int
        },
{
    let fire = idle_fire(m, i);
    assert(count_idle_fires(Seq::<Invocation>::empty(), h) == 0);
    if fire.len() > 0 {
        assert(fire.drop_last() =~= Seq::<Invocation>::empty());
    }
}

/// Every invocation of the idle pass is an idle callback.
pub proof fn lemma_idle_pass_shape(m: LoopModel, n: int)
    ensures
        forall|x: int|
            0 <= x < idle_pass(m, n).len() ==> (#[trigger] idle_pass(m, n)[x]) is IdleCallback,
    decreases n,
{
    if n > 0 {
        lemma_idle_pass_shape(m, n - 1);
        assert forall|x: int|
            0 <= x < idle_pass(m, n).len() implies (#[trigger] idle_pass(m, n)[x]) is IdleCallback by {
            if x < idle_pass(m, n - 1).len() {
                assert(idle_pass(m, n)[x] == idle_pass(m, n - 1)[x]);
            }
        }
    }
}

/// The check pass emits exactly one firing per armed check handle.
pub proof fn lemma_check_pass_count(m: LoopModel, n: int, c: int)
    requires
        bounded(m),
    ensures
        count_check_fires(check_pass(m, n), c) == if 0 <= c < n && check_armed(m, c) {
            1int
        } else {
            0int
        },
    decreases n,
{
    if n <= 0 {
    } else {
        lemma_check_pass_count(m, n - 1, c);
        lemma_count_check_append(check_pass(m, n - 1), check_fire(m, n - 1), c);
        let fire = check_fire(m, n - 1);
        assert(count_check_fires(Seq::<Invocation>::empty(), c) == 0);
        if fire.len() > 0 {
            assert(fire.drop_last() =~= Seq::<Invocation>::empty());
        }
    }
}

/// Every invocation of the check pass is a check callback.
pub proof fn lemma_check_pass_shape(m: LoopModel, n: int)
    ensures
        forall|x: int|
            0 <= x < check_pass(m, n).len() ==> (#[trigger] check_pass(m, n)[x]) is CheckCallback,
    decreases n,
{
    if n > 0 {
        lemma_check_pass_shape(m, n - 1);
        assert forall|x: int|
            0 <= x < check_pass(m, n).len() implies (#[trigger] check_pass(m, n)[
            x
        ]) is CheckCallback by {
            if x < check_pass(m, n - 1).len() {
                assert(check_pass(m, n)[x] == check_pass(m, n - 1)[x]);
            }
        }
    }
}

/// The cancelled-work pass leaves every handle slot alone and emits only
/// work completion callbacks.
pub proof fn lemma_cancel_pass_effect(m: LoopModel, n: int)
    ensures
        ({
            let (m2, invs) = cancel_pass(m, n);
            &&& m2.handles == m.handles
            &&& m2.works.len() == m.works.len()
            &&& m2.time == m.time
            &&& m2.stop_requested == m.stop_requested
            &&& m2.closed == m.closed
            &&& forall|x: int| 0 <= x < invs.len() ==> (#[trigger] invs[x]) is AfterWorkCallback
        }),
    decreases n,
{
    if n > 0 {
        lemma_cancel_pass_effect(m, n - 1);
        let (m1, invs1) = cancel_pass(m, n - 1);
        let (m2, invs2) = cancel_pass(m, n);
        assert forall|x: int| 0 <= x < invs2.len() implies (#[trigger] invs2[
            x
        ]) is AfterWorkCallback by {
            if x < invs1.len() {
                assert(invs2[x] == invs1[x]);
            }
        }
    }
}

/// Delivering one signal touches exactly the one-shot watchers of that
/// number (disarming them), leaves every other slot and all works alone,
/// and emits only signal callbacks.
pub proof fn lemma_signal_delivery_effect(m: LoopModel, signum: i32, n: int)
    requires
        n <= m.handles.len(),
    ensures
        ({
            let (m2, invs) = signal_delivery(m, signum, n);
            &&& m2.handles.len() == m.handles.len()
            &&& m2.works == m.works
            &&& m2.time == m.time
            &&& m2.stop_requested == m.stop_requested
            &&& m2.closed == m.closed
            &&& forall|j: int| n <= j < m.handles.len() ==> m2.handles[j] == m.handles[j]
            &&& forall|j: int|
                0 <= j < n ==> m2.handles[j] == if signal_disarms(m, j, signum) {
                    SlotModel { state: HandleState::Stopped, ..m.handles[j] }
                } else {
                    m.handles[j]
                }
            &&& forall|x: int| 0 <= x < invs.len() ==> (#[trigger] invs[x]) is SignalCallback
        }),
    decreases n,
{
    if n > 0 {
        lemma_signal_delivery_effect(m, signum, n - 1);
        let (m1, invs1) = signal_delivery(m, signum, n - 1);
        let (m2, invs2) = signal_delivery(m, signum, n);
        assert(m1.handles[n - 1] == m.handles[n - 1]);
        assert forall|x: int| 0 <= x < invs2.len() implies (#[trigger] invs2[
            x
        ]) is SignalCallback by {
            if x < invs1.len() {
                assert(invs2[x] == invs1[x]);
            }
        }
        assert forall|j: int|
            0 <= j < n implies signal_delivery(m, signum, n).0.handles[j] == (
        if signal_disarms(m, j, signum) {
            SlotModel { state: HandleState::Stopped, ..m.handles[j] }
        } else {
            m.handles[j]
        }) by {
            if j < n - 1 {
                assert(m2.handles[j] == m1.handles[j]);
            }
        }
    }
}

/// Delivering one signal fires exactly one callback for each watcher of
/// that number with a registered callback.
pub proof fn lemma_signal_delivery_count(m: LoopModel, signum: i32, n: int, h: int)
    requires
        bounded(m),
        n <= m.handles.len(),
    ensures
        count_signal_fires(signal_delivery(m, signum, n).1, h) == if 0 <= h < n
            && signal_notifies(m, h, signum) {
            1int
        } else {
            0int
        },
    decreases n,
{
    if n <= 0 {
    } else {
        lemma_signal_delivery_count(m, signum, n - 1, h);
        lemma_signal_delivery_effect(m, signum, n - 1);
        let (m1, invs1) = signal_delivery(m, signum, n - 1);
        let (ms, invs2) = signal_step(m1, signum, n - 1);
        assert(m1.handles[n - 1] == m.handles[n - 1]);
        lemma_count_signal_append(invs1, invs2, h);
        assert(count_signal_fires(Seq::<Invocation>::empty(), h) == 0);
        if invs2.len() > 0 {
            assert(invs2.drop_last() =~= Seq::<Invocation>::empty());
        }
    }
}


/// Specialized zero-count helpers: a sequence without firings of a shape
/// counts zero for it.
pub proof fn lemma_count_idle_zero(invs: Seq<Invocation>, h: int)
    requires
        forall|x: int| 0 <= x < invs.len() ==> !((#[trigger] invs[x]) is IdleCallback),
    ensures
        count_idle_fires(invs, h) == 0,
    decreases invs.len(),
{
    if invs.len() > 0 {
        lemma_count_idle_zero(invs.drop_last(), h);
    }
}

pub proof fn lemma_count_check_zero(invs: Seq<Invocation>, c: int)
    requires
        forall|x: int| 0 <= x < invs.len() ==> !((#[trigger] invs[x]) is CheckCallback),
    ensures
        count_check_fires(invs, c) == 0,
    decreases invs.len(),
{
    if invs.len() > 0 {
        lemma_count_check_zero(invs.drop_last(), c);
    }
}

pub proof fn lemma_count_signal_zero(invs: Seq<Invocation>, h: int)
    requires
        forall|x: int| 0 <= x < invs.len() ==> !((#[trigger] invs[x]) is SignalCallback),
    ensures
        count_signal_fires(invs, h) == 0,
    decreases invs.len(),
{
    if invs.len() > 0 {
        lemma_count_signal_zero(invs.drop_last(), h);
    }
}

pub proof fn lemma_count_after_work_zero(invs: Seq<Invocation>, r: int)
    requires
        forall|x: int| 0 <= x < invs.len() ==> !((#[trigger] invs[x]) is AfterWorkCallback),
    ensures
        count_after_work(invs, r) == 0,
    decreases invs.len(),
{
    if invs.len() > 0 {
        lemma_count_after_work_zero(invs.drop_last(), r);
    }
}

/// Cancellation and completion invocations for writes are write callbacks,
/// nothing else.
pub proof fn lemma_cancelled_write_invs_shape(q: Seq<crate::handle::WriteModel>, sid: int)
    ensures
        forall|x: int|
            0 <= x < crate::dispatch::cancelled_write_invs(q, sid).len() ==> (
            #[trigger] crate::dispatch::cancelled_write_invs(q, sid)[x]) is WriteCallback,
    decreases q.len(),
{
    let invs = crate::dispatch::cancelled_write_invs(q, sid);
    if q.len() > 0 {
        lemma_cancelled_write_invs_shape(q.drop_last(), sid);
        let prev = crate::dispatch::cancelled_write_invs(q.drop_last(), sid);
        assert forall|x: int| 0 <= x < invs.len() implies (#[trigger] invs[x]) is WriteCallback by {
            if x < prev.len() {
                assert(invs[x] == prev[x]);
            }
        }
    }
}

pub proof fn lemma_write_completion_invs_shape(q: Seq<crate::handle::WriteModel>, sid: int)
    ensures
        forall|x: int|
            0 <= x < crate::dispatch::write_completion_invs(q, sid).len() ==> (
            #[trigger] crate::dispatch::write_completion_invs(q, sid)[x]) is WriteCallback,
    decreases q.len(),
{
    let invs = crate::dispatch::write_completion_invs(q, sid);
    if q.len() > 0 {
        lemma_write_completion_invs_shape(q.drop_last(), sid);
        let prev = crate::dispatch::write_completion_invs(q.drop_last(), sid);
        assert forall|x: int| 0 <= x < invs.len() implies (#[trigger] invs[x]) is WriteCallback by {
            if x < prev.len() {
                assert(invs[x] == prev[x]);
            }
        }
    }
}

/// The destroyed form of a closing slot.
pub open spec fn destroyed_slot(s: SlotModel) -> SlotModel {
    SlotModel { state: HandleState::Destroyed, payload: PayloadModel::FreedP, ..s }
}

/// The close pass destroys exactly the closing slots, leaves everything
/// else (including all works) alone, and emits only write, shutdown and
/// close callbacks.
pub proof fn lemma_close_pass_effect(m: LoopModel, n: int)
    requires
        n <= m.handles.len(),
    ensures
        ({
            let (m2, invs) = close_pass(m, n);
            &&& m2.handles.len() == m.handles.len()
            &&& m2.works == m.works
            &&& m2.time == m.time
            &&& m2.stop_requested == m.stop_requested
            &&& m2.closed == m.closed
            &&& forall|j: int| n <= j < m.handles.len() ==> m2.handles[j] == m.handles[j]
            &&& forall|j: int|
                0 <= j < n ==> m2.handles[j] == if m.handles[j].state == HandleState::Closing {
                    destroyed_slot(m.handles[j])
                } else {
                    m.handles[j]
                }
            &&& forall|x: int|
                0 <= x < invs.len() ==> ((#[trigger] invs[x]) is WriteCallback || invs[
                    x
                ] is ShutdownCallback || invs[x] is CloseCallback)
        }),
    decreases n,
{
    if n > 0 {
        lemma_close_pass_effect(m, n - 1);
        let (m1, invs1) = close_pass(m, n - 1);
        let (m2, invs2) = close_pass(m, n);
        assert(m1.handles[n - 1] == m.handles[n - 1]);
        let (ms, step_invs) = close_step(m1, n - 1);
        if m1.handles[n - 1].state == HandleState::Closing {
            lemma_cancelled_write_invs_shape(
                match m1.handles[n - 1].payload {
                    PayloadModel::StreamP(d) => d.write_queue,
                    _ => Seq::empty(),
                },
                n - 1,
            );
            assert forall|x: int|
                0 <= x < step_invs.len() implies ((#[trigger] step_invs[x]) is WriteCallback
                || step_invs[x] is ShutdownCallback || step_invs[x] is CloseCallback) by {
                let creq = crate::dispatch::cancelled_req_invs(m1.handles[n - 1], n - 1);
                if x < creq.len() {
                    assert(step_invs[x] == creq[x]);
                    match m1.handles[n - 1].payload {
                        PayloadModel::StreamP(d) => {
                            let cw = crate::dispatch::cancelled_write_invs(d.write_queue, n - 1);
                            if x < cw.len() {
                                assert(creq[x] == cw[x]);
                            }
                        },
                        _ => {},
                    }
                }
            }
        }
        assert forall|x: int|
            0 <= x < invs2.len() implies ((#[trigger] invs2[x]) is WriteCallback || invs2[
            x
        ] is ShutdownCallback || invs2[x] is CloseCallback) by {
            if x < invs1.len() {
                assert(invs2[x] == invs1[x]);
            } else {
                assert(invs2[x] == step_invs[x - invs1.len()]);
            }
        }
        assert forall|j: int|
            0 <= j < n implies close_pass(m, n).0.handles[j] == (
        if m.handles[j].state == HandleState::Closing {
            destroyed_slot(m.handles[j])
        } else {
            m.handles[j]
        }) by {
            if j < n - 1 {
                assert(m2.handles[j] == m1.handles[j]);
            }
        }
    }
}

// ---------------------------------------------------------------------------
// Counting attached payload store entries.
// ---------------------------------------------------------------------------

pub proof fn lemma_outstanding_push(a: Seq<SlotModel>, s: SlotModel)
    ensures
        outstanding_payloads(a.push(s)) == outstanding_payloads(a) + if s.payload is FreedP {
            0int
        } else {
            1int
        },
{
    assert(a.push(s).drop_last() =~= a);
    assert(a.push(s).last() == s);
}

/// Payload attachment is what counts: two tables whose entries agree on
/// being freed have the same count.
pub proof fn lemma_outstanding_congruent(a: Seq<SlotModel>, b: Seq<SlotModel>)
    requires
        a.len() == b.len(),
        forall|i: int|
            0 <= i < a.len() ==> ((#[trigger] a[i]).payload is FreedP <==> (
            #[trigger] b[i]).payload is FreedP),
    ensures
        outstanding_payloads(a) == outstanding_payloads(b),
    decreases a.len(),
{
    if a.len() > 0 {
        lemma_outstanding_congruent(a.drop_last(), b.drop_last());
    }
}

/// Freeing entries can only lower the count.
pub proof fn lemma_outstanding_le(a: Seq<SlotModel>, b: Seq<SlotModel>)
    requires
        a.len() == b.len(),
        forall|i: int|
            0 <= i < a.len() ==> ((#[trigger] b[i]) == a[i] || b[i].payload is FreedP),
    ensures
        outstanding_payloads(b) <= outstanding_payloads(a),
    decreases a.len(),
{
    if a.len() > 0 {
        lemma_outstanding_le(a.drop_last(), b.drop_last());
    }
}

/// Freeing at least one attached entry lowers the count by at least one.
pub proof fn lemma_outstanding_drop_at(a: Seq<SlotModel>, b: Seq<SlotModel>, k: int)
    requires
        a.len() == b.len(),
        forall|i: int|
            0 <= i < a.len() ==> ((#[trigger] b[i]) == a[i] || b[i].payload is FreedP),
        0 <= k < a.len(),
        !(a[k].payload is FreedP),
        b[k].payload is FreedP,
    ensures
        outstanding_payloads(b) <= outstanding_payloads(a) - 1,
    decreases a.len(),
{
    if k == a.len() - 1 {
        lemma_outstanding_le(a.drop_last(), b.drop_last());
    } else {
        lemma_outstanding_drop_at(a.drop_last(), b.drop_last(), k);
    }
}

// ---------------------------------------------------------------------------
// No leak on create and close, for every handle kind.
// ---------------------------------------------------------------------------

/// The fresh slot each kind's constructor appends.
pub open spec fn fresh_slot_for(m: LoopModel, kind: HandleKind) -> SlotModel {
    match kind {
        HandleKind::Check => crate::check::check_new_model(m).handles.last(),
        HandleKind::Idle => crate::idle::idle_new_model(m).handles.last(),
        HandleKind::Signal => crate::signal::signal_new_model(m).handles.last(),
        HandleKind::Stream => crate::stream::stream_new_model(m).handles.last(),
    }
}

/// The model after creating one handle of the given kind.
pub open spec fn new_handle_model(m: LoopModel, kind: HandleKind) -> LoopModel {
    match kind {
        HandleKind::Check => crate::check::check_new_model(m),
        HandleKind::Idle => crate::idle::idle_new_model(m),
        HandleKind::Signal => crate::signal::signal_new_model(m),
        HandleKind::Stream => crate::stream::stream_new_model(m),
    }
}

/// For every handle kind: creating a handle and closing it at once, without
/// ever starting it, succeeds, and after the iteration that processes the
/// close the handle is destroyed, its payload store entry is freed, and no
/// more entries are outstanding than before the handle existed — no leak.
pub proof fn lemma_create_close_no_leak(
    m: LoopModel,
    kind: HandleKind,
    cb: Option<u64>,
    now: u64,
)
    requires
        !m.closed,
        bounded(m),
        m.handles.len() < usize::MAX,
    ensures
        ({
            let m1 = new_handle_model(m, kind);
            let h = crate::handle::Handle { id: m.handles.len() as usize, kind };
            &&& crate::event_loop::handle_op_outcome(m1, h) == Ok::<(), Error>(())
            &&& ({
                let m2 = crate::event_loop::close_handle_model(m1, h, cb);
                let (m3, invs) = tick_model(m2, now, Seq::empty());
                &&& m3.handles[h.id as int].state == HandleState::Destroyed
                &&& m3.handles[h.id as int].payload is FreedP
                &&& outstanding_payloads(m3.handles) <= outstanding_payloads(m.handles)
            })
        }),
{
    let m1 = new_handle_model(m, kind);
    let h = crate::handle::Handle { id: m.handles.len() as usize, kind };
    let hid = h.id as int;
    let m2 = crate::event_loop::close_handle_model(m1, h, cb);
    let (m3, invs) = tick_model(m2, now, Seq::empty());
    let mt = LoopModel { time: if now > m2.time { now } else { m2.time }, ..m2 };
    lemma_cancel_pass_effect(mt, mt.works.len() as int);
    let (mc, cinvs) = cancel_pass(mt, mt.works.len() as int);
    assert(apply_events(mc, Seq::empty()).0 == mc);
    lemma_close_pass_effect(mc, mc.handles.len() as int);
    let (mz, zinvs) = close_pass(mc, mc.handles.len() as int);
    assert(mc.handles == m2.handles);
    assert(m2.handles[hid].state == HandleState::Closing);
    assert(mz.handles[hid] == destroyed_slot(m2.handles[hid]));
    assert(m3.handles == mz.handles);
    lemma_outstanding_push(m.handles, fresh_slot_for(m, kind));
    assert(m1.handles =~= m.handles.push(fresh_slot_for(m, kind)));
    lemma_outstanding_congruent(m1.handles, m2.handles);
    assert(!(m2.handles[hid].payload is FreedP));
    assert forall|i: int|
        0 <= i < m2.handles.len() implies ((#[trigger] mz.handles[i]) == m2.handles[i]
        || mz.handles[i].payload is FreedP) by {
        if m2.handles[i].state == HandleState::Closing {
            assert(mz.handles[i] == destroyed_slot(m2.handles[i]));
        }
    }
    lemma_outstanding_drop_at(m2.handles, mz.handles, hid);
}


// ---------------------------------------------------------------------------
// Accept discipline.
// ---------------------------------------------------------------------------

/// One incoming connection allows exactly one accept: after the connection
/// event a first `accept` succeeds, and a second `accept` for the same
/// connection-callback firing, without a new connection, fails — it does
/// not silently succeed.
pub proof fn lemma_accept_discipline(m: LoopModel, srv: int, cl: int, cl2: int, status: i32)
    requires
        bounded(m),
        !m.closed,
        crate::stream::is_stream_slot(m, srv),
        m.handles[srv].state == HandleState::Started,
        crate::stream::stream_data_of(m, srv).listening,
        crate::stream::stream_data_of(m, srv).pending_connections == 0,
        crate::stream::stream_data_of(m, srv).backlog >= 1,
        crate::stream::is_stream_slot(m, cl),
        crate::stream::is_stream_slot(m, cl2),
        cl != srv,
        cl2 != srv,
        cl2 != cl,
        m.handles[cl].state == HandleState::Initialized,
        !crate::stream::stream_data_of(m, cl).readable,
        !crate::stream::stream_data_of(m, cl).writable,
        m.handles[cl2].state == HandleState::Initialized,
        !crate::stream::stream_data_of(m, cl2).readable,
        !crate::stream::stream_data_of(m, cl2).writable,
    ensures
        ({
            let (m1, invs) = crate::dispatch::connection_event(m, srv, status);
            &&& crate::stream::stream_data_of(m1, srv).pending_connections == 1
            &&& crate::stream::accept_outcome(m1, srv, cl) == Ok::<(), Error>(())
            &&& ({
                let m2 = crate::stream::accept_model(m1, srv, cl);
                crate::stream::accept_outcome(m2, srv, cl2) == Err::<(), Error>(
                    Error::NoPendingConnection,
                )
            })
        }),
{
    let (m1, invs) = crate::dispatch::connection_event(m, srv, status);
    assert(m1.handles[cl] == m.handles[cl]);
    assert(m1.handles[cl2] == m.handles[cl2]);
    let m2 = crate::stream::accept_model(m1, srv, cl);
    assert(m2.handles[cl2] == m.handles[cl2]);
    assert(crate::stream::stream_data_of(m2, srv).pending_connections == 0);
}

// ---------------------------------------------------------------------------
// One-shot signal discipline.
// ---------------------------------------------------------------------------

/// A one-shot watcher fires exactly once: delivering its signal twice
/// results in one callback firing, and the handle is then disarmed until it
/// is started again.
pub proof fn lemma_signal_oneshot(m: LoopModel, h: int, signum: i32)
    requires
        bounded(m),
        signal_notifies(m, h, signum),
        signal_disarms(m, h, signum),
    ensures
        ({
            let (m1, i1) = apply_event(m, Event::SignalDelivered { signum });
            let (m2, i2) = apply_event(m1, Event::SignalDelivered { signum });
            &&& count_signal_fires(i1, h) == 1
            &&& count_signal_fires(i2, h) == 0
            &&& m2.handles[h].state == HandleState::Stopped
        }),
{
    let n = m.handles.len() as int;
    lemma_signal_delivery_count(m, signum, n, h);
    lemma_signal_delivery_effect(m, signum, n);
    let (m1, i1) = signal_delivery(m, signum, n);
    assert(m1.handles[h] == (SlotModel { state: HandleState::Stopped, ..m.handles[h] }));
    lemma_signal_delivery_count(m1, signum, m1.handles.len() as int, h);
    lemma_signal_delivery_effect(m1, signum, m1.handles.len() as int);
    assert(!signal_notifies(m1, h, signum));
    assert(!signal_disarms(m1, h, signum));
}

// ---------------------------------------------------------------------------
// Write ordering.
// ---------------------------------------------------------------------------

/// Writes complete strictly in submission order: queueing W1 then W2 on one
/// stream and flushing both produces W1's completion before W2's, and the
/// transport receives W1's bytes entirely before W2's.
pub proof fn lemma_write_ordering(
    m: LoopModel,
    sid: int,
    b1: Seq<u8>,
    b2: Seq<u8>,
    t1: u64,
    t2: u64,
)
    requires
        bounded(m),
        crate::stream::write_outcome(m, sid) is Ok,
        crate::stream::stream_data_of(m, sid).write_queue.len() == 0,
        crate::stream::stream_data_of(m, sid).next_req_id + 1 < u64::MAX,
    ensures
        ({
            let d = crate::stream::stream_data_of(m, sid);
            let ma = crate::stream::write_model(m, sid, b1, Some(t1));
            let mb = crate::stream::write_model(ma, sid, b2, Some(t2));
            let r1 = crate::stream::WriteReq { stream: sid as usize, id: d.next_req_id };
            let r2 = crate::stream::WriteReq {
                stream: sid as usize,
                id: (d.next_req_id + 1) as u64,
            };
            &&& crate::stream::write_outcome(ma, sid) == Ok::<crate::stream::WriteReq, Error>(r2)
            &&& ({
                let (mc, invs) = flush_event(mb, sid, 2);
                &&& invs =~= seq![
                    Invocation::WriteCallback { cb: t1, req: r1, status: Ok(()) },
                    Invocation::WriteCallback { cb: t2, req: r2, status: Ok(()) },
                ]
                &&& crate::stream::stream_data_of(mc, sid).sent =~= d.sent + b1 + b2
                &&& crate::stream::stream_data_of(mc, sid).write_queue.len() == 0
            })
        }),
{
    let d = crate::stream::stream_data_of(m, sid);
    let w1 = crate::handle::WriteModel { id: d.next_req_id, bytes: b1, cb: Some(t1) };
    let w2 = crate::handle::WriteModel {
        id: (d.next_req_id + 1) as u64,
        bytes: b2,
        cb: Some(t2),
    };
    let ma = crate::stream::write_model(m, sid, b1, Some(t1));
    let mb = crate::stream::write_model(ma, sid, b2, Some(t2));
    let q = crate::stream::stream_data_of(mb, sid).write_queue;
    assert(q =~= seq![w1, w2]);
    let (mc, invs) = flush_event(mb, sid, 2);
    let done = q.take(2);
    assert(done =~= q);
    assert(q.skip(2) =~= Seq::<crate::handle::WriteModel>::empty());
    assert(q.drop_last() =~= seq![w1]);
    assert(seq![w1].drop_last() =~= Seq::<crate::handle::WriteModel>::empty());
    assert(crate::dispatch::write_completion_invs(
        Seq::<crate::handle::WriteModel>::empty(),
        sid,
    ) =~= Seq::<Invocation>::empty());
    assert(crate::dispatch::write_completion_invs(seq![w1], sid) =~= seq![
        Invocation::WriteCallback {
            cb: t1,
            req: crate::stream::WriteReq { stream: sid as usize, id: d.next_req_id },
            status: Ok(()),
        },
    ]);
    assert(crate::dispatch::write_completion_invs(q, sid) =~= seq![
        Invocation::WriteCallback {
            cb: t1,
            req: crate::stream::WriteReq { stream: sid as usize, id: d.next_req_id },
            status: Ok(()),
        },
        Invocation::WriteCallback {
            cb: t2,
            req: crate::stream::WriteReq {
                stream: sid as usize,
                id: (d.next_req_id + 1) as u64,
            },
            status: Ok(()),
        },
    ]);
    assert(crate::dispatch::flushed_bytes(Seq::<crate::handle::WriteModel>::empty())
        =~= Seq::<u8>::empty());
    assert(crate::dispatch::flushed_bytes(seq![w1]) =~= b1);
    assert(crate::dispatch::flushed_bytes(q) =~= b1 + b2);
    assert(crate::stream::stream_data_of(mc, sid).sent =~= d.sent + b1 + b2);
}


// ---------------------------------------------------------------------------
// Idle before check, with equal firing counts.
// ---------------------------------------------------------------------------

/// Backend events never touch an idle or check handle's slot, and never
/// emit idle or check callbacks: those fire only in their own passes.
pub proof fn lemma_apply_event_watcher(m: LoopModel, ev: Event, j: int)
    requires
        0 <= j < m.handles.len(),
        m.handles[j].kind == HandleKind::Idle || m.handles[j].kind == HandleKind::Check,
    ensures
        ({
            let (m2, invs) = apply_event(m, ev);
            &&& m2.handles.len() == m.handles.len()
            &&& m2.works.len() == m.works.len()
            &&& m2.handles[j] == m.handles[j]
            &&& forall|x: int|
                0 <= x < invs.len() ==> !((#[trigger] invs[x]) is IdleCallback) && !(invs[
                    x
                ] is CheckCallback)
        }),
{
    let (m2, invs) = apply_event(m, ev);
    match ev {
        Event::SignalDelivered { signum } => {
            lemma_signal_delivery_effect(m, signum, m.handles.len() as int);
            assert(!signal_disarms(m, j, signum));
        },
        Event::ConnectionArrived { stream, status } => {},
        Event::DataArrived { stream, nread } => {
            let sid = stream.id as int;
            let (mm, ii) = crate::dispatch::data_event(m, sid, nread);
            assert forall|x: int|
                0 <= x < ii.len() implies !((#[trigger] ii[x]) is IdleCallback) && !(ii[
                x
            ] is CheckCallback) by {}
        },
        Event::WritesFlushed { stream, count } => {
            let sid = stream.id as int;
            let (mm, ii) = flush_event(m, sid, count as int);
            if crate::stream::is_stream_slot(m, sid) && m.handles[sid].state
                != HandleState::Closing && m.handles[sid].state != HandleState::Destroyed {
                let d = crate::stream::stream_data_of(m, sid);
                let n = if (count as int) < d.write_queue.len() {
                    count as int
                } else {
                    d.write_queue.len() as int
                };
                lemma_write_completion_invs_shape(d.write_queue.take(n), sid);
                assert forall|x: int|
                    0 <= x < ii.len() implies !((#[trigger] ii[x]) is IdleCallback) && !(ii[
                    x
                ] is CheckCallback) by {
                    let wc = crate::dispatch::write_completion_invs(d.write_queue.take(n), sid);
                    if x < wc.len() {
                        assert(ii[x] == wc[x]);
                    }
                }
            }
        },
        Event::WorkStarted { req } => {},
        Event::WorkFinished { req, status } => {},
    }
}

/// The same, over a whole batch of events.
pub proof fn lemma_apply_events_watcher(m: LoopModel, evs: Seq<Event>, j: int)
    requires
        0 <= j < m.handles.len(),
        m.handles[j].kind == HandleKind::Idle || m.handles[j].kind == HandleKind::Check,
    ensures
        ({
            let (m2, invs) = apply_events(m, evs);
            &&& m2.handles.len() == m.handles.len()
            &&& m2.works.len() == m.works.len()
            &&& m2.handles[j] == m.handles[j]
            &&& forall|x: int|
                0 <= x < invs.len() ==> !((#[trigger] invs[x]) is IdleCallback) && !(invs[
                    x
                ] is CheckCallback)
        }),
    decreases evs.len(),
{
    if evs.len() > 0 {
        lemma_apply_events_watcher(m, evs.drop_last(), j);
        let (m1, invs1) = apply_events(m, evs.drop_last());
        lemma_apply_event_watcher(m1, evs.last(), j);
        let (m2, invs2) = apply_event(m1, evs.last());
        assert forall|x: int|
            0 <= x < (invs1 + invs2).len() implies !((#[trigger] (invs1 + invs2)[
            x
        ]) is IdleCallback) && !((invs1 + invs2)[x] is CheckCallback) by {
            if x < invs1.len() {
                assert((invs1 + invs2)[x] == invs1[x]);
            } else {
                assert((invs1 + invs2)[x] == invs2[x - invs1.len()]);
            }
        }
    }
}

/// The ordering law of one iteration: with an idle handle `i` and a check
/// handle `c` both armed, each fires exactly once, every firing of `i`
/// comes strictly before every firing of `c`, and both stay armed for the
/// next iteration.
pub proof fn lemma_idle_before_check(m: LoopModel, now: u64, evs: Seq<Event>, i: int, c: int)
    requires
        bounded(m),
        idle_armed(m, i),
        check_armed(m, c),
    ensures
        ({
            let (m2, invs) = tick_model(m, now, evs);
            &&& idle_armed(m2, i)
            &&& check_armed(m2, c)
            &&& count_idle_fires(invs, i) == 1
            &&& count_check_fires(invs, c) == 1
            &&& forall|x: int, y: int|
                0 <= x < invs.len() && 0 <= y < invs.len() && is_idle_fire_for(
                    #[trigger] invs[x],
                    i,
                ) && is_check_fire_for(#[trigger] invs[y], c) ==> x < y
        }),
{
    let mt = LoopModel { time: if now > m.time { now } else { m.time }, ..m };
    let a = idle_pass(mt, mt.handles.len() as int);
    lemma_cancel_pass_effect(mt, mt.works.len() as int);
    let (m1, b) = cancel_pass(mt, mt.works.len() as int);
    lemma_apply_events_watcher(m1, evs, i);
    lemma_apply_events_watcher(m1, evs, c);
    let (m2e, cc) = apply_events(m1, evs);
    let d = check_pass(m2e, m2e.handles.len() as int);
    lemma_close_pass_effect(m2e, m2e.handles.len() as int);
    let (m3, e) = close_pass(m2e, m2e.handles.len() as int);
    let (mfin, invs) = tick_model(m, now, evs);
    assert(mfin == m3);
    assert(invs =~= a + b + cc + d + e);

    // Armed watchers stay armed: no phase touches a started idle or check
    // slot.
    assert(m2e.handles[i] == mt.handles[i]);
    assert(m2e.handles[c] == mt.handles[c]);
    assert(m3.handles[i] == m2e.handles[i]);
    assert(m3.handles[c] == m2e.handles[c]);

    // Counts: exactly one firing each, from the two passes.
    lemma_idle_pass_count(mt, mt.handles.len() as int, i);
    assert(bounded(m2e));
    lemma_check_pass_count(m2e, m2e.handles.len() as int, c);
    assert(check_armed(m2e, c));
    lemma_check_pass_shape(m2e, m2e.handles.len() as int);
    lemma_idle_pass_shape(mt, mt.handles.len() as int);
    lemma_count_idle_zero(b, i);
    lemma_count_idle_zero(cc, i);
    lemma_count_idle_zero(d, i);
    lemma_count_idle_zero(e, i);
    lemma_count_check_zero(a, c);
    lemma_count_check_zero(b, c);
    lemma_count_check_zero(cc, c);
    lemma_count_check_zero(e, c);
    lemma_count_idle_append(a, b, i);
    lemma_count_idle_append(a + b, cc, i);
    lemma_count_idle_append(a + b + cc, d, i);
    lemma_count_idle_append(a + b + cc + d, e, i);
    lemma_count_check_append(a, b, c);
    lemma_count_check_append(a + b, cc, c);
    lemma_count_check_append(a + b + cc, d, c);
    lemma_count_check_append(a + b + cc + d, e, c);
    assert(count_idle_fires(invs, i) == 1);
    assert(count_check_fires(invs, c) == 1);

    // Ordering: idle firings live in the idle pass, check firings in the
    // check pass, and the idle pass comes first.
    lemma_idle_pass_shape(mt, mt.handles.len() as int);
    lemma_check_pass_shape(m2e, m2e.handles.len() as int);
    assert forall|x: int, y: int|
        0 <= x < invs.len() && 0 <= y < invs.len() && is_idle_fire_for(#[trigger] invs[x], i)
            && is_check_fire_for(#[trigger] invs[y], c) implies x < y by {
        if x >= a.len() {
            if x < (a + b).len() {
                assert(invs[x] == b[x - a.len()]);
            } else if x < (a + b + cc).len() {
                assert(invs[x] == cc[x - (a + b).len()]);
            } else if x < (a + b + cc + d).len() {
                assert(invs[x] == d[x - (a + b + cc).len()]);
            } else {
                assert(invs[x] == e[x - (a + b + cc + d).len()]);
            }
            assert(false);
        }
        if y < (a + b + cc).len() {
            if y < a.len() {
                assert(invs[y] == a[y]);
            } else if y < (a + b).len() {
                assert(invs[y] == b[y - a.len()]);
            } else {
                assert(invs[y] == cc[y - (a + b).len()]);
            }
            assert(false);
        }
    }
}


// ---------------------------------------------------------------------------
// A stopped handle stays silent.
// ---------------------------------------------------------------------------

/// Handle `h` is not started: none of its own callbacks may fire.
pub open spec fn dormant(m: LoopModel, h: int) -> bool {
    0 <= h < m.handles.len() && m.handles[h].state != HandleState::Started
}

proof fn lemma_idle_pass_dormant(m: LoopModel, n: int, h: int)
    requires
        bounded(m),
        dormant(m, h),
    ensures
        forall|x: int|
            0 <= x < idle_pass(m, n).len() ==> !fires_for_handle(#[trigger] idle_pass(m, n)[x], h),
    decreases n,
{
    if n > 0 {
        lemma_idle_pass_dormant(m, n - 1, h);
        let prev = idle_pass(m, n - 1);
        let invs = idle_pass(m, n);
        assert forall|x: int|
            0 <= x < invs.len() implies !fires_for_handle(#[trigger] invs[x], h) by {
            if x < prev.len() {
                assert(invs[x] == prev[x]);
            } else {
                assert(invs[x] == idle_fire(m, n - 1)[x - prev.len()]);
            }
        }
    }
}

proof fn lemma_check_pass_dormant(m: LoopModel, n: int, h: int)
    requires
        bounded(m),
        dormant(m, h),
    ensures
        forall|x: int|
            0 <= x < check_pass(m, n).len() ==> !fires_for_handle(
                #[trigger] check_pass(m, n)[x],
                h,
            ),
    decreases n,
{
    if n > 0 {
        lemma_check_pass_dormant(m, n - 1, h);
        let prev = check_pass(m, n - 1);
        let invs = check_pass(m, n);
        assert forall|x: int|
            0 <= x < invs.len() implies !fires_for_handle(#[trigger] invs[x], h) by {
            if x < prev.len() {
                assert(invs[x] == prev[x]);
            } else {
                assert(invs[x] == check_fire(m, n - 1)[x - prev.len()]);
            }
        }
    }
}

proof fn lemma_signal_delivery_dormant(m: LoopModel, signum: i32, n: int, h: int)
    requires
        bounded(m),
        dormant(m, h),
        n <= m.handles.len(),
    ensures
        forall|x: int|
            0 <= x < signal_delivery(m, signum, n).1.len() ==> !fires_for_handle(
                #[trigger] signal_delivery(m, signum, n).1[x],
                h,
            ),
    decreases n,
{
    if n > 0 {
        lemma_signal_delivery_dormant(m, signum, n - 1, h);
        lemma_signal_delivery_effect(m, signum, n - 1);
        let (m1, invs1) = signal_delivery(m, signum, n - 1);
        let (ms, invs2) = signal_step(m1, signum, n - 1);
        let invs = signal_delivery(m, signum, n).1;
        assert(m1.handles[n - 1] == m.handles[n - 1]);
        assert forall|x: int|
            0 <= x < invs.len() implies !fires_for_handle(#[trigger] invs[x], h) by {
            if x < invs1.len() {
                assert(invs[x] == invs1[x]);
            } else {
                assert(invs[x] == invs2[x - invs1.len()]);
            }
        }
    }
}

/// Backend events never fire a callback of a handle that is not started,
/// and never start one.
pub proof fn lemma_apply_event_dormant(m: LoopModel, ev: Event, h: int)
    requires
        bounded(m),
        dormant(m, h),
    ensures
        ({
            let (m2, invs) = apply_event(m, ev);
            &&& m2.handles.len() == m.handles.len()
            &&& m2.works.len() == m.works.len()
            &&& dormant(m2, h)
            &&& forall|x: int|
                0 <= x < invs.len() ==> !fires_for_handle(#[trigger] invs[x], h)
        }),
{
    let (m2, invs) = apply_event(m, ev);
    match ev {
        Event::SignalDelivered { signum } => {
            lemma_signal_delivery_effect(m, signum, m.handles.len() as int);
            lemma_signal_delivery_dormant(m, signum, m.handles.len() as int, h);
        },
        Event::ConnectionArrived { stream, status } => {},
        Event::DataArrived { stream, nread } => {},
        Event::WritesFlushed { stream, count } => {
            let sid = stream.id as int;
            let (mm, ii) = flush_event(m, sid, count as int);
            if crate::stream::is_stream_slot(m, sid) && m.handles[sid].state
                != HandleState::Closing && m.handles[sid].state != HandleState::Destroyed {
                let d = crate::stream::stream_data_of(m, sid);
                let n = if (count as int) < d.write_queue.len() {
                    count as int
                } else {
                    d.write_queue.len() as int
                };
                lemma_write_completion_invs_shape(d.write_queue.take(n), sid);
                assert forall|x: int|
                    0 <= x < ii.len() implies !fires_for_handle(#[trigger] ii[x], h) by {
                    let wc = crate::dispatch::write_completion_invs(d.write_queue.take(n), sid);
                    if x < wc.len() {
                        assert(ii[x] == wc[x]);
                    }
                }
            }
        },
        Event::WorkStarted { req } => {},
        Event::WorkFinished { req, status } => {},
    }
}

pub proof fn lemma_apply_events_dormant(m: LoopModel, evs: Seq<Event>, h: int)
    requires
        bounded(m),
        dormant(m, h),
    ensures
        ({
            let (m2, invs) = apply_events(m, evs);
            &&& m2.handles.len() == m.handles.len()
            &&& m2.works.len() == m.works.len()
            &&& dormant(m2, h)
            &&& forall|x: int|
                0 <= x < invs.len() ==> !fires_for_handle(#[trigger] invs[x], h)
        }),
    decreases evs.len(),
{
    if evs.len() > 0 {
        lemma_apply_events_dormant(m, evs.drop_last(), h);
        let (m1, invs1) = apply_events(m, evs.drop_last());
        lemma_apply_event_dormant(m1, evs.last(), h);
        let (m2, invs2) = apply_event(m1, evs.last());
        assert forall|x: int|
            0 <= x < (invs1 + invs2).len() implies !fires_for_handle(
            #[trigger] (invs1 + invs2)[x],
            h,
        ) by {
            if x < invs1.len() {
                assert((invs1 + invs2)[x] == invs1[x]);
            } else {
                assert((invs1 + invs2)[x] == invs2[x - invs1.len()]);
            }
        }
    }
}

/// One iteration never fires a callback of a handle that is not started,
/// and leaves it not started.
pub proof fn lemma_tick_dormant(m: LoopModel, now: u64, evs: Seq<Event>, h: int)
    requires
        bounded(m),
        dormant(m, h),
    ensures
        ({
            let (m2, invs) = tick_model(m, now, evs);
            &&& m2.handles.len() == m.handles.len()
            &&& m2.works.len() == m.works.len()
            &&& dormant(m2, h)
            &&& forall|x: int|
                0 <= x < invs.len() ==> !fires_for_handle(#[trigger] invs[x], h)
        }),
{
    let mt = LoopModel { time: if now > m.time { now } else { m.time }, ..m };
    let a = idle_pass(mt, mt.handles.len() as int);
    lemma_cancel_pass_effect(mt, mt.works.len() as int);
    let (m1, b) = cancel_pass(mt, mt.works.len() as int);
    lemma_apply_events_dormant(m1, evs, h);
    let (m2e, cc) = apply_events(m1, evs);
    let d = check_pass(m2e, m2e.handles.len() as int);
    lemma_close_pass_effect(m2e, m2e.handles.len() as int);
    let (m3, e) = close_pass(m2e, m2e.handles.len() as int);
    let (mfin, invs) = tick_model(m, now, evs);
    assert(invs =~= a + b + cc + d + e);
    lemma_idle_pass_dormant(mt, mt.handles.len() as int, h);
    assert(bounded(m2e));
    lemma_check_pass_dormant(m2e, m2e.handles.len() as int, h);
    assert(m3.handles[h].state != HandleState::Started);
    assert forall|x: int|
        0 <= x < invs.len() implies !fires_for_handle(#[trigger] invs[x], h) by {
        if x < a.len() {
            assert(invs[x] == a[x]);
        } else if x < (a + b).len() {
            assert(invs[x] == b[x - a.len()]);
        } else if x < (a + b + cc).len() {
            assert(invs[x] == cc[x - (a + b).len()]);
        } else if x < (a + b + cc + d).len() {
            assert(invs[x] == d[x - (a + b + cc).len()]);
        } else {
            assert(invs[x] == e[x - (a + b + cc + d).len()]);
        }
    }
}

/// After `stop`, none of a handle's registered callbacks fires again, no
/// matter how many further iterations run, until it is started again: no
/// event batch and no run mode can make a non-started handle fire.
pub proof fn lemma_stopped_stays_silent(
    m: LoopModel,
    mode: crate::event_loop::RunMode,
    ticks: Seq<crate::dispatch::TickModel>,
    h: int,
)
    requires
        bounded(m),
        dormant(m, h),
    ensures
        ({
            let (m2, invs) = crate::dispatch::run_model(m, mode, ticks);
            &&& dormant(m2, h)
            &&& forall|x: int|
                0 <= x < invs.len() ==> !fires_for_handle(#[trigger] invs[x], h)
        }),
    decreases ticks.len(),
{
    if !m.alive() || m.stop_requested || ticks.len() == 0 {
    } else {
        lemma_tick_dormant(m, ticks[0].now, ticks[0].events, h);
        let (m1, invs1) = tick_model(m, ticks[0].now, ticks[0].events);
        if mode == crate::event_loop::RunMode::Default {
            lemma_stopped_stays_silent(m1, mode, ticks.skip(1), h);
            let (m2, invs2) = crate::dispatch::run_model(m1, mode, ticks.skip(1));
            assert forall|x: int|
                0 <= x < (invs1 + invs2).len() implies !fires_for_handle(
                #[trigger] (invs1 + invs2)[x],
                h,
            ) by {
                if x < invs1.len() {
                    assert((invs1 + invs2)[x] == invs1[x]);
                } else {
                    assert((invs1 + invs2)[x] == invs2[x - invs1.len()]);
                }
            }
        }
    }
}


// ---------------------------------------------------------------------------
// Work completions fire exactly once per submission.
// ---------------------------------------------------------------------------

/// The count a phase owes request `r`: one exactly when this phase carried
/// its stage to done and a completion callback is registered.
pub open spec fn owed_completions(a: LoopModel, b: LoopModel, r: int) -> int {
    if a.works[r].stage != WorkStage::Done && b.works[r].stage == WorkStage::Done && a.works[
        r
    ].after_work_cb is Some {
        1int
    } else {
        0int
    }
}

proof fn lemma_apply_event_work(m: LoopModel, ev: Event, r: int)
    requires
        bounded(m),
        0 <= r < m.works.len(),
    ensures
        ({
            let (m2, invs) = apply_event(m, ev);
            &&& m2.works.len() == m.works.len()
            &&& m2.works[r].after_work_cb == m.works[r].after_work_cb
            &&& (m.works[r].stage == WorkStage::Done ==> m2.works[r].stage == WorkStage::Done)
            &&& count_after_work(invs, r) == owed_completions(m, m2, r)
        }),
{
    let (m2, invs) = apply_event(m, ev);
    assert(count_after_work(Seq::<Invocation>::empty(), r) == 0);
    match ev {
        Event::SignalDelivered { signum } => {
            lemma_signal_delivery_effect(m, signum, m.handles.len() as int);
            lemma_count_after_work_zero(invs, r);
        },
        Event::ConnectionArrived { stream, status } => {
            if invs.len() > 0 {
                assert(invs.drop_last() =~= Seq::<Invocation>::empty());
            }
        },
        Event::DataArrived { stream, nread } => {
            lemma_count_after_work_zero(invs, r);
        },
        Event::WritesFlushed { stream, count } => {
            let sid = stream.id as int;
            if crate::stream::is_stream_slot(m, sid) && m.handles[sid].state
                != HandleState::Closing && m.handles[sid].state != HandleState::Destroyed {
                let d = crate::stream::stream_data_of(m, sid);
                let n = if (count as int) < d.write_queue.len() {
                    count as int
                } else {
                    d.write_queue.len() as int
                };
                lemma_write_completion_invs_shape(d.write_queue.take(n), sid);
                assert forall|x: int|
                    0 <= x < invs.len() implies !((#[trigger] invs[x]) is AfterWorkCallback) by {
                    let wc = crate::dispatch::write_completion_invs(d.write_queue.take(n), sid);
                    if x < wc.len() {
                        assert(invs[x] == wc[x]);
                    }
                }
                lemma_count_after_work_zero(invs, r);
            }
        },
        Event::WorkStarted { req } => {
            if invs.len() > 0 {
                assert(invs.drop_last() =~= Seq::<Invocation>::empty());
            }
        },
        Event::WorkFinished { req, status } => {
            if invs.len() > 0 {
                assert(invs.drop_last() =~= Seq::<Invocation>::empty());
            }
        },
    }
}

proof fn lemma_apply_events_work(m: LoopModel, evs: Seq<Event>, r: int)
    requires
        bounded(m),
        0 <= r < m.works.len(),
    ensures
        ({
            let (m2, invs) = apply_events(m, evs);
            &&& m2.works.len() == m.works.len()
            &&& m2.handles.len() == m.handles.len()
            &&& m2.works[r].after_work_cb == m.works[r].after_work_cb
            &&& (m.works[r].stage == WorkStage::Done ==> m2.works[r].stage == WorkStage::Done)
            &&& count_after_work(invs, r) == owed_completions(m, m2, r)
        }),
    decreases evs.len(),
{
    if evs.len() == 0 {
        assert(count_after_work(Seq::<Invocation>::empty(), r) == 0);
    } else {
        lemma_apply_events_work(m, evs.drop_last(), r);
        let (m1, invs1) = apply_events(m, evs.drop_last());
        lemma_apply_event_work(m1, evs.last(), r);
        lemma_apply_event_len(m1, evs.last());
        let (m2, invs2) = apply_event(m1, evs.last());
        lemma_count_after_work_append(invs1, invs2, r);
    }
}

/// Events preserve the sizes of both tables.
proof fn lemma_apply_event_len(m: LoopModel, ev: Event)
    ensures
        ({
            let (m2, invs) = apply_event(m, ev);
            m2.handles.len() == m.handles.len() && m2.works.len() == m.works.len()
        }),
{
    match ev {
        Event::SignalDelivered { signum } => {
            lemma_signal_delivery_effect(m, signum, m.handles.len() as int);
        },
        _ => {},
    }
}

proof fn lemma_cancel_pass_work(m: LoopModel, n: int, r: int)
    requires
        bounded(m),
        0 <= r < m.works.len(),
        n <= m.works.len(),
    ensures
        ({
            let (m2, invs) = cancel_pass(m, n);
            &&& m2.works.len() == m.works.len()
            &&& m2.works[r].after_work_cb == m.works[r].after_work_cb
            &&& (m.works[r].stage == WorkStage::Done ==> m2.works[r].stage == WorkStage::Done)
            &&& count_after_work(invs, r) == owed_completions(m, m2, r)
        }),
    decreases n,
{
    if n <= 0 {
        assert(count_after_work(Seq::<Invocation>::empty(), r) == 0);
    } else {
        lemma_cancel_pass_work(m, n - 1, r);
        lemma_cancel_pass_slots(m, n - 1);
        let (m1, invs1) = cancel_pass(m, n - 1);
        let (m2, invs2) = crate::dispatch::cancel_step(m1, n - 1);
        lemma_count_after_work_append(invs1, invs2, r);
        assert(count_after_work(Seq::<Invocation>::empty(), r) == 0);
        if invs2.len() > 0 {
            assert(invs2.drop_last() =~= Seq::<Invocation>::empty());
        }
    }
}

/// The cancelled-work pass touches only the cancelled slots.
proof fn lemma_cancel_pass_slots(m: LoopModel, n: int)
    requires
        n <= m.works.len(),
    ensures
        ({
            let (m2, invs) = cancel_pass(m, n);
            &&& m2.works.len() == m.works.len()
            &&& forall|j: int| n <= j < m.works.len() ==> m2.works[j] == m.works[j]
            &&& forall|j: int|
                0 <= j < n ==> m2.works[j] == if m.works[j].stage == WorkStage::CancelPending {
                    crate::handle::WorkSlot { stage: WorkStage::Done, ..m.works[j] }
                } else {
                    m.works[j]
                }
        }),
    decreases n,
{
    if n > 0 {
        lemma_cancel_pass_slots(m, n - 1);
        let (m1, invs1) = cancel_pass(m, n - 1);
        let (m2, invs2) = cancel_pass(m, n);
        assert forall|j: int|
            0 <= j < n implies cancel_pass(m, n).0.works[j] == (
        if m.works[j].stage == WorkStage::CancelPending {
            crate::handle::WorkSlot { stage: WorkStage::Done, ..m.works[j] }
        } else {
            m.works[j]
        }) by {
            if j < n - 1 {
                assert(m2.works[j] == m1.works[j]);
            }
        }
    }
}

/// One iteration delivers request `r`'s completion exactly once if the
/// iteration finishes it (and a callback is registered), and never again
/// after it is done.
pub proof fn lemma_tick_work(m: LoopModel, now: u64, evs: Seq<Event>, r: int)
    requires
        bounded(m),
        0 <= r < m.works.len(),
    ensures
        ({
            let (m2, invs) = tick_model(m, now, evs);
            &&& m2.works.len() == m.works.len()
            &&& m2.handles.len() == m.handles.len()
            &&& m2.works[r].after_work_cb == m.works[r].after_work_cb
            &&& (m.works[r].stage == WorkStage::Done ==> m2.works[r].stage == WorkStage::Done)
            &&& count_after_work(invs, r) == owed_completions(m, m2, r)
        }),
{
    let mt = LoopModel { time: if now > m.time { now } else { m.time }, ..m };
    let a = idle_pass(mt, mt.handles.len() as int);
    lemma_idle_pass_shape(mt, mt.handles.len() as int);
    lemma_count_after_work_zero(a, r);
    lemma_cancel_pass_work(mt, mt.works.len() as int, r);
    lemma_cancel_pass_effect(mt, mt.works.len() as int);
    let (m1, b) = cancel_pass(mt, mt.works.len() as int);
    lemma_apply_events_work(m1, evs, r);
    let (m2e, cc) = apply_events(m1, evs);
    let d = check_pass(m2e, m2e.handles.len() as int);
    lemma_check_pass_shape(m2e, m2e.handles.len() as int);
    lemma_count_after_work_zero(d, r);
    lemma_close_pass_effect(m2e, m2e.handles.len() as int);
    let (m3, e) = close_pass(m2e, m2e.handles.len() as int);
    assert forall|x: int| 0 <= x < e.len() implies !((#[trigger] e[x]) is AfterWorkCallback) by {}
    lemma_count_after_work_zero(e, r);
    let (mfin, invs) = tick_model(m, now, evs);
    assert(invs =~= a + b + cc + d + e);
    lemma_count_after_work_append(a, b, r);
    lemma_count_after_work_append(a + b, cc, r);
    lemma_count_after_work_append(a + b + cc, d, r);
    lemma_count_after_work_append(a + b + cc + d, e, r);
}

/// Exactly one completion callback fires per submitted work request: over
/// any run, request `r`'s completion callback fires exactly once if the
/// run finishes the request (by completion or cancellation) and a callback
/// is registered, and zero times otherwise — in particular never again
/// once the request is done.
pub proof fn lemma_after_work_exactly_once(
    m: LoopModel,
    mode: crate::event_loop::RunMode,
    ticks: Seq<crate::dispatch::TickModel>,
    r: int,
)
    requires
        bounded(m),
        0 <= r < m.works.len(),
    ensures
        ({
            let (m2, invs) = crate::dispatch::run_model(m, mode, ticks);
            &&& (m.works[r].stage == WorkStage::Done ==> m2.works[r].stage == WorkStage::Done)
            &&& count_after_work(invs, r) == owed_completions(m, m2, r)
        }),
    decreases ticks.len(),
{
    if !m.alive() || m.stop_requested || ticks.len() == 0 {
        assert(count_after_work(Seq::<Invocation>::empty(), r) == 0);
    } else {
        lemma_tick_work(m, ticks[0].now, ticks[0].events, r);
        let (m1, invs1) = tick_model(m, ticks[0].now, ticks[0].events);
        if mode == crate::event_loop::RunMode::Default {
            lemma_after_work_exactly_once(m1, mode, ticks.skip(1), r);
            let (m2, invs2) = crate::dispatch::run_model(m1, mode, ticks.skip(1));
            lemma_count_after_work_append(invs1, invs2, r);
        }
    }
}

/// Across any number of iterations, an armed idle handle and an armed
/// check handle fire equally often: once each per iteration taken.
pub proof fn lemma_idle_check_counts_match(
    m: LoopModel,
    ticks: Seq<crate::dispatch::TickModel>,
    i: int,
    c: int,
)
    requires
        bounded(m),
        idle_armed(m, i),
        check_armed(m, c),
    ensures
        ({
            let (m2, invs) = crate::dispatch::run_model(
                m,
                crate::event_loop::RunMode::Default,
                ticks,
            );
            &&& idle_armed(m2, i)
            &&& check_armed(m2, c)
            &&& count_idle_fires(invs, i) == count_check_fires(invs, c)
        }),
    decreases ticks.len(),
{
    if !m.alive() || m.stop_requested || ticks.len() == 0 {
        assert(count_idle_fires(Seq::<Invocation>::empty(), i) == 0);
        assert(count_check_fires(Seq::<Invocation>::empty(), c) == 0);
    } else {
        lemma_idle_before_check(m, ticks[0].now, ticks[0].events, i, c);
        lemma_tick_dormant_len(m, ticks[0].now, ticks[0].events);
        let (m1, invs1) = tick_model(m, ticks[0].now, ticks[0].events);
        lemma_idle_check_counts_match(m1, ticks.skip(1), i, c);
        let (m2, invs2) = crate::dispatch::run_model(
            m1,
            crate::event_loop::RunMode::Default,
            ticks.skip(1),
        );
        lemma_count_idle_append(invs1, invs2, i);
        lemma_count_check_append(invs1, invs2, c);
    }
}

/// An iteration preserves the sizes of both tables.
proof fn lemma_tick_dormant_len(m: LoopModel, now: u64, evs: Seq<Event>)
    ensures
        ({
            let (m2, invs) = tick_model(m, now, evs);
            m2.handles.len() == m.handles.len() && m2.works.len() == m.works.len()
        }),
    decreases evs.len(),
{
    let mt = LoopModel { time: if now > m.time { now } else { m.time }, ..m };
    lemma_cancel_pass_effect(mt, mt.works.len() as int);
    let (m1, b) = cancel_pass(mt, mt.works.len() as int);
    lemma_apply_events_len(m1, evs);
    let (m2e, cc) = apply_events(m1, evs);
    lemma_close_pass_effect(m2e, m2e.handles.len() as int);
}

proof fn lemma_apply_events_len(m: LoopModel, evs: Seq<Event>)
    ensures
        ({
            let (m2, invs) = apply_events(m, evs);
            m2.handles.len() == m.handles.len() && m2.works.len() == m.works.len()
        }),
    decreases evs.len(),
{
    if evs.len() > 0 {
        lemma_apply_events_len(m, evs.drop_last());
        lemma_apply_event_len(apply_events(m, evs.drop_last()).0, evs.last());
    }
}


// ---------------------------------------------------------------------------
// The payload store invariant is preserved everywhere.
// ---------------------------------------------------------------------------
//
// Every slot's payload entry carries the variant matching the handle's kind
// and exists exactly as long as the handle is not destroyed (`LoopModel::wf`).
// The constructors establish it, and every operation and every iteration
// preserve it: interpreting one kind's payload as another's is structurally
// impossible.

/// A fresh loop is well-formed, and creating a handle of any kind keeps the
/// loop well-formed.
pub proof fn lemma_new_preserves_wf(m: LoopModel, kind: HandleKind)
    requires
        m.wf(),
    ensures
        crate::event_loop::fresh_loop_model().wf(),
        new_handle_model(m, kind).wf(),
{
    let m1 = new_handle_model(m, kind);
    assert forall|i: int| 0 <= i < m1.handles.len() implies (#[trigger] m1.handles[i]).wf() by {
        if i < m.handles.len() {
            assert(m1.handles[i] == m.handles[i]);
        }
    }
}

/// The watcher operations preserve well-formedness.
pub proof fn lemma_watcher_ops_preserve_wf(m: LoopModel, id: int, cb: Option<u64>, signum: i32, oneshot: bool)
    requires
        m.wf(),
    ensures
        crate::check::check_op_outcome(m, id) is Ok ==> crate::check::check_start_model(
            m,
            id,
            cb,
        ).wf(),
        crate::idle::idle_op_outcome(m, id) is Ok ==> crate::idle::idle_start_model(
            m,
            id,
            cb,
        ).wf(),
        crate::signal::signal_op_outcome(m, id) is Ok ==> crate::signal::signal_start_model(
            m,
            id,
            cb,
            signum,
            oneshot,
        ).wf(),
        crate::signal::signal_op_outcome(m, id) is Ok ==> crate::signal::signal_stop_model(
            m,
            id,
        ).wf(),
{
    if crate::check::check_op_outcome(m, id) is Ok {
        let m1 = crate::check::check_start_model(m, id, cb);
        assert forall|i: int|
            0 <= i < m1.handles.len() implies (#[trigger] m1.handles[i]).wf() by {
            if i != id {
                assert(m1.handles[i] == m.handles[i]);
            }
        }
    }
    if crate::idle::idle_op_outcome(m, id) is Ok {
        let m1 = crate::idle::idle_start_model(m, id, cb);
        assert forall|i: int|
            0 <= i < m1.handles.len() implies (#[trigger] m1.handles[i]).wf() by {
            if i != id {
                assert(m1.handles[i] == m.handles[i]);
            }
        }
    }
    if crate::signal::signal_op_outcome(m, id) is Ok {
        let m1 = crate::signal::signal_start_model(m, id, cb, signum, oneshot);
        assert forall|i: int|
            0 <= i < m1.handles.len() implies (#[trigger] m1.handles[i]).wf() by {
            if i != id {
                assert(m1.handles[i] == m.handles[i]);
            }
        }
        let m2 = crate::signal::signal_stop_model(m, id);
        assert(!(m.handles[id].payload is FreedP) ==> m2.handles[id].wf());
        assert forall|i: int|
            0 <= i < m2.handles.len() implies (#[trigger] m2.handles[i]).wf() by {
            if i != id {
                assert(m2.handles[i] == m.handles[i]);
            }
        }
    }
}

/// The stream operations preserve well-formedness.
pub proof fn lemma_stream_ops_preserve_wf(m: LoopModel, id: int, d: crate::handle::StreamModel, state: HandleState)
    requires
        m.wf(),
        crate::stream::is_stream_slot(m, id),
        state == HandleState::Started || state == HandleState::Stopped || state == m.handles[
            id
        ].state,
        m.handles[id].state != HandleState::Destroyed,
    ensures
        crate::stream::with_stream_data(m, id, d).wf(),
        crate::stream::with_stream_data_state(m, id, d, state).wf(),
{
    let m1 = crate::stream::with_stream_data(m, id, d);
    assert forall|i: int| 0 <= i < m1.handles.len() implies (#[trigger] m1.handles[i]).wf() by {
        if i != id {
            assert(m1.handles[i] == m.handles[i]);
        }
    }
    let m2 = crate::stream::with_stream_data_state(m, id, d, state);
    assert forall|i: int| 0 <= i < m2.handles.len() implies (#[trigger] m2.handles[i]).wf() by {
        if i != id {
            assert(m2.handles[i] == m.handles[i]);
        }
    }
}

/// Requesting a close and replacing a callback preserve well-formedness.
pub proof fn lemma_handle_ops_preserve_wf(m: LoopModel, h: crate::handle::Handle, cb: Option<u64>)
    requires
        m.wf(),
        crate::event_loop::handle_op_outcome(m, h) is Ok,
    ensures
        crate::event_loop::close_handle_model(m, h, cb).wf(),
        crate::event_loop::set_callback_model(m, h, cb).wf(),
{
    let hid = h.id as int;
    let m1 = crate::event_loop::close_handle_model(m, h, cb);
    assert forall|i: int| 0 <= i < m1.handles.len() implies (#[trigger] m1.handles[i]).wf() by {
        if i != hid {
            assert(m1.handles[i] == m.handles[i]);
        }
    }
    let m2 = crate::event_loop::set_callback_model(m, h, cb);
    assert forall|i: int| 0 <= i < m2.handles.len() implies (#[trigger] m2.handles[i]).wf() by {
        if i != hid {
            assert(m2.handles[i] == m.handles[i]);
        }
    }
}

proof fn lemma_apply_event_preserves_wf(m: LoopModel, ev: Event)
    requires
        m.wf(),
    ensures
        apply_event(m, ev).0.wf(),
{
    let m2 = apply_event(m, ev).0;
    match ev {
        Event::SignalDelivered { signum } => {
            lemma_signal_delivery_effect(m, signum, m.handles.len() as int);
            assert forall|i: int|
                0 <= i < m2.handles.len() implies (#[trigger] m2.handles[i]).wf() by {
                if signal_disarms(m, i, signum) {
                    assert(m2.handles[i] == (SlotModel {
                        state: HandleState::Stopped,
                        ..m.handles[i]
                    }));
                } else {
                    assert(m2.handles[i] == m.handles[i]);
                }
            }
        },
        Event::ConnectionArrived { stream, status } => {
            assert forall|i: int|
                0 <= i < m2.handles.len() implies (#[trigger] m2.handles[i]).wf() by {
                if i != stream.id as int {
                    assert(m2.handles[i] == m.handles[i]);
                }
            }
        },
        Event::DataArrived { stream, nread } => {
            assert forall|i: int|
                0 <= i < m2.handles.len() implies (#[trigger] m2.handles[i]).wf() by {
                if i != stream.id as int {
                    assert(m2.handles[i] == m.handles[i]);
                }
            }
        },
        Event::WritesFlushed { stream, count } => {
            assert forall|i: int|
                0 <= i < m2.handles.len() implies (#[trigger] m2.handles[i]).wf() by {
                if i != stream.id as int {
                    assert(m2.handles[i] == m.handles[i]);
                }
            }
        },
        Event::WorkStarted { req } => {},
        Event::WorkFinished { req, status } => {},
    }
}

proof fn lemma_apply_events_preserves_wf(m: LoopModel, evs: Seq<Event>)
    requires
        m.wf(),
    ensures
        apply_events(m, evs).0.wf(),
    decreases evs.len(),
{
    if evs.len() > 0 {
        lemma_apply_events_preserves_wf(m, evs.drop_last());
        lemma_apply_event_preserves_wf(apply_events(m, evs.drop_last()).0, evs.last());
    }
}

/// One whole iteration preserves well-formedness: in particular the close
/// pass frees a payload entry exactly when it destroys the handle.
pub proof fn lemma_tick_preserves_wf(m: LoopModel, now: u64, evs: Seq<Event>)
    requires
        m.wf(),
    ensures
        tick_model(m, now, evs).0.wf(),
{
    let mt = LoopModel { time: if now > m.time { now } else { m.time }, ..m };
    lemma_cancel_pass_effect(mt, mt.works.len() as int);
    let (m1, b) = cancel_pass(mt, mt.works.len() as int);
    assert(m1.wf());
    lemma_apply_events_preserves_wf(m1, evs);
    let (m2e, cc) = apply_events(m1, evs);
    lemma_close_pass_effect(m2e, m2e.handles.len() as int);
    let (m3, e) = close_pass(m2e, m2e.handles.len() as int);
    assert forall|i: int| 0 <= i < m3.handles.len() implies (#[trigger] m3.handles[i]).wf() by {
        if m2e.handles[i].state == HandleState::Closing {
            assert(m3.handles[i] == destroyed_slot(m2e.handles[i]));
        } else {
            assert(m3.handles[i] == m2e.handles[i]);
        }
    }
}

/// Any run of the loop preserves well-formedness.
pub proof fn lemma_run_preserves_wf(
    m: LoopModel,
    mode: crate::event_loop::RunMode,
    ticks: Seq<crate::dispatch::TickModel>,
)
    requires
        m.wf(),
    ensures
        crate::dispatch::run_model(m, mode, ticks).0.wf(),
    decreases ticks.len(),
{
    if !m.alive() || m.stop_requested || ticks.len() == 0 {
    } else {
        lemma_tick_preserves_wf(m, ticks[0].now, ticks[0].events);
        if mode == crate::event_loop::RunMode::Default {
            lemma_run_preserves_wf(
                tick_model(m, ticks[0].now, ticks[0].events).0,
                mode,
                ticks.skip(1),
            );
        }
    }
}

} // verus!






