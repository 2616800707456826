use reactor::event_loop::{Loop, RunMode, PROFILING_SIGNAL};
use reactor::dispatch::{Event, Invocation, Tick};
use reactor::handle::HandleKind;
use reactor::Error;

#[test]
fn fresh_loop_is_quiet() {
    let lp = Loop::new().unwrap();
    assert_eq!(lp.now(), 0);
    assert!(!lp.is_alive());
    assert_eq!(lp.backend_timeout(), 0);
}

#[test]
fn default_loop_is_an_ordinary_loop() {
    let mut lp = Loop::default().unwrap();
    assert!(!lp.is_alive());
    assert!(lp.close().is_ok());
}

#[test]
fn close_is_not_silently_repeatable() {
    let mut lp = Loop::new().unwrap();
    assert!(lp.close().is_ok());
    assert_eq!(lp.close(), Err(Error::Closed));
}

#[test]
fn close_busy_while_handles_open() {
    let mut lp = Loop::new().unwrap();
    let h = lp.check().unwrap();
    assert_eq!(lp.close(), Err(Error::Busy));
    assert!(lp.close_handle(h.to_handle(), None).is_ok());
    let invs = lp.run_iteration(1, &Vec::new());
    assert_eq!(invs.len(), 0);
    assert!(lp.close().is_ok());
}

#[test]
fn block_signal_supports_only_the_profiling_signal() {
    let mut lp = Loop::new().unwrap();
    assert!(lp.block_signal(PROFILING_SIGNAL).is_ok());
    assert_eq!(lp.block_signal(2), Err(Error::InvalidArgument));
}

#[test]
fn cached_time_never_moves_backwards() {
    let mut lp = Loop::new().unwrap();
    lp.update_time(50);
    assert_eq!(lp.now(), 50);
    lp.update_time(20);
    assert_eq!(lp.now(), 50);
    let _ = lp.run_iteration(90, &Vec::new());
    assert_eq!(lp.now(), 90);
}

#[test]
fn fork_succeeds_on_an_open_loop_only() {
    let mut lp = Loop::new().unwrap();
    assert!(lp.fork().is_ok());
    lp.close().unwrap();
    assert_eq!(lp.fork(), Err(Error::Closed));
}

#[test]
fn backend_timeout_reflects_loop_state() {
    let mut lp = Loop::new().unwrap();
    let sig = lp.signal().unwrap();
    sig.start(&mut lp, Some(1), 2).unwrap();
    assert_eq!(lp.backend_timeout(), -1);
    let idle = lp.idle().unwrap();
    idle.start(&mut lp, Some(2)).unwrap();
    assert_eq!(lp.backend_timeout(), 0);
    idle.stop(&mut lp).unwrap();
    assert_eq!(lp.backend_timeout(), -1);
    lp.stop();
    assert_eq!(lp.backend_timeout(), 0);
}

#[test]
fn stop_ends_run_and_is_consumed() {
    let mut lp = Loop::new().unwrap();
    let chk = lp.check().unwrap();
    chk.start(&mut lp, Some(9)).unwrap();
    lp.stop();
    let ticks = vec![Tick { now: 1, events: Vec::new() }];
    let (more, invs) = lp.run(RunMode::Default, &ticks);
    assert!(more);
    assert_eq!(invs.len(), 0);
    let (more2, invs2) = lp.run(RunMode::Once, &ticks);
    assert!(more2);
    assert_eq!(invs2.len(), 1);
}

#[test]
fn create_then_close_leaves_no_payload_for_any_kind() {
    let mut lp = Loop::new().unwrap();
    let check = lp.check().unwrap().to_handle();
    let idle = lp.idle().unwrap().to_handle();
    let signal = lp.signal().unwrap().to_handle();
    let stream = lp.stream().unwrap().to_handle();
    for h in [check, idle, signal, stream] {
        assert!(lp.get_payload(h).is_some());
        assert!(lp.close_handle(h, Some(100 + h.id as u64)).is_ok());
    }
    let invs = lp.run_iteration(1, &Vec::new());
    assert_eq!(invs.len(), 4);
    for (k, h) in [check, idle, signal, stream].into_iter().enumerate() {
        assert_eq!(invs[k], Invocation::CloseCallback { cb: 100 + h.id as u64, handle: h });
        assert!(lp.get_payload(h).is_none());
    }
    assert!(lp.close().is_ok());
}

#[test]
fn operations_on_a_closed_handle_fail_cleanly() {
    let mut lp = Loop::new().unwrap();
    let chk = lp.check().unwrap();
    lp.close_handle(chk.to_handle(), None).unwrap();
    assert_eq!(chk.start(&mut lp, Some(1)), Err(Error::Closed));
    assert_eq!(lp.close_handle(chk.to_handle(), None), Err(Error::Closed));
    let _ = lp.run_iteration(1, &Vec::new());
    assert_eq!(chk.start(&mut lp, Some(1)), Err(Error::Closed));
}

#[test]
fn set_callback_replaces_without_starting() {
    let mut lp = Loop::new().unwrap();
    let chk = lp.check().unwrap();
    chk.start(&mut lp, Some(5)).unwrap();
    lp.set_callback(chk.to_handle(), Some(6)).unwrap();
    let invs = lp.run_iteration(1, &Vec::new());
    assert_eq!(invs.len(), 1);
    assert!(matches!(invs[0], Invocation::CheckCallback { cb: 6, .. }));
    lp.set_callback(chk.to_handle(), None).unwrap();
    let invs2 = lp.run_iteration(2, &Vec::new());
    assert_eq!(invs2.len(), 0);
}

#[test]
fn kind_tags_are_checked_on_recovery() {
    let mut lp = Loop::new().unwrap();
    let chk = lp.check().unwrap();
    let h = chk.to_handle();
    assert_eq!(h.kind, HandleKind::Check);
    assert!(reactor::check::CheckHandle::try_from(h).is_ok());
    assert_eq!(
        reactor::idle::IdleHandle::try_from(h),
        Err(Error::InvalidArgument)
    );
    assert_eq!(
        reactor::signal::SignalHandle::try_from(h),
        Err(Error::InvalidArgument)
    );
    assert_eq!(
        reactor::stream::StreamHandle::try_from(h),
        Err(Error::InvalidArgument)
    );
}

#[test]
fn run_nowait_processes_at_most_one_batch() {
    let mut lp = Loop::new().unwrap();
    let chk = lp.check().unwrap();
    chk.start(&mut lp, Some(3)).unwrap();
    let ticks = vec![
        Tick { now: 1, events: Vec::new() },
        Tick { now: 2, events: Vec::new() },
    ];
    let (more, invs) = lp.run(RunMode::NoWait, &ticks);
    assert!(more);
    assert_eq!(invs.len(), 1);
    let (_, invs2) = lp.run(RunMode::Default, &ticks);
    assert_eq!(invs2.len(), 2);
}

#[test]
fn unwatched_events_are_ignored() {
    let mut lp = Loop::new().unwrap();
    let chk = lp.check().unwrap();
    chk.start(&mut lp, Some(3)).unwrap();
    let events = vec![Event::SignalDelivered { signum: 17 }];
    let invs = lp.run_iteration(1, &events);
    assert_eq!(invs.len(), 1);
    assert!(matches!(invs[0], Invocation::CheckCallback { .. }));
}
