use reactor::event_loop::{Loop, RunMode};
use reactor::dispatch::{Event, Invocation, Tick};

#[test]
fn idle_fires_before_check_with_equal_counts() {
    let mut lp = Loop::new().unwrap();
    let idle = lp.idle().unwrap();
    let check = lp.check().unwrap();
    idle.start(&mut lp, Some(1)).unwrap();
    check.start(&mut lp, Some(2)).unwrap();
    let ticks = vec![
        Tick { now: 1, events: Vec::new() },
        Tick { now: 2, events: Vec::new() },
        Tick { now: 3, events: Vec::new() },
    ];
    let (more, invs) = lp.run(RunMode::Default, &ticks);
    assert!(more);
    let idle_count = invs
        .iter()
        .filter(|i| matches!(i, Invocation::IdleCallback { .. }))
        .count();
    let check_count = invs
        .iter()
        .filter(|i| matches!(i, Invocation::CheckCallback { .. }))
        .count();
    assert_eq!(idle_count, 3);
    assert_eq!(check_count, 3);
    assert_eq!(invs.len(), 6);
    for pair in invs.chunks(2) {
        assert!(matches!(pair[0], Invocation::IdleCallback { cb: 1, .. }));
        assert!(matches!(pair[1], Invocation::CheckCallback { cb: 2, .. }));
    }
}

#[test]
fn stopped_watcher_never_fires_until_restarted() {
    let mut lp = Loop::new().unwrap();
    let check = lp.check().unwrap();
    let keeper = lp.idle().unwrap();
    keeper.start(&mut lp, Some(7)).unwrap();
    check.start(&mut lp, Some(8)).unwrap();
    check.stop(&mut lp).unwrap();
    let ticks = vec![
        Tick { now: 1, events: Vec::new() },
        Tick { now: 2, events: Vec::new() },
        Tick { now: 3, events: Vec::new() },
        Tick { now: 4, events: Vec::new() },
    ];
    let (_, invs) = lp.run(RunMode::Default, &ticks);
    assert!(invs
        .iter()
        .all(|i| !matches!(i, Invocation::CheckCallback { .. })));
    assert_eq!(invs.len(), 4);
    check.start(&mut lp, Some(8)).unwrap();
    let invs2 = lp.run_iteration(5, &Vec::new());
    assert!(invs2
        .iter()
        .any(|i| matches!(i, Invocation::CheckCallback { cb: 8, .. })));
}

#[test]
fn starting_a_watcher_with_no_callback_stops_it() {
    let mut lp = Loop::new().unwrap();
    let idle = lp.idle().unwrap();
    idle.start(&mut lp, Some(4)).unwrap();
    idle.start(&mut lp, None).unwrap();
    let invs = lp.run_iteration(1, &Vec::new());
    assert_eq!(invs.len(), 0);
    assert!(!lp.is_alive());
}

#[test]
fn watcher_stop_is_idempotent() {
    let mut lp = Loop::new().unwrap();
    let check = lp.check().unwrap();
    assert!(check.stop(&mut lp).is_ok());
    assert!(check.stop(&mut lp).is_ok());
    let idle = lp.idle().unwrap();
    assert!(idle.stop(&mut lp).is_ok());
    assert!(idle.stop(&mut lp).is_ok());
}

#[test]
fn signal_fires_per_delivery_and_rearms() {
    let mut lp = Loop::new().unwrap();
    let sig = lp.signal().unwrap();
    sig.start(&mut lp, Some(11), 10).unwrap();
    let events = vec![
        Event::SignalDelivered { signum: 10 },
        Event::SignalDelivered { signum: 12 },
        Event::SignalDelivered { signum: 10 },
    ];
    let invs = lp.run_iteration(1, &events);
    assert_eq!(invs.len(), 2);
    assert!(matches!(
        invs[0],
        Invocation::SignalCallback { cb: 11, signum: 10, .. }
    ));
    assert!(matches!(
        invs[1],
        Invocation::SignalCallback { cb: 11, signum: 10, .. }
    ));
}

#[test]
fn oneshot_signal_fires_exactly_once() {
    let mut lp = Loop::new().unwrap();
    let sig = lp.signal().unwrap();
    sig.start_oneshot(&mut lp, Some(21), 10).unwrap();
    let events = vec![
        Event::SignalDelivered { signum: 10 },
        Event::SignalDelivered { signum: 10 },
    ];
    let invs = lp.run_iteration(1, &events);
    assert_eq!(invs.len(), 1);
    assert!(matches!(
        invs[0],
        Invocation::SignalCallback { cb: 21, signum: 10, .. }
    ));
    let invs2 = lp.run_iteration(2, &vec![Event::SignalDelivered { signum: 10 }]);
    assert_eq!(invs2.len(), 0);
    sig.start_oneshot(&mut lp, Some(21), 10).unwrap();
    let invs3 = lp.run_iteration(3, &vec![Event::SignalDelivered { signum: 10 }]);
    assert_eq!(invs3.len(), 1);
}

#[test]
fn signal_start_replaces_the_registered_pair() {
    let mut lp = Loop::new().unwrap();
    let sig = lp.signal().unwrap();
    sig.start(&mut lp, Some(1), 10).unwrap();
    sig.start(&mut lp, Some(2), 12).unwrap();
    let invs = lp.run_iteration(
        1,
        &vec![
            Event::SignalDelivered { signum: 10 },
            Event::SignalDelivered { signum: 12 },
        ],
    );
    assert_eq!(invs.len(), 1);
    assert!(matches!(
        invs[0],
        Invocation::SignalCallback { cb: 2, signum: 12, .. }
    ));
}

#[test]
fn stopped_signal_does_not_fire() {
    let mut lp = Loop::new().unwrap();
    let sig = lp.signal().unwrap();
    sig.start(&mut lp, Some(1), 10).unwrap();
    sig.stop(&mut lp).unwrap();
    let invs = lp.run_iteration(1, &vec![Event::SignalDelivered { signum: 10 }]);
    assert_eq!(invs.len(), 0);
}

#[test]
fn signal_with_no_callback_is_legal_and_silent() {
    let mut lp = Loop::new().unwrap();
    let sig = lp.signal().unwrap();
    sig.start(&mut lp, None, 10).unwrap();
    assert!(lp.is_alive());
    let invs = lp.run_iteration(1, &vec![Event::SignalDelivered { signum: 10 }]);
    assert_eq!(invs.len(), 0);
}

#[test]
fn end_to_end_oneshot_signal_run() {
    let mut lp = Loop::new().unwrap();
    let sig = lp.signal().unwrap();
    sig.start_oneshot(&mut lp, Some(77), 10).unwrap();
    assert!(lp.is_alive());
    let ticks = vec![
        Tick { now: 1, events: Vec::new() },
        Tick { now: 2, events: vec![Event::SignalDelivered { signum: 10 }] },
        Tick { now: 3, events: Vec::new() },
    ];
    let (more, invs) = lp.run(RunMode::Default, &ticks);
    assert!(!more);
    let fired: Vec<&Invocation> = invs
        .iter()
        .filter(|i| matches!(i, Invocation::SignalCallback { .. }))
        .collect();
    assert_eq!(fired.len(), 1);
    assert!(matches!(
        fired[0],
        Invocation::SignalCallback { cb: 77, signum: 10, .. }
    ));
    assert!(lp.close_handle(sig.to_handle(), None).is_ok());
    let _ = lp.run_iteration(4, &Vec::new());
    assert_eq!(lp.close(), Ok(()));
}
