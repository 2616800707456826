use reactor::event_loop::Loop;
use reactor::dispatch::{Event, Invocation, Tick};
use reactor::event_loop::RunMode;
use reactor::handle::WorkStage;
use reactor::Error;

#[test]
fn work_runs_then_completes_exactly_once() {
    let mut lp = Loop::new().unwrap();
    let req = lp.queue_work(Some(71), Some(72)).unwrap();
    assert_eq!(req.stage(&lp), Some(WorkStage::Queued));
    assert!(lp.is_alive());

    let invs = lp.run_iteration(1, &vec![Event::WorkStarted { req }]);
    assert_eq!(invs.len(), 1);
    assert_eq!(invs[0], Invocation::WorkCallback { cb: 71, req });
    assert_eq!(req.stage(&lp), Some(WorkStage::Running));

    let invs2 = lp.run_iteration(2, &vec![Event::WorkFinished { req, status: 0 }]);
    assert_eq!(invs2.len(), 1);
    assert_eq!(
        invs2[0],
        Invocation::AfterWorkCallback { cb: 72, req, status: Ok(0) }
    );
    assert_eq!(req.stage(&lp), Some(WorkStage::Done));
    assert!(!lp.is_alive());

    let invs3 = lp.run_iteration(3, &vec![Event::WorkFinished { req, status: 0 }]);
    assert_eq!(invs3.len(), 0);
}

#[test]
fn after_work_fires_once_per_submission_over_a_run() {
    let mut lp = Loop::new().unwrap();
    let r1 = lp.queue_work(Some(1), Some(2)).unwrap();
    let r2 = lp.queue_work(Some(3), Some(4)).unwrap();
    let ticks = vec![
        Tick { now: 1, events: vec![Event::WorkStarted { req: r1 }, Event::WorkStarted { req: r2 }] },
        Tick {
            now: 2,
            events: vec![
                Event::WorkFinished { req: r1, status: 0 },
                Event::WorkFinished { req: r1, status: 0 },
            ],
        },
        Tick { now: 3, events: vec![Event::WorkFinished { req: r2, status: 7 }] },
    ];
    let (more, invs) = lp.run(RunMode::Default, &ticks);
    assert!(!more);
    let for_r1 = invs
        .iter()
        .filter(|i| matches!(i, Invocation::AfterWorkCallback { req, .. } if *req == r1))
        .count();
    assert_eq!(for_r1, 1);
    assert!(invs.contains(&Invocation::AfterWorkCallback { cb: 4, req: r2, status: Ok(7) }));
}

#[test]
fn failed_work_passes_the_backend_code_through() {
    let mut lp = Loop::new().unwrap();
    let req = lp.queue_work(None, Some(72)).unwrap();
    let invs = lp.run_iteration(1, &vec![Event::WorkFinished { req, status: -32 }]);
    assert_eq!(
        invs[0],
        Invocation::AfterWorkCallback { cb: 72, req, status: Err(Error::BackendError(-32)) }
    );
}

#[test]
fn cancelled_work_completes_with_cancelled() {
    let mut lp = Loop::new().unwrap();
    let req = lp.queue_work(Some(71), Some(72)).unwrap();
    assert!(lp.cancel_work(req).is_ok());
    assert_eq!(req.stage(&lp), Some(WorkStage::CancelPending));
    assert_eq!(lp.cancel_work(req), Err(Error::Busy));
    let invs = lp.run_iteration(1, &Vec::new());
    assert_eq!(invs.len(), 1);
    assert_eq!(
        invs[0],
        Invocation::AfterWorkCallback { cb: 72, req, status: Err(Error::Cancelled) }
    );
    assert_eq!(req.stage(&lp), Some(WorkStage::Done));
    assert_eq!(lp.cancel_work(req), Err(Error::Closed));
}

#[test]
fn running_work_cannot_be_cancelled() {
    let mut lp = Loop::new().unwrap();
    let req = lp.queue_work(Some(71), Some(72)).unwrap();
    let _ = lp.run_iteration(1, &vec![Event::WorkStarted { req }]);
    assert_eq!(lp.cancel_work(req), Err(Error::Busy));
}

#[test]
fn work_without_callbacks_is_legal() {
    let mut lp = Loop::new().unwrap();
    let req = lp.queue_work(None, None).unwrap();
    let invs = lp.run_iteration(1, &vec![Event::WorkStarted { req }]);
    assert_eq!(invs.len(), 0);
    let invs2 = lp.run_iteration(2, &vec![Event::WorkFinished { req, status: 0 }]);
    assert_eq!(invs2.len(), 0);
    assert_eq!(req.stage(&lp), Some(WorkStage::Done));
}

#[test]
fn open_work_keeps_the_loop_busy() {
    let mut lp = Loop::new().unwrap();
    let req = lp.queue_work(None, Some(1)).unwrap();
    assert_eq!(lp.close(), Err(Error::Busy));
    let _ = lp.run_iteration(1, &vec![Event::WorkFinished { req, status: 0 }]);
    assert!(lp.close().is_ok());
    assert_eq!(lp.queue_work(None, None), Err(Error::Closed));
}
