use reactor::event_loop::Loop;
use reactor::dispatch::{Event, Invocation, Tick};
use reactor::stream::{StreamHandle, StreamTrait, WriteReq};
use reactor::Error;

fn established_pair(lp: &mut Loop) -> (StreamHandle, StreamHandle) {
    let server = lp.stream().unwrap();
    server.listen(lp, 8, Some(1)).unwrap();
    let client = lp.stream().unwrap();
    let events = vec![Event::ConnectionArrived { stream: server, status: 0 }];
    let invs = lp.run_iteration(1, &events);
    assert!(invs
        .iter()
        .any(|i| matches!(i, Invocation::ConnectionCallback { cb: 1, .. })));
    server.accept(lp, &client).unwrap();
    (server, client)
}

#[test]
fn accept_succeeds_once_per_connection() {
    let mut lp = Loop::new().unwrap();
    let server = lp.stream().unwrap();
    server.listen(&mut lp, 4, Some(1)).unwrap();
    let client = lp.stream().unwrap();
    let spare = lp.stream().unwrap();
    assert_eq!(
        server.accept(&mut lp, &client),
        Err(Error::NoPendingConnection)
    );
    let events = vec![Event::ConnectionArrived { stream: server, status: 0 }];
    let _ = lp.run_iteration(1, &events);
    assert!(server.accept(&mut lp, &client).is_ok());
    assert!(client.is_readable(&lp) && client.is_writable(&lp));
    assert_eq!(
        server.accept(&mut lp, &spare),
        Err(Error::NoPendingConnection)
    );
}

#[test]
fn backlog_caps_pending_connections() {
    let mut lp = Loop::new().unwrap();
    let server = lp.stream().unwrap();
    server.listen(&mut lp, 1, Some(1)).unwrap();
    let events = vec![
        Event::ConnectionArrived { stream: server, status: 0 },
        Event::ConnectionArrived { stream: server, status: 0 },
    ];
    let invs = lp.run_iteration(1, &events);
    let fired = invs
        .iter()
        .filter(|i| matches!(i, Invocation::ConnectionCallback { .. }))
        .count();
    assert_eq!(fired, 1);
}

#[test]
fn writes_complete_in_submission_order() {
    let mut lp = Loop::new().unwrap();
    let (_server, client) = established_pair(&mut lp);
    let w1 = client.write(&mut lp, vec![1u8, 2, 3], Some(41)).unwrap();
    let w2 = client.write(&mut lp, vec![4u8, 5], Some(42)).unwrap();
    assert_eq!(client.get_write_queue_size(&lp), 5);
    let events = vec![Event::WritesFlushed { stream: client, count: 2 }];
    let invs = lp.run_iteration(2, &events);
    assert_eq!(invs.len(), 2);
    assert_eq!(
        invs[0],
        Invocation::WriteCallback { cb: 41, req: w1, status: Ok(()) }
    );
    assert_eq!(
        invs[1],
        Invocation::WriteCallback { cb: 42, req: w2, status: Ok(()) }
    );
    assert_eq!(client.transmitted(&lp).unwrap(), &vec![1u8, 2, 3, 4, 5]);
    assert_eq!(client.get_write_queue_size(&lp), 0);
}

#[test]
fn partial_flush_keeps_the_rest_queued() {
    let mut lp = Loop::new().unwrap();
    let (_server, client) = established_pair(&mut lp);
    client.write(&mut lp, vec![1u8], Some(41)).unwrap();
    client.write(&mut lp, vec![2u8], Some(42)).unwrap();
    let events = vec![Event::WritesFlushed { stream: client, count: 1 }];
    let invs = lp.run_iteration(2, &events);
    assert_eq!(invs.len(), 1);
    assert!(matches!(invs[0], Invocation::WriteCallback { cb: 41, .. }));
    assert_eq!(client.transmitted(&lp).unwrap(), &vec![1u8]);
    assert_eq!(client.get_write_queue_size(&lp), 1);
}

#[test]
fn write_on_an_unconnected_stream_fails() {
    let mut lp = Loop::new().unwrap();
    let s = lp.stream().unwrap();
    assert_eq!(
        s.write(&mut lp, vec![1u8], Some(1)),
        Err(Error::NotConnected)
    );
}

#[test]
fn try_write_accepts_only_with_an_empty_queue() {
    let mut lp = Loop::new().unwrap();
    let (_server, client) = established_pair(&mut lp);
    assert_eq!(client.try_write(&mut lp, &vec![9u8, 8]), Ok(2));
    assert_eq!(client.transmitted(&lp).unwrap(), &vec![9u8, 8]);
    client.write(&mut lp, vec![1u8], None).unwrap();
    assert_eq!(client.try_write(&mut lp, &vec![7u8]), Ok(0));
    assert_eq!(client.transmitted(&lp).unwrap(), &vec![9u8, 8]);
}

#[test]
fn read_callbacks_fire_with_alloc_first() {
    let mut lp = Loop::new().unwrap();
    let (_server, client) = established_pair(&mut lp);
    client.read_start(&mut lp, Some(31), Some(32)).unwrap();
    let events = vec![Event::DataArrived { stream: client, nread: 12 }];
    let invs = lp.run_iteration(2, &events);
    assert_eq!(invs.len(), 2);
    assert!(matches!(
        invs[0],
        Invocation::AllocCallback { cb: 31, suggested_size: 65536, .. }
    ));
    assert!(matches!(
        invs[1],
        Invocation::ReadCallback { cb: 32, nread: 12, .. }
    ));
}

#[test]
fn read_stop_silences_the_stream() {
    let mut lp = Loop::new().unwrap();
    let (_server, client) = established_pair(&mut lp);
    client.read_start(&mut lp, Some(31), Some(32)).unwrap();
    client.read_stop(&mut lp).unwrap();
    client.read_stop(&mut lp).unwrap();
    let events = vec![Event::DataArrived { stream: client, nread: 5 }];
    let invs = lp.run_iteration(2, &events);
    assert_eq!(invs.len(), 0);
}

#[test]
fn negative_read_ends_the_stream() {
    let mut lp = Loop::new().unwrap();
    let (_server, client) = established_pair(&mut lp);
    client.read_start(&mut lp, None, Some(32)).unwrap();
    let events = vec![Event::DataArrived { stream: client, nread: -4095 }];
    let invs = lp.run_iteration(2, &events);
    assert_eq!(invs.len(), 1);
    assert!(matches!(
        invs[0],
        Invocation::ReadCallback { cb: 32, nread: -4095, .. }
    ));
    assert!(!client.is_readable(&lp));
    let more = lp.run_iteration(3, &vec![Event::DataArrived { stream: client, nread: 3 }]);
    assert_eq!(more.len(), 0);
}

#[test]
fn shutdown_completes_after_the_queue_drains() {
    let mut lp = Loop::new().unwrap();
    let (_server, client) = established_pair(&mut lp);
    let w = client.write(&mut lp, vec![1u8, 2], Some(41)).unwrap();
    let sh = client.shutdown(&mut lp, Some(51)).unwrap();
    assert_eq!(
        client.write(&mut lp, vec![3u8], None),
        Err(Error::NotConnected)
    );
    let invs = lp.run_iteration(2, &vec![Event::WritesFlushed { stream: client, count: 9 }]);
    assert_eq!(invs.len(), 2);
    assert_eq!(
        invs[0],
        Invocation::WriteCallback { cb: 41, req: w, status: Ok(()) }
    );
    assert_eq!(
        invs[1],
        Invocation::ShutdownCallback { cb: 51, req: sh, status: Ok(()) }
    );
    assert!(!client.is_writable(&lp));
    assert_eq!(client.shutdown(&mut lp, None), Err(Error::NotConnected));
}

#[test]
fn only_one_shutdown_may_be_pending() {
    let mut lp = Loop::new().unwrap();
    let (_server, client) = established_pair(&mut lp);
    client.write(&mut lp, vec![1u8], None).unwrap();
    client.shutdown(&mut lp, Some(51)).unwrap();
    assert_eq!(client.shutdown(&mut lp, Some(52)), Err(Error::Busy));
}

#[test]
fn closing_a_stream_cancels_its_queued_requests() {
    let mut lp = Loop::new().unwrap();
    let (_server, client) = established_pair(&mut lp);
    let w = client.write(&mut lp, vec![1u8], Some(41)).unwrap();
    let sh = client.shutdown(&mut lp, Some(51)).unwrap();
    lp.close_handle(client.to_handle(), Some(61)).unwrap();
    let invs = lp.run_iteration(2, &Vec::new());
    assert_eq!(invs.len(), 3);
    assert_eq!(
        invs[0],
        Invocation::WriteCallback { cb: 41, req: w, status: Err(Error::Cancelled) }
    );
    assert_eq!(
        invs[1],
        Invocation::ShutdownCallback { cb: 51, req: sh, status: Err(Error::Cancelled) }
    );
    assert_eq!(
        invs[2],
        Invocation::CloseCallback { cb: 61, handle: client.to_handle() }
    );
    assert!(lp.get_payload(client.to_handle()).is_none());
}

#[test]
fn write2_requires_a_server_or_established_send_handle() {
    let mut lp = Loop::new().unwrap();
    let (server, client) = established_pair(&mut lp);
    let fresh = lp.stream().unwrap();
    assert_eq!(
        client.write2(&mut lp, &fresh, vec![1u8], None),
        Err(Error::InvalidArgument)
    );
    let r = client.write2(&mut lp, &server, vec![1u8], Some(41));
    assert!(r.is_ok());
    assert_eq!(r.unwrap(), WriteReq { stream: client.id, id: 0 });
}

#[test]
fn set_blocking_keeps_completion_asynchronous() {
    let mut lp = Loop::new().unwrap();
    let (_server, client) = established_pair(&mut lp);
    client.set_blocking(&mut lp, true).unwrap();
    let w = client.write(&mut lp, vec![6u8], Some(41)).unwrap();
    let invs = lp.run_iteration(2, &vec![Event::WritesFlushed { stream: client, count: 1 }]);
    assert_eq!(
        invs[0],
        Invocation::WriteCallback { cb: 41, req: w, status: Ok(()) }
    );
}

#[test]
fn stream_capability_is_reachable_through_the_trait() {
    let mut lp = Loop::new().unwrap();
    let s = lp.stream().unwrap();
    let via_trait = s.stream_handle();
    assert_eq!(via_trait, s);
    assert!(!via_trait.is_writable(&lp));
}
