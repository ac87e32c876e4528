use ucx_rpc::endpoint::{Endpoint, StatusPtr};
use ucx_rpc::engine::Address;
use ucx_rpc::listener::Listener;
use ucx_rpc::status::{ConnectError, Error, OpError};
use ucx_rpc::worker::Worker;

fn connected_pair(w: &mut Worker, port: u16) -> (Endpoint, Endpoint) {
    let addr = Address { ip: 0x0a00_0001, port };
    let listener = Listener::create(w, addr).unwrap();
    let client = Endpoint::from_sockaddr(w, addr).unwrap();
    w.progress();
    let req = listener.poll(w).unwrap();
    let server = Endpoint::from_conn_req(w, req).unwrap();
    (client, server)
}

#[test]
fn teardown_issues_forced_close_exactly_once_when_open() {
    let mut w = Worker::new();
    let (client, _server) = connected_pair(&mut w, 30001);
    let closes = w.engine.forced_closes;
    assert!(!client.is_closed(&w));
    client.close(&mut w);
    assert_eq!(w.engine.forced_closes, closes + 1);
}

#[test]
fn teardown_skips_forced_close_after_peer_failure() {
    let mut w = Worker::new();
    let (client, server) = connected_pair(&mut w, 30002);
    let closes = w.engine.forced_closes;
    server.close(&mut w);
    assert_eq!(w.engine.forced_closes, closes + 1);
    assert!(!client.is_closed(&w));
    w.progress();
    assert!(client.is_closed(&w));
    let steps = w.engine.steps;
    client.close(&mut w);
    assert_eq!(w.engine.forced_closes, closes + 1);
    assert_eq!(w.engine.steps, steps);
}

#[test]
fn peer_failure_resolves_pending_receive_with_reset() {
    let mut w = Worker::new();
    let (client, server) = connected_pair(&mut w, 30003);
    let rx = client.tag_recv(&mut w, vec![0u8; 16], 1, u64::MAX);
    server.close(&mut w);
    assert!(matches!(
        rx.wait(&mut w),
        Err(OpError::Engine(Error::ConnectionReset))
    ));
}

#[test]
fn receive_on_closed_channel_resolves_with_reset() {
    let mut w = Worker::new();
    let (client, server) = connected_pair(&mut w, 30004);
    server.close(&mut w);
    w.progress();
    assert!(client.is_closed(&w));
    let rx = client.tag_recv(&mut w, vec![0u8; 16], 1, 0);
    assert!(matches!(&rx, StatusPtr::Pending(_)));
    assert!(matches!(
        rx.wait(&mut w),
        Err(OpError::Engine(Error::ConnectionReset))
    ));
}

#[test]
fn connect_to_unbound_address_is_unreachable() {
    let mut w = Worker::new();
    let addr = Address { ip: 9, port: 9 };
    let r = Endpoint::from_sockaddr(&mut w, addr);
    assert!(matches!(r, Err(ConnectError::Engine(Error::Unreachable))));
}
