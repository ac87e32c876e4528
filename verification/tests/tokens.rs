use ucx_rpc::endpoint::{Endpoint, StatusPtr};
use ucx_rpc::engine::Address;
use ucx_rpc::listener::Listener;
use ucx_rpc::status::{Error, OpError};
use ucx_rpc::worker::Worker;

fn loopback_pair(w: &mut Worker, port: u16) -> (Endpoint, Endpoint) {
    let addr = Address { ip: 0x7f00_0001, port };
    let listener = Listener::create(w, addr).unwrap();
    let client = Endpoint::from_sockaddr(w, addr).unwrap();
    w.progress();
    let req = listener.poll(w).unwrap();
    let server = Endpoint::from_conn_req(w, req).unwrap();
    (client, server)
}

#[test]
fn wait_on_resolved_token_never_steps() {
    let mut w = Worker::new();
    let (client, _server) = loopback_pair(&mut w, 20001);
    let tx = client.tag_send(&mut w, 1, b"");
    assert!(matches!(&tx, StatusPtr::Resolved(0)));
    let steps = w.engine.steps;
    assert!(matches!(tx.wait(&mut w), Ok(None)));
    assert_eq!(w.engine.steps, steps);
}

#[test]
fn wait_on_resolved_error_token_never_steps() {
    let mut w = Worker::new();
    let (client, server) = loopback_pair(&mut w, 20002);
    server.close(&mut w);
    w.progress();
    assert!(client.is_closed(&w));
    let tx = client.tag_send(&mut w, 1, b"x");
    assert!(matches!(&tx, StatusPtr::Resolved(-25)));
    let steps = w.engine.steps;
    assert!(matches!(
        tx.wait(&mut w),
        Err(OpError::Engine(Error::ConnectionReset))
    ));
    assert_eq!(w.engine.steps, steps);
}

#[test]
fn wait_on_pending_token_steps_at_least_once() {
    let mut w = Worker::new();
    let (client, _server) = loopback_pair(&mut w, 20003);
    let tx = client.tag_send(&mut w, 1, b"data");
    let steps = w.engine.steps;
    assert!(matches!(tx.wait(&mut w), Ok(None)));
    assert!(w.engine.steps > steps);
}

#[test]
fn wait_on_already_completed_pending_token_still_steps_once() {
    let mut w = Worker::new();
    let (client, _server) = loopback_pair(&mut w, 20004);
    let tx = client.tag_send(&mut w, 1, b"data");
    w.progress();
    assert_eq!(tx.status(&w), 0);
    let steps = w.engine.steps;
    assert!(matches!(tx.wait(&mut w), Ok(None)));
    assert_eq!(w.engine.steps, steps + 1);
}

#[test]
fn releasing_pending_token_frees_its_handle_exactly_once() {
    let mut w = Worker::new();
    let (client, _server) = loopback_pair(&mut w, 20005);
    let allocs = w.engine.allocs;
    let frees = w.engine.frees;
    let tx = client.tag_send(&mut w, 1, b"payload");
    assert_eq!(w.engine.allocs, allocs + 1);
    assert_eq!(w.engine.frees, frees);
    tx.release(&mut w);
    assert_eq!(w.engine.allocs, allocs + 1);
    assert_eq!(w.engine.frees, frees + 1);
}

#[test]
fn releasing_resolved_token_is_a_no_op() {
    let mut w = Worker::new();
    let (client, _server) = loopback_pair(&mut w, 20006);
    let allocs = w.engine.allocs;
    let frees = w.engine.frees;
    let tx = client.tag_send(&mut w, 1, b"");
    tx.release(&mut w);
    assert_eq!(w.engine.allocs, allocs);
    assert_eq!(w.engine.frees, frees);
}

#[test]
fn waiting_frees_the_handle_exactly_once() {
    let mut w = Worker::new();
    let (client, _server) = loopback_pair(&mut w, 20007);
    let tx = client.tag_send(&mut w, 1, b"payload");
    let frees = w.engine.frees;
    assert!(matches!(tx.wait(&mut w), Ok(None)));
    assert_eq!(w.engine.frees, frees + 1);
}
