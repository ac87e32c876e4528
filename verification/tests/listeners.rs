use ucx_rpc::endpoint::Endpoint;
use ucx_rpc::engine::Address;
use ucx_rpc::listener::{ConnectionRequest, Listener};
use ucx_rpc::status::{AcceptError, BindError, Error};
use ucx_rpc::worker::Worker;

#[test]
fn n_attempts_dispatch_as_n_distinct_single_use_requests() {
    let mut w = Worker::new();
    let addr = Address { ip: 3, port: 40001 };
    let listener = Listener::create(&mut w, addr).unwrap();
    let _c1 = Endpoint::from_sockaddr(&mut w, addr).unwrap();
    let _c2 = Endpoint::from_sockaddr(&mut w, addr).unwrap();
    let _c3 = Endpoint::from_sockaddr(&mut w, addr).unwrap();
    w.progress();
    let r1 = listener.poll(&mut w).unwrap();
    let r2 = listener.poll(&mut w).unwrap();
    let r3 = listener.poll(&mut w).unwrap();
    assert!(listener.poll(&mut w).is_none());
    assert_ne!(r1.id, r2.id);
    assert_ne!(r1.id, r3.id);
    assert_ne!(r2.id, r3.id);
    assert!(Endpoint::from_conn_req(&mut w, r1).is_ok());
    assert!(Endpoint::from_conn_req(&mut w, r2).is_ok());
    assert!(Endpoint::from_conn_req(&mut w, r3).is_ok());
}

#[test]
fn reusing_a_consumed_request_id_fails_cleanly() {
    let mut w = Worker::new();
    let addr = Address { ip: 3, port: 40002 };
    let listener = Listener::create(&mut w, addr).unwrap();
    let _client = Endpoint::from_sockaddr(&mut w, addr).unwrap();
    w.progress();
    let req = listener.poll(&mut w).unwrap();
    let id = req.id;
    assert!(Endpoint::from_conn_req(&mut w, req).is_ok());
    let forged = ConnectionRequest { id };
    assert!(matches!(
        Endpoint::from_conn_req(&mut w, forged),
        Err(AcceptError::Stale)
    ));
}

#[test]
fn destroying_listener_makes_outstanding_request_stale() {
    let mut w = Worker::new();
    let addr = Address { ip: 3, port: 40003 };
    let listener = Listener::create(&mut w, addr).unwrap();
    let _client = Endpoint::from_sockaddr(&mut w, addr).unwrap();
    w.progress();
    let req = listener.poll(&mut w).unwrap();
    listener.destroy(&mut w);
    assert!(matches!(
        Endpoint::from_conn_req(&mut w, req),
        Err(AcceptError::Stale)
    ));
}

#[test]
fn destroying_listener_kills_queued_requests() {
    let mut w = Worker::new();
    let addr = Address { ip: 3, port: 40004 };
    let listener = Listener::create(&mut w, addr).unwrap();
    let _client = Endpoint::from_sockaddr(&mut w, addr).unwrap();
    w.progress();
    listener.destroy(&mut w);
    let forged = ConnectionRequest { id: 0 };
    assert!(matches!(
        Endpoint::from_conn_req(&mut w, forged),
        Err(AcceptError::Stale)
    ));
}

#[test]
fn binding_a_bound_address_is_busy() {
    let mut w = Worker::new();
    let addr = Address { ip: 3, port: 40005 };
    let _listener = Listener::create(&mut w, addr).unwrap();
    assert!(matches!(
        Listener::create(&mut w, addr),
        Err(BindError::Engine(Error::Busy))
    ));
}

#[test]
fn rebinding_after_destroy_succeeds() {
    let mut w = Worker::new();
    let addr = Address { ip: 3, port: 40006 };
    let listener = Listener::create(&mut w, addr).unwrap();
    listener.destroy(&mut w);
    assert!(Listener::create(&mut w, addr).is_ok());
}
