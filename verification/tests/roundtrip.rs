use ucx_rpc::endpoint::{Endpoint, StatusPtr};
use ucx_rpc::engine::Address;
use ucx_rpc::listener::Listener;
use ucx_rpc::worker::Worker;

#[test]
fn tagged_round_trip_delivers_payload() {
    let mut w = Worker::new();
    let addr = Address { ip: 0x7f00_0001, port: 10301 };
    let listener = Listener::create(&mut w, addr).unwrap();
    let client = Endpoint::from_sockaddr(&mut w, addr).unwrap();
    w.progress();
    let req = listener.poll(&mut w).unwrap();
    let server = Endpoint::from_conn_req(&mut w, req).unwrap();

    let tx = client.tag_send(&mut w, 99, b"Hello, World!");
    let rx = server.tag_recv(&mut w, vec![0u8; 256], 99, 0);
    assert!(matches!(tx.wait(&mut w), Ok(None)));
    let buf = rx.wait(&mut w).unwrap().unwrap();
    assert_eq!(buf.len(), 256);
    assert_eq!(&buf[..13], b"Hello, World!");
    for i in 13..256 {
        assert_eq!(buf[i], 0u8);
    }
}

#[test]
fn both_directions_carry_messages() {
    let mut w = Worker::new();
    let addr = Address { ip: 1, port: 7 };
    let listener = Listener::create(&mut w, addr).unwrap();
    let client = Endpoint::from_sockaddr(&mut w, addr).unwrap();
    w.progress();
    let req = listener.poll(&mut w).unwrap();
    let server = Endpoint::from_conn_req(&mut w, req).unwrap();

    let tx = client.tag_send(&mut w, 99, b"ping");
    let rx = server.tag_recv(&mut w, vec![0u8; 4], 99, 0);
    assert!(matches!(tx.wait(&mut w), Ok(None)));
    assert_eq!(rx.wait(&mut w).unwrap().unwrap(), b"ping".to_vec());

    let tx2 = server.tag_send(&mut w, 101, b"pong");
    let rx2 = client.tag_recv(&mut w, vec![0u8; 4], 101, 0);
    assert!(matches!(tx2.wait(&mut w), Ok(None)));
    assert_eq!(rx2.wait(&mut w).unwrap().unwrap(), b"pong".to_vec());
}

#[test]
fn empty_send_completes_inline_and_still_delivers() {
    let mut w = Worker::new();
    let addr = Address { ip: 2, port: 8 };
    let listener = Listener::create(&mut w, addr).unwrap();
    let client = Endpoint::from_sockaddr(&mut w, addr).unwrap();
    w.progress();
    let req = listener.poll(&mut w).unwrap();
    let server = Endpoint::from_conn_req(&mut w, req).unwrap();

    let tx = client.tag_send(&mut w, 7, b"");
    assert!(matches!(&tx, StatusPtr::Resolved(0)));
    let rx = server.tag_recv(&mut w, vec![9u8; 4], 7, u64::MAX);
    assert!(matches!(tx.wait(&mut w), Ok(None)));
    let buf = rx.wait(&mut w).unwrap().unwrap();
    assert_eq!(buf, vec![9u8; 4]);
}
