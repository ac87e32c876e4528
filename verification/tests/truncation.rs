use ucx_rpc::endpoint::Endpoint;
use ucx_rpc::engine::Address;
use ucx_rpc::listener::Listener;
use ucx_rpc::status::{Error, OpError, STATUS_IN_PROGRESS};
use ucx_rpc::worker::Worker;

fn matched_pair(w: &mut Worker, port: u16) -> (Endpoint, Endpoint) {
    let addr = Address { ip: 4, port };
    let listener = Listener::create(w, addr).unwrap();
    let client = Endpoint::from_sockaddr(w, addr).unwrap();
    w.progress();
    let req = listener.poll(w).unwrap();
    let server = Endpoint::from_conn_req(w, req).unwrap();
    (client, server)
}

#[test]
fn oversized_message_fails_receive_with_truncation() {
    let mut w = Worker::new();
    let (client, server) = matched_pair(&mut w, 50001);
    let tx = client.tag_send(&mut w, 5, b"Hello, World!");
    let rx = server.tag_recv(&mut w, vec![0u8; 8], 5, 0);
    assert!(matches!(tx.wait(&mut w), Ok(None)));
    assert!(matches!(
        rx.wait(&mut w),
        Err(OpError::Engine(Error::MessageTruncated))
    ));
}

#[test]
fn undersized_message_overwrites_prefix_only() {
    let mut w = Worker::new();
    let (client, server) = matched_pair(&mut w, 50002);
    let tx = client.tag_send(&mut w, 5, b"abc");
    let rx = server.tag_recv(&mut w, vec![7u8; 6], 5, 0);
    assert!(matches!(tx.wait(&mut w), Ok(None)));
    let buf = rx.wait(&mut w).unwrap().unwrap();
    assert_eq!(buf, vec![b'a', b'b', b'c', 7, 7, 7]);
}

#[test]
fn mismatched_tag_leaves_receive_pending() {
    let mut w = Worker::new();
    let (client, server) = matched_pair(&mut w, 50003);
    let tx = client.tag_send(&mut w, 5, b"data");
    let rx = server.tag_recv(&mut w, vec![0u8; 16], 6, u64::MAX);
    assert!(matches!(tx.wait(&mut w), Ok(None)));
    w.progress();
    w.progress();
    assert_eq!(rx.status(&w), STATUS_IN_PROGRESS);
    rx.release(&mut w);
}

#[test]
fn mask_selects_which_tag_bits_must_agree() {
    let mut w = Worker::new();
    let (client, server) = matched_pair(&mut w, 50004);
    let tx = client.tag_send(&mut w, 0b1010, b"bits");
    let rx = server.tag_recv(&mut w, vec![0u8; 4], 0b0010, 0b0011);
    assert!(matches!(tx.wait(&mut w), Ok(None)));
    assert_eq!(rx.wait(&mut w).unwrap().unwrap(), b"bits".to_vec());
}

#[test]
fn zero_mask_matches_any_tag() {
    let mut w = Worker::new();
    let (client, server) = matched_pair(&mut w, 50005);
    let tx = client.tag_send(&mut w, 0xdead_beef, b"any");
    let rx = server.tag_recv(&mut w, vec![0u8; 3], 0, 0);
    assert!(matches!(tx.wait(&mut w), Ok(None)));
    assert_eq!(rx.wait(&mut w).unwrap().unwrap(), b"any".to_vec());
}
