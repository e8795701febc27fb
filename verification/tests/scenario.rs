//! Scenario tests that walk the transport through whole operations the way
//! an embedding application would: every decision and every outcome goes
//! through the transport core, and the wire is simulated as what it is —
//! the exact bytes the sender wrote, delimited by end-of-stream.

use tcp_transport::NetworkError;
use tcp_transport::NetworkLayer;
use tcp_transport::PeerAddress;
use tcp_transport::ReceiveEvent;
use tcp_transport::SendEvent;
use tcp_transport::TCPManager;

fn peer(o0: u8, o1: u8, o2: u8, o3: u8, port: u16) -> PeerAddress {
    PeerAddress { o0, o1, o2, o3, port }
}

#[test]
fn test_send() {
    let mut network = TCPManager::new("127.0.0.1".to_string(), 8082);
    let data = vec![1, 2, 3];

    let target = network.open_target().unwrap();
    assert_eq!(target, peer(127, 0, 0, 1, 8082));
    network.open_complete(true).unwrap();

    // The sender dials the local listener and writes the payload; the
    // connection carries exactly those bytes.
    let dialed = network.send_target("127.0.0.1", "8082").unwrap();
    assert_eq!(dialed, target);
    let mut connections = vec![data.clone(), Vec::new()];
    network.send_complete(SendEvent::Sent).unwrap();

    // The receive loop: an empty payload is skipped, the real one observed.
    loop {
        let event = if network.should_accept() {
            connections.pop().map(ReceiveEvent::Delivered)
        } else {
            None
        };
        let data = network.receive_result(event).unwrap();
        if data.is_empty() {
            continue;
        } else {
            assert_eq!(data, vec![1, 2, 3]);
            break;
        }
    }

    network.close().unwrap();
}

#[test]
fn broadcast_reaches_every_listener() {
    let sender = TCPManager::new("127.0.0.1".to_string(), 8090);
    let payload = vec![9, 8, 7];

    let mut listeners = vec![
        TCPManager::new("127.0.0.1".to_string(), 8091),
        TCPManager::new("127.0.0.1".to_string(), 8092),
    ];
    for l in listeners.iter_mut() {
        l.open_complete(true).unwrap();
    }

    let addresses = vec!["127.0.0.1:8091".to_string(), "127.0.0.1:8092".to_string()];
    let peers = sender.broadcast_targets(&addresses).unwrap();
    assert_eq!(peers, vec![peer(127, 0, 0, 1, 8091), peer(127, 0, 0, 1, 8092)]);

    // Every dial succeeds and hands each listener the one payload.
    let mut events = Vec::new();
    for (_p, l) in peers.iter().zip(listeners.iter()) {
        assert!(l.should_accept());
        events.push(SendEvent::Sent);
        let got = l
            .receive_result(Some(ReceiveEvent::Delivered(payload.clone())))
            .unwrap();
        assert_eq!(got, vec![9, 8, 7]);
    }
    assert_eq!(sender.broadcast_complete(&events), Ok(()));
}

#[test]
fn broadcast_with_unreachable_peer_fails() {
    let sender = TCPManager::new("127.0.0.1".to_string(), 8093);
    let payload = vec![4, 5];

    let mut listener = TCPManager::new("127.0.0.1".to_string(), 8094);
    listener.open_complete(true).unwrap();

    // Nothing listens on the second address.
    let addresses = vec!["127.0.0.1:8094".to_string(), "127.0.0.1:8095".to_string()];
    let peers = sender.broadcast_targets(&addresses).unwrap();
    assert_eq!(peers.len(), 2);

    let got = listener
        .receive_result(Some(ReceiveEvent::Delivered(payload.clone())))
        .unwrap();
    assert_eq!(got, vec![4, 5]);
    let events = vec![SendEvent::Sent, SendEvent::ConnectFailed];

    let aggregate = sender.broadcast_complete(&events);
    assert_eq!(aggregate, Err(NetworkError::ConnectError));
}
