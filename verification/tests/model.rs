use tcp_transport::parse_ip_address;
use tcp_transport::parse_ipv4;
use tcp_transport::parse_port;
use tcp_transport::resolve_host_port;
use tcp_transport::resolve_token;
use tcp_transport::NetworkError;
use tcp_transport::NetworkLayer;
use tcp_transport::PeerAddress;
use tcp_transport::ReceiveEvent;
use tcp_transport::SendEvent;
use tcp_transport::TCPManager;

fn peer(o0: u8, o1: u8, o2: u8, o3: u8, port: u16) -> PeerAddress {
    PeerAddress { o0, o1, o2, o3, port }
}

#[test]
fn lifecycle_open_once_close_once() {
    let mut t = TCPManager::new("127.0.0.1".to_string(), 8082);
    assert_eq!(t.open_target(), Ok(peer(127, 0, 0, 1, 8082)));
    assert_eq!(t.open_complete(true), Ok(()));
    assert_eq!(t.open_target(), Err(NetworkError::AlreadyOpen));
    assert_eq!(t.open_complete(true), Err(NetworkError::AlreadyOpen));
    assert_eq!(t.close(), Ok(()));
    assert_eq!(t.close(), Err(NetworkError::NotOpen));
    assert_eq!(t.open_target(), Ok(peer(127, 0, 0, 1, 8082)));
}

#[test]
fn lifecycle_failed_bind_leaves_state() {
    let mut t = TCPManager::new("10.0.0.7".to_string(), 9000);
    assert_eq!(t.open_complete(false), Err(NetworkError::BindError));
    assert!(!t.should_accept());
    assert_eq!(t.open_complete(true), Ok(()));
    assert!(t.should_accept());
}

#[test]
fn lifecycle_unresolvable_address_is_bind_error() {
    let mut t = TCPManager::new("localhost".to_string(), 8082);
    assert_eq!(t.open_target(), Err(NetworkError::BindError));
    assert_eq!(t.open_complete(true), Err(NetworkError::BindError));
    assert!(!t.should_accept());
}

#[test]
fn receive_on_unopened_transport_is_empty() {
    let t = TCPManager::new("127.0.0.1".to_string(), 8082);
    assert!(!t.should_accept());
    assert_eq!(t.receive_result(None), Ok(Vec::new()));
    assert_eq!(
        t.receive_result(Some(ReceiveEvent::Delivered(vec![5, 6]))),
        Ok(Vec::new())
    );
    assert_eq!(t.receive_result(Some(ReceiveEvent::AcceptFailed)), Ok(Vec::new()));
}

#[test]
fn receive_on_open_transport_returns_payload() {
    let mut t = TCPManager::new("127.0.0.1".to_string(), 8082);
    assert_eq!(t.open_complete(true), Ok(()));
    assert!(t.should_accept());
    assert_eq!(
        t.receive_result(Some(ReceiveEvent::Delivered(vec![1, 2, 3]))),
        Ok(vec![1, 2, 3])
    );
    assert_eq!(t.receive_result(Some(ReceiveEvent::Delivered(Vec::new()))), Ok(Vec::new()));
    assert_eq!(
        t.receive_result(Some(ReceiveEvent::AcceptFailed)),
        Err(NetworkError::IoError)
    );
    assert_eq!(
        t.receive_result(Some(ReceiveEvent::ReadFailed)),
        Err(NetworkError::IoError)
    );
    assert_eq!(t.receive_result(None), Err(NetworkError::IoError));
}

#[test]
fn send_target_resolves_or_rejects() {
    let t = TCPManager::new("127.0.0.1".to_string(), 8082);
    assert_eq!(t.send_target("127.0.0.1", "8082"), Ok(peer(127, 0, 0, 1, 8082)));
    assert_eq!(t.send_target("10.20.30.40", "0"), Ok(peer(10, 20, 30, 40, 0)));
    assert_eq!(
        t.send_target("127.0.0.1", "70000"),
        Err(NetworkError::AddressParseError)
    );
    assert_eq!(t.send_target("256.0.0.1", "80"), Err(NetworkError::AddressParseError));
    assert_eq!(t.send_target("example.org", "80"), Err(NetworkError::AddressParseError));
}

#[test]
fn send_complete_maps_each_outcome() {
    let t = TCPManager::new("127.0.0.1".to_string(), 8082);
    assert_eq!(t.send_complete(SendEvent::Sent), Ok(()));
    assert_eq!(
        t.send_complete(SendEvent::ConnectFailed),
        Err(NetworkError::ConnectError)
    );
    assert_eq!(t.send_complete(SendEvent::WriteFailed), Err(NetworkError::IoError));
}

#[test]
fn broadcast_targets_resolve_every_token() {
    let t = TCPManager::new("127.0.0.1".to_string(), 8082);
    let addrs = vec!["127.0.0.1:1".to_string(), "10.0.0.2:65535".to_string()];
    assert_eq!(
        t.broadcast_targets(&addrs),
        Ok(vec![peer(127, 0, 0, 1, 1), peer(10, 0, 0, 2, 65535)])
    );
    assert_eq!(t.broadcast_targets(&Vec::new()), Ok(Vec::new()));
}

#[test]
fn broadcast_targets_reject_any_bad_token() {
    let t = TCPManager::new("127.0.0.1".to_string(), 8082);
    let addrs = vec!["127.0.0.1:1".to_string(), "127.0.0.1".to_string()];
    assert_eq!(t.broadcast_targets(&addrs), Err(NetworkError::AddressParseError));
}

#[test]
fn broadcast_complete_succeeds_only_when_all_sent() {
    let t = TCPManager::new("127.0.0.1".to_string(), 8082);
    assert_eq!(t.broadcast_complete(&Vec::new()), Ok(()));
    assert_eq!(
        t.broadcast_complete(&vec![SendEvent::Sent, SendEvent::Sent, SendEvent::Sent]),
        Ok(())
    );
}

#[test]
fn broadcast_complete_surfaces_first_failure() {
    let t = TCPManager::new("127.0.0.1".to_string(), 8082);
    assert_eq!(
        t.broadcast_complete(&vec![
            SendEvent::Sent,
            SendEvent::ConnectFailed,
            SendEvent::WriteFailed,
        ]),
        Err(NetworkError::ConnectError)
    );
    assert_eq!(
        t.broadcast_complete(&vec![SendEvent::WriteFailed, SendEvent::ConnectFailed]),
        Err(NetworkError::IoError)
    );
    assert_eq!(
        t.broadcast_complete(&vec![SendEvent::Sent, SendEvent::Sent, SendEvent::WriteFailed]),
        Err(NetworkError::IoError)
    );
}

#[test]
fn port_grammar_exact_values() {
    assert_eq!(parse_port("8082"), Some(8082));
    assert_eq!(parse_port("0"), Some(0));
    assert_eq!(parse_port("007"), Some(7));
    assert_eq!(parse_port("65535"), Some(65535));
    assert_eq!(parse_port("65536"), None);
    assert_eq!(parse_port(""), None);
    assert_eq!(parse_port("123456"), None);
    assert_eq!(parse_port("12a"), None);
    assert_eq!(parse_port("-1"), None);
}

#[test]
fn host_grammar_exact_values() {
    assert_eq!(parse_ipv4("127.0.0.1"), Some((127, 0, 0, 1)));
    assert_eq!(parse_ipv4("0.0.0.0"), Some((0, 0, 0, 0)));
    assert_eq!(parse_ipv4("255.255.255.255"), Some((255, 255, 255, 255)));
    assert_eq!(parse_ipv4("256.1.1.1"), None);
    assert_eq!(parse_ipv4("01.2.3.4"), None);
    assert_eq!(parse_ipv4("1.2.3"), None);
    assert_eq!(parse_ipv4("1.2.3.4.5"), None);
    assert_eq!(parse_ipv4("1.2.3.4 "), None);
    assert_eq!(parse_ipv4("1..3.4"), None);
    assert_eq!(parse_ipv4(""), None);
    assert_eq!(parse_ipv4("localhost"), None);
}

#[test]
fn token_grammar_exact_values() {
    assert_eq!(resolve_token("127.0.0.1:8082"), Some(peer(127, 0, 0, 1, 8082)));
    assert_eq!(resolve_token("127.0.0.1"), None);
    assert_eq!(resolve_token("127.0.0.1:"), None);
    assert_eq!(resolve_token(":80"), None);
    assert_eq!(resolve_token("127.0.0.1:8082:1"), None);
    assert_eq!(resolve_token("127.0.0.1:99999"), None);
}

#[test]
fn resolver_splits_host_and_port() {
    assert_eq!(parse_ip_address("127.0.0.1:8082"), Some(("127.0.0.1", "8082")));
    assert_eq!(parse_ip_address("10.1.2.3:0"), Some(("10.1.2.3", "0")));
    assert_eq!(parse_ip_address("127.0.0.1"), None);
    assert_eq!(parse_ip_address("nonsense"), None);
}

#[test]
fn host_port_pair_resolves_like_its_parts() {
    assert_eq!(resolve_host_port("127.0.0.1", "8082"), Some(peer(127, 0, 0, 1, 8082)));
    assert_eq!(resolve_host_port("127.0.0.1", "x"), None);
    assert_eq!(resolve_host_port("127.0.0", "80"), None);
}
