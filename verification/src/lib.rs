//! A minimal TCP transport model: the lowest layer of a node-to-node
//! communication stack. The library holds the verified core — the listener
//! lifecycle state machine, the address grammar, and the send / receive /
//! broadcast outcome logic. The surrounding application performs the actual
//! socket I/O and feeds its outcomes back into these functions.

mod address;
mod errors;
mod transport;

pub use address::parse_ip_address;
pub use address::parse_ipv4;
pub use address::parse_port;
pub use address::resolve_host_port;
pub use address::resolve_token;
pub use address::PeerAddress;
pub use errors::NetworkError;
pub use transport::NetworkLayer;
pub use transport::ReceiveEvent;
pub use transport::SendEvent;
pub use transport::TCPManager;
