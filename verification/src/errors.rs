//! The error taxonomy of the transport. Every failure an operation can
//! report is one of these kinds; no error is fatal to the transport
//! instance.

use vstd::prelude::*;

verus! {

/// The ways a transport operation can fail.
#[derive(Clone, Copy, Debug, PartialEq, Eq, Structural)]
pub enum NetworkError {
    /// `open` was called while the transport was already listening.
    AlreadyOpen,
    /// `close` was called while the transport was not listening.
    NotOpen,
    /// A peer address token or a host/port pair did not match the
    /// transport's address grammar.
    AddressParseError,
    /// The configured local address could not be resolved or the listener
    /// could not be bound to it.
    BindError,
    /// Dialing a peer failed before any byte was written.
    ConnectError,
    /// Reading from or writing to an established connection failed.
    IoError,
}

} // verus!
