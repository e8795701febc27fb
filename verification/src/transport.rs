//! The transport core: the listener lifecycle state machine and the
//! decision and outcome logic of the send, receive and broadcast paths.
//!
//! The transport cannot touch a socket itself; the surrounding application
//! does. Each operation is therefore split into the decision the transport
//! makes (whether to bind, whom to dial, whether to accept) and the
//! verified handling of the outcome the application reports back as an
//! event. A connection carries exactly one payload with no added framing:
//! the bytes a peer reads until end-of-stream are exactly the bytes that
//! were written, so the outcome logic below works on whole payloads.

use vstd::prelude::*;

verus! {

use crate::address::parse_ipv4;
use crate::address::resolve_host_port;
use crate::address::resolve_token;
use crate::address::spec_parse_ipv4;
use crate::address::spec_resolve_host_port;
use crate::address::spec_resolve_token;
use crate::address::PeerAddress;
use crate::errors::NetworkError;

/// What became of one point-to-point send: the dial and the write either
/// both succeeded or one of them failed.
#[derive(Clone, Copy, Debug, PartialEq, Eq, Structural)]
pub enum SendEvent {
    /// The connection was established and the whole payload was written.
    Sent,
    /// The dial failed before any byte was written.
    ConnectFailed,
    /// The write failed after the connection was established.
    WriteFailed,
}

/// What became of one accept/read on the listening socket.
#[derive(Debug, Clone)]
pub enum ReceiveEvent {
    /// A connection was accepted and read to end-of-stream; these are the
    /// accumulated bytes.
    Delivered(Vec<u8>),
    /// Accepting the inbound connection failed.
    AcceptFailed,
    /// Reading the accepted stream failed.
    ReadFailed,
}

/// The result a send reports for one completed dial-and-write.
pub open spec fn spec_send_outcome(event: SendEvent) -> Result<(), NetworkError> {
    match event {
        SendEvent::Sent => Ok(()),
        SendEvent::ConnectFailed => Err(NetworkError::ConnectError),
        SendEvent::WriteFailed => Err(NetworkError::IoError),
    }
}

/// The aggregate result of a broadcast: success only when every
/// constituent send succeeded, otherwise the error of the first failed
/// send, with no per-peer attribution.
pub open spec fn spec_broadcast_outcome(events: Seq<SendEvent>) -> Result<(), NetworkError>
    decreases events.len(),
{
    if events.len() == 0 {
        Ok(())
    } else if events[0] != SendEvent::Sent {
        spec_send_outcome(events[0])
    } else {
        spec_broadcast_outcome(events.drop_first())
    }
}

/// The payload a receive returns. On a transport that is not open it is
/// the empty payload, silently; on an open transport it is exactly the
/// delivered bytes, and a failed accept or read surfaces as an I/O error.
pub open spec fn spec_receive(open: bool, event: Option<ReceiveEvent>) -> Result<
    Seq<u8>,
    NetworkError,
> {
    if !open {
        Ok(Seq::empty())
    } else {
        match event {
            Some(ReceiveEvent::Delivered(d)) => Ok(d@),
            _ => Err(NetworkError::IoError),
        }
    }
}

/// The view of a payload result, for stating contracts over byte
/// sequences.
pub open spec fn payload_view(r: Result<Vec<u8>, NetworkError>) -> Result<
    Seq<u8>,
    NetworkError,
> {
    match r {
        Ok(v) => Ok(v@),
        Err(e) => Err(e),
    }
}

/// The capability set of a transport: open, close, send, receive and
/// broadcast, each split into its decision and its outcome handling. The
/// caller performs the socket work the decisions call for and feeds the
/// outcome back as an event.
pub trait NetworkLayer: Sized {
    /// Model: whether the transport currently holds its listener.
    spec fn listening(&self) -> bool;

    /// Model: the local address the transport binds when opened, absent
    /// when its configuration does not resolve.
    spec fn bind_addr(&self) -> Option<PeerAddress>;

    /// Model: the transport's internal invariant.
    spec fn inv(&self) -> bool;

    /// Model: the state transition `open_complete` performs.
    spec fn open_transition(&self, bound: bool) -> (Self, Result<(), NetworkError>);

    /// Model: the state transition `close` performs.
    spec fn close_transition(&self) -> (Self, Result<(), NetworkError>);

    /// The decision of `open`: rejected with `AlreadyOpen` while
    /// listening, rejected with `BindError` when the configured address
    /// does not resolve, and otherwise the address to bind.
    fn open_target(&self) -> (r: Result<PeerAddress, NetworkError>)
        ensures
            self.listening() ==> r == Err::<PeerAddress, NetworkError>(NetworkError::AlreadyOpen),
            !self.listening() && self.bind_addr() is None ==> r == Err::<
                PeerAddress,
                NetworkError,
            >(NetworkError::BindError),
            !self.listening() ==> (self.bind_addr() matches Some(a) ==> r == Ok::<
                PeerAddress,
                NetworkError,
            >(a)),
    ;

    /// Completes `open` once the caller has tried to bind: the transition
    /// `open_transition` describes, taking the listener exactly when the
    /// bind succeeded on a transport that was not already open.
    fn open_complete(&mut self, bound: bool) -> (r: Result<(), NetworkError>)
        ensures
            (*final(self), r) == old(self).open_transition(bound),
            old(self).inv() ==> final(self).inv(),
    ;

    /// `close`: rejected with `NotOpen` while not listening, otherwise
    /// releases the listener.
    fn close(&mut self) -> (r: Result<(), NetworkError>)
        ensures
            (*final(self), r) == old(self).close_transition(),
            old(self).inv() ==> final(self).inv(),
    ;

    /// The decision of `receive`: accept one inbound connection exactly
    /// while the transport is listening.
    fn should_accept(&self) -> (b: bool)
        ensures
            b == self.listening(),
    ;

    /// Completes `receive`: exactly the delivered bytes on an open
    /// transport, an I/O error when the accept or the read failed, and
    /// silently the empty payload when the transport is not open.
    fn receive_result(&self, event: Option<ReceiveEvent>) -> (r: Result<Vec<u8>, NetworkError>)
        ensures
            payload_view(r) == spec_receive(self.listening(), event),
    ;

    /// The decision of `send`: the peer to dial, or `AddressParseError`
    /// when the host/port pair breaks the address grammar. Sending does
    /// not require the local transport to be open.
    fn send_target(&self, host: &str, port: &str) -> (r: Result<PeerAddress, NetworkError>)
        ensures
            spec_resolve_host_port(host@, port@) matches Some(a) ==> r == Ok::<
                PeerAddress,
                NetworkError,
            >(a),
            spec_resolve_host_port(host@, port@) is None ==> r == Err::<
                PeerAddress,
                NetworkError,
            >(NetworkError::AddressParseError),
    ;

    /// Completes `send`: maps what became of the dial and the write to
    /// the operation's result.
    fn send_complete(&self, event: SendEvent) -> (r: Result<(), NetworkError>)
        ensures
            r == spec_send_outcome(event),
    ;

    /// The decision of `broadcast`: every address token resolved, or
    /// `AddressParseError` when any token breaks the grammar. All peers
    /// are dialed with the one payload only after every token resolved.
    fn broadcast_targets(&self, addresses: &Vec<String>) -> (r: Result<
        Vec<PeerAddress>,
        NetworkError,
    >)
        ensures
            r matches Ok(v) ==> v@.len() == addresses@.len() && forall|i: int|
                0 <= i < addresses@.len() ==> spec_resolve_token(#[trigger] addresses@[i]@)
                    == Some(v@[i]),
            r is Err ==> r == Err::<Vec<PeerAddress>, NetworkError>(NetworkError::AddressParseError)
                && exists|i: int|
                0 <= i < addresses@.len() && spec_resolve_token(#[trigger] addresses@[i]@) is None,
    ;

    /// Completes `broadcast`: success only when every constituent send
    /// succeeded, otherwise the first send error.
    fn broadcast_complete(&self, events: &Vec<SendEvent>) -> (r: Result<(), NetworkError>)
        ensures
            r == spec_broadcast_outcome(events@),
    ;
}

/// The TCP transport: a configured local address and port, the listener
/// it holds while open, and the lifecycle flag. The listener is modeled
/// by the address it is bound to; the application owns the socket itself
/// and keeps both behind its exclusive-access guards.
#[derive(Debug, Clone)]
pub struct TCPManager {
    /// The configured local host, as a dotted-quad string.
    pub address: String,
    /// The configured local port.
    pub port: u16,
    /// The bound listener while open; absent otherwise.
    pub listener: Option<PeerAddress>,
    /// The lifecycle flag: true exactly while the listener is held.
    pub is_open: bool,
}

impl TCPManager {
    /// The address the configuration resolves to, if it is within the
    /// grammar.
    pub open spec fn spec_bind_addr(&self) -> Option<PeerAddress> {
        match spec_parse_ipv4(self.address@) {
            Some(q) => Some(PeerAddress { o0: q.0, o1: q.1, o2: q.2, o3: q.3, port: self.port }),
            None => None,
        }
    }

    /// The lifecycle invariant: the listener is held exactly while the
    /// transport is open, and it is bound to the configured address.
    pub open spec fn wf(&self) -> bool {
        &&& self.is_open <==> self.listener is Some
        &&& (self.listener matches Some(a) ==> Some(a) == self.spec_bind_addr())
    }

    /// A transport configured for `address:port`, initially closed and
    /// holding no listener.
    pub fn new(address: String, port: u16) -> (t: TCPManager)
        ensures
            t.address@ == address@,
            t.port == port,
            !t.is_open,
            t.listener is None,
            t.wf(),
    {
        TCPManager { address, port, listener: None, is_open: false }
    }
}

impl NetworkLayer for TCPManager {
    open spec fn listening(&self) -> bool {
        self.is_open
    }

    open spec fn bind_addr(&self) -> Option<PeerAddress> {
        self.spec_bind_addr()
    }

    open spec fn inv(&self) -> bool {
        self.wf()
    }

    open spec fn open_transition(&self, bound: bool) -> (TCPManager, Result<(), NetworkError>) {
        if self.is_open {
            (*self, Err(NetworkError::AlreadyOpen))
        } else if self.spec_bind_addr() is None {
            (*self, Err(NetworkError::BindError))
        } else if bound {
            (
                TCPManager {
                    address: self.address,
                    port: self.port,
                    listener: self.spec_bind_addr(),
                    is_open: true,
                },
                Ok(()),
            )
        } else {
            (*self, Err(NetworkError::BindError))
        }
    }

    open spec fn close_transition(&self) -> (TCPManager, Result<(), NetworkError>) {
        if !self.is_open {
            (*self, Err(NetworkError::NotOpen))
        } else {
            (
                TCPManager {
                    address: self.address,
                    port: self.port,
                    listener: None,
                    is_open: false,
                },
                Ok(()),
            )
        }
    }

    fn open_target(&self) -> (r: Result<PeerAddress, NetworkError>) {
        if self.is_open {
            return Err(NetworkError::AlreadyOpen);
        }
        match parse_ipv4(self.address.as_str()) {
            Some(q) => Ok(PeerAddress { o0: q.0, o1: q.1, o2: q.2, o3: q.3, port: self.port }),
            None => Err(NetworkError::BindError),
        }
    }

    fn open_complete(&mut self, bound: bool) -> (r: Result<(), NetworkError>) {
        if self.is_open {
            return Err(NetworkError::AlreadyOpen);
        }
        match parse_ipv4(self.address.as_str()) {
            Some(q) => {
                if bound {
                    self.listener = Some(
                        PeerAddress { o0: q.0, o1: q.1, o2: q.2, o3: q.3, port: self.port },
                    );
                    self.is_open = true;
                    Ok(())
                } else {
                    Err(NetworkError::BindError)
                }
            },
            None => Err(NetworkError::BindError),
        }
    }

    fn close(&mut self) -> (r: Result<(), NetworkError>) {
        if !self.is_open {
            return Err(NetworkError::NotOpen);
        }
        self.listener = None;
        self.is_open = false;
        Ok(())
    }

    fn should_accept(&self) -> (b: bool) {
        self.is_open
    }

    fn receive_result(&self, event: Option<ReceiveEvent>) -> (r: Result<Vec<u8>, NetworkError>) {
        if !self.is_open {
            let empty: Vec<u8> = Vec::new();
            proof {
                assert(empty@ =~= Seq::<u8>::empty());
            }
            return Ok(empty);
        }
        match event {
            Some(ReceiveEvent::Delivered(d)) => Ok(d),
            _ => Err(NetworkError::IoError),
        }
    }

    fn send_target(&self, host: &str, port: &str) -> (r: Result<PeerAddress, NetworkError>) {
        match resolve_host_port(host, port) {
            Some(a) => Ok(a),
            None => Err(NetworkError::AddressParseError),
        }
    }

    fn send_complete(&self, event: SendEvent) -> (r: Result<(), NetworkError>) {
        match event {
            SendEvent::Sent => Ok(()),
            SendEvent::ConnectFailed => Err(NetworkError::ConnectError),
            SendEvent::WriteFailed => Err(NetworkError::IoError),
        }
    }

    fn broadcast_targets(&self, addresses: &Vec<String>) -> (r: Result<
        Vec<PeerAddress>,
        NetworkError,
    >) {
        let mut out: Vec<PeerAddress> = Vec::new();
        let mut k: usize = 0;
        while k < addresses.len()
            invariant
                k <= addresses@.len(),
                out@.len() == k,
                forall|i: int|
                    0 <= i < k ==> spec_resolve_token(#[trigger] addresses@[i]@) == Some(out@[i]),
            decreases addresses@.len() - k,
        {
            match resolve_token(addresses[k].as_str()) {
                Some(a) => out.push(a),
                None => {
                    return Err(NetworkError::AddressParseError);
                },
            }
            k = k + 1;
        }
        Ok(out)
    }

    fn broadcast_complete(&self, events: &Vec<SendEvent>) -> (r: Result<(), NetworkError>) {
        let mut k: usize = 0;
        proof {
            assert(events@.skip(0) =~= events@);
        }
        while k < events.len()
            invariant
                k <= events@.len(),
                spec_broadcast_outcome(events@) == spec_broadcast_outcome(
                    events@.skip(k as int),
                ),
            decreases events@.len() - k,
        {
            proof {
                assert(events@.skip(k as int)[0] == events@[k as int]);
                assert(events@.skip(k as int).drop_first() =~= events@.skip(k as int + 1));
            }
            match events[k] {
                SendEvent::Sent => {},
                SendEvent::ConnectFailed => {
                    return Err(NetworkError::ConnectError);
                },
                SendEvent::WriteFailed => {
                    return Err(NetworkError::IoError);
                },
            }
            k = k + 1;
        }
        proof {
            assert(events@.skip(k as int) =~= Seq::<SendEvent>::empty());
        }
        Ok(())
    }
}

/// Lifecycle law: from a closed transport whose address resolves, opening
/// succeeds once; a second open without an intervening close is rejected
/// with `AlreadyOpen` and changes nothing; closing then succeeds once; a
/// second close is rejected with `NotOpen` and changes nothing.
pub proof fn lemma_lifecycle(t: TCPManager)
    requires
        !t.is_open,
        t.spec_bind_addr() is Some,
    ensures
        ({
            let (t1, r1) = t.open_transition(true);
            let (t1b, r2) = t1.open_transition(true);
            let (t2, r3) = t1.close_transition();
            let (t2b, r4) = t2.close_transition();
            &&& r1 == Ok::<(), NetworkError>(())
            &&& t1.is_open
            &&& r2 == Err::<(), NetworkError>(NetworkError::AlreadyOpen)
            &&& t1b == t1
            &&& r3 == Ok::<(), NetworkError>(())
            &&& !t2.is_open
            &&& r4 == Err::<(), NetworkError>(NetworkError::NotOpen)
            &&& t2b == t2
        }),
{
}

/// Round-trip law: a payload delivered intact to a receive on an open
/// transport comes back exactly, byte for byte. The transport adds no
/// framing, so the bytes a peer reads until end-of-stream are the bytes
/// the sender wrote.
pub proof fn lemma_receive_round_trip(p: Vec<u8>)
    ensures
        spec_receive(true, Some(ReceiveEvent::Delivered(p))) == Ok::<Seq<u8>, NetworkError>(p@),
{
}

/// Fan-out law: a broadcast whose every constituent send completed
/// reports success, and each peer that was handed the payload intact
/// observes exactly that payload.
pub proof fn lemma_broadcast_fan_out(events: Seq<SendEvent>, p: Vec<u8>)
    requires
        forall|i: int| 0 <= i < events.len() ==> events[i] == SendEvent::Sent,
    ensures
        spec_broadcast_outcome(events) == Ok::<(), NetworkError>(()),
        spec_receive(true, Some(ReceiveEvent::Delivered(p))) == Ok::<Seq<u8>, NetworkError>(p@),
    decreases events.len(),
{
    if events.len() > 0 {
        assert(events[0] == SendEvent::Sent);
        assert forall|i: int| 0 <= i < events.drop_first().len() implies events.drop_first()[i]
            == SendEvent::Sent by {
            assert(events.drop_first()[i] == events[i + 1]);
        }
        lemma_broadcast_fan_out(events.drop_first(), p);
    }
}

/// Aggregate-failure law: a broadcast with any failed constituent send
/// reports failure; it never silently reports success.
pub proof fn lemma_broadcast_failure_surfaces(events: Seq<SendEvent>, i: int)
    requires
        0 <= i < events.len(),
        events[i] != SendEvent::Sent,
    ensures
        spec_broadcast_outcome(events) is Err,
    decreases events.len(),
{
    if events[0] == SendEvent::Sent {
        lemma_broadcast_failure_surfaces(events.drop_first(), i - 1);
    }
}

/// Closed-receive law: receiving on a transport that is not open never
/// fails and never panics; it yields the empty payload, whatever the
/// socket layer reported.
pub proof fn lemma_receive_closed_is_empty(event: Option<ReceiveEvent>)
    ensures
        spec_receive(false, event) == Ok::<Seq<u8>, NetworkError>(Seq::empty()),
{
}

} // verus!
