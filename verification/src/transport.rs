//! The transports that a tunnel can run over, as the scorer and the
//! supervisor know them: by name, and by what can be expected of them.
//! Connecting and listening themselves are the caller's.

use vstd::prelude::*;

verus! {

/// Bytes asked of a TCP connection per read. The session layer re-frames,
/// so the number is of no consequence to it.
pub const TCP_RECV_CHUNK: usize = 1024;

/// Milliseconds that the blocked transport lets pass before its connect
/// fails.
pub const BLOCKED_CONNECT_DELAY_MS: u64 = 500;

/// Plain TCP.
#[derive(Debug, Clone, Copy, PartialEq, Eq, Structural)]
pub struct TcpTransport;

/// A transport that never works: it stands for a path that a censor
/// blocks, so that falling back to another path can be exercised.
#[derive(Debug, Clone, Copy, PartialEq, Eq, Structural)]
pub struct BlockedTransport;

impl TcpTransport {
    /// The name under which the scorer knows this transport.
    pub fn name(&self) -> (n: &'static str)
        ensures
            n@ == "TCP"@,
    {
        "TCP"
    }
}

impl BlockedTransport {
    /// The name under which the scorer knows this transport.
    pub fn name(&self) -> (n: &'static str)
        ensures
            n@ == "BlockedProtocol"@,
    {
        "BlockedProtocol"
    }
}

/// What a connect attempt on a transport comes to.
#[derive(Debug, Clone, Copy, PartialEq, Eq, Structural)]
pub enum ConnectPlan {
    /// Dial the address.
    Dial,
    /// Wait this many milliseconds, then fail as if the peer had reset the
    /// connection.
    FailAfter(u64),
}

/// One of the transports.
#[derive(Debug, Clone, Copy, PartialEq, Eq, Structural)]
pub enum TransportKind {
    Tcp,
    Blocked,
}

impl TransportKind {
    /// The transport's name.
    pub open spec fn spec_name(self) -> Seq<char> {
        match self {
            TransportKind::Tcp => "TCP"@,
            TransportKind::Blocked => "BlockedProtocol"@,
        }
    }

    /// The transport that a path name stands for: the blocked transport
    /// for its own name, TCP for every other.
    pub open spec fn spec_from_name(name: Seq<char>) -> TransportKind {
        if name == "BlockedProtocol"@ {
            TransportKind::Blocked
        } else {
            TransportKind::Tcp
        }
    }

    /// The name under which the scorer knows this transport.
    pub fn name(self) -> (n: &'static str)
        ensures
            n@ == self.spec_name(),
    {
        match self {
            TransportKind::Tcp => TcpTransport.name(),
            TransportKind::Blocked => BlockedTransport.name(),
        }
    }

    /// The transport that a path name stands for: the blocked transport
    /// for its own name, TCP for every other.
    pub fn from_name(name: &str) -> (kind: TransportKind)
        ensures
            kind == TransportKind::spec_from_name(name@),
    {
        let given: String = name.to_owned();
        let blocked: String = BlockedTransport.name().to_owned();
        if given == blocked {
            TransportKind::Blocked
        } else {
            TransportKind::Tcp
        }
    }

    /// What a connect attempt comes to: TCP dials, the blocked transport
    /// fails after half a second.
    pub fn connect_plan(self) -> (plan: ConnectPlan)
        ensures
            plan == match self {
                TransportKind::Tcp => ConnectPlan::Dial,
                TransportKind::Blocked => ConnectPlan::FailAfter(BLOCKED_CONNECT_DELAY_MS),
            },
    {
        match self {
            TransportKind::Tcp => ConnectPlan::Dial,
            TransportKind::Blocked => ConnectPlan::FailAfter(BLOCKED_CONNECT_DELAY_MS),
        }
    }

    /// Whether the transport can listen: TCP can, the blocked transport
    /// cannot.
    pub fn can_listen(self) -> (b: bool)
        ensures
            b == (self == TransportKind::Tcp),
    {
        match self {
            TransportKind::Tcp => true,
            TransportKind::Blocked => false,
        }
    }
}

/// A name stands for the transport that bears it.
pub proof fn lemma_name_roundtrip(kind: TransportKind)
    ensures
        TransportKind::spec_from_name(kind.spec_name()) == kind,
{
    reveal_strlit("TCP");
    reveal_strlit("BlockedProtocol");
    assert("TCP"@.len() != "BlockedProtocol"@.len());
}

} // verus!
