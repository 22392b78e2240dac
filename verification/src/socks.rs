//! The SOCKS5 greeting, as far as a local proxy needs it: no
//! authentication, the `CONNECT` command, IPv4 literals and domain names.
//!
//! The negotiation does no I/O. It says how many bytes to read next, the
//! caller reads exactly that many from the accepted socket and hands them
//! over, and is told what to write back and what to read after that, until
//! the request is accepted or turned down.

use crate::protocol::{be16, read_be16};
use crate::text::{copy_of, decimal, lemma_ascii_is_utf8, lemma_decimal_digits, push_decimal};
use vstd::prelude::*;
use vstd::utf8::{encode_utf8, valid_utf8};

verus! {

/// The protocol version that is spoken.
pub const SOCKS_VERSION: u8 = 0x05;

/// The method byte for "no authentication".
pub const METHOD_NO_AUTH: u8 = 0x00;

/// The command byte of `CONNECT`.
pub const CMD_CONNECT: u8 = 0x01;

/// The address type of an IPv4 literal.
pub const ATYP_IPV4: u8 = 0x01;

/// The address type of a domain name.
pub const ATYP_DOMAIN: u8 = 0x03;

/// Why a request was turned down.
#[derive(Debug, Clone, Copy, PartialEq, Eq, Structural)]
pub enum SocksError {
    /// The client speaks another version than 5.
    UnsupportedVersion(u8),
    /// The client does not offer "no authentication".
    NoAcceptableMethod,
    /// The command is not `CONNECT`.
    UnsupportedCommand(u8),
    /// The address is neither an IPv4 literal nor a domain name.
    UnsupportedAddressType(u8),
    /// The domain name is not UTF-8.
    InvalidDomain,
}

/// Where a negotiation stands: what the next bytes will be.
#[derive(Debug, Clone, Copy, PartialEq, Eq, Structural)]
pub enum SocksStage {
    /// Version and number of methods.
    Greeting,
    /// The methods that the client offers.
    Methods { version: u8, count: u8 },
    /// Version, command, reserved byte and address type.
    Request,
    /// The four octets of an IPv4 address.
    Ipv4,
    /// The length of a domain name.
    DomainLength,
    /// A domain name of the given length.
    Domain { length: u8 },
    /// The port.
    Port,
    /// Nothing: the request was accepted or turned down.
    Done,
}

/// What the caller is to do next.
#[allow(inconsistent_fields)]
pub enum SocksStep {
    /// Read this many bytes and hand them to `advance`.
    Read(usize),
    /// Write `reply`, then read `read` bytes and hand them to `advance`.
    ReplyThenRead { reply: Vec<u8>, read: usize },
    /// Write `reply`: the client asks for a connection to `host:port`.
    Accept { reply: Vec<u8>, host: String, port: u16 },
    /// Write `reply` if there is one, and close the socket.
    Reject { reply: Option<Vec<u8>>, error: SocksError },
}

/// A step as a mathematical value.
#[verifier::ext_equal]
#[allow(inconsistent_fields)]
pub enum SocksStepView {
    Read(nat),
    ReplyThenRead { reply: Seq<u8>, read: nat },
    Accept { reply: Seq<u8>, host: Seq<u8>, port: u16 },
    Reject { reply: Option<Seq<u8>>, error: SocksError },
}

impl View for SocksStep {
    type V = SocksStepView;

    open spec fn view(&self) -> SocksStepView {
        match self {
            SocksStep::Read(n) => SocksStepView::Read(*n as nat),
            SocksStep::ReplyThenRead { reply, read } => SocksStepView::ReplyThenRead {
                reply: reply@,
                read: *read as nat,
            },
            SocksStep::Accept { reply, host, port } => SocksStepView::Accept {
                reply: reply@,
                host: encode_utf8(host@),
                port: *port,
            },
            SocksStep::Reject { reply, error } => SocksStepView::Reject {
                reply: match reply {
                    Some(r) => Some(r@),
                    None => None,
                },
                error: *error,
            },
        }
    }
}

/// The bytes that the next call of `advance` is owed.
pub open spec fn expected(stage: SocksStage) -> nat {
    match stage {
        SocksStage::Greeting => 2,
        SocksStage::Methods { version, count } => count as nat,
        SocksStage::Request => 4,
        SocksStage::Ipv4 => 4,
        SocksStage::DomainLength => 1,
        SocksStage::Domain { length } => length as nat,
        SocksStage::Port => 2,
        SocksStage::Done => 0,
    }
}

/// The answer to the greeting: version 5, the method chosen.
pub open spec fn method_reply(method: u8) -> Seq<u8> {
    seq![0x05u8, method]
}

/// The answer to the request: version 5, the reply code, a reserved byte,
/// and the bound address `0.0.0.0:0` as an IPv4 literal.
pub open spec fn request_reply(code: u8) -> Seq<u8> {
    seq![0x05u8, code, 0x00u8, 0x01u8, 0u8, 0u8, 0u8, 0u8, 0u8, 0u8]
}

/// Four octets in dotted decimal notation.
pub open spec fn dotted(octets: Seq<u8>) -> Seq<u8>
    recommends
        octets.len() == 4,
{
    decimal(octets[0] as nat) + seq![0x2eu8] + decimal(octets[1] as nat) + seq![0x2eu8] + decimal(
        octets[2] as nat,
    ) + seq![0x2eu8] + decimal(octets[3] as nat)
}

/// The target host once `input` has been read at `stage`.
pub open spec fn host_after(stage: SocksStage, host: Seq<u8>, input: Seq<u8>) -> Seq<u8> {
    match stage {
        SocksStage::Ipv4 => dotted(input),
        SocksStage::Domain { length } => if valid_utf8(input) {
            input
        } else {
            host
        },
        _ => host,
    }
}

/// What is due once `input` has been read at `stage`, the target host so
/// far being `host`.
pub open spec fn step_after(stage: SocksStage, host: Seq<u8>, input: Seq<u8>) -> SocksStepView {
    match stage {
        SocksStage::Greeting => SocksStepView::Read(input[1] as nat),
        SocksStage::Methods { version, count } => if version != SOCKS_VERSION {
            SocksStepView::Reject { reply: None, error: SocksError::UnsupportedVersion(version) }
        } else if !input.contains(METHOD_NO_AUTH) {
            SocksStepView::Reject {
                reply: Some(method_reply(0xff)),
                error: SocksError::NoAcceptableMethod,
            }
        } else {
            SocksStepView::ReplyThenRead { reply: method_reply(METHOD_NO_AUTH), read: 4 }
        },
        SocksStage::Request => if input[1] != CMD_CONNECT {
            SocksStepView::Reject {
                reply: Some(request_reply(0x07)),
                error: SocksError::UnsupportedCommand(input[1]),
            }
        } else if input[3] == ATYP_IPV4 {
            SocksStepView::Read(4)
        } else if input[3] == ATYP_DOMAIN {
            SocksStepView::Read(1)
        } else {
            SocksStepView::Reject {
                reply: Some(request_reply(0x08)),
                error: SocksError::UnsupportedAddressType(input[3]),
            }
        },
        SocksStage::Ipv4 => SocksStepView::Read(2),
        SocksStage::DomainLength => SocksStepView::Read(input[0] as nat),
        SocksStage::Domain { length } => if valid_utf8(input) {
            SocksStepView::Read(2)
        } else {
            SocksStepView::Reject { reply: None, error: SocksError::InvalidDomain }
        },
        SocksStage::Port => SocksStepView::Accept {
            reply: request_reply(0x00),
            host,
            port: be16(input) as u16,
        },
        SocksStage::Done => SocksStepView::Read(0),
    }
}

/// Where the negotiation stands once `input` has been read at `stage`.
pub open spec fn stage_after(stage: SocksStage, input: Seq<u8>) -> SocksStage {
    match step_after(stage, Seq::empty(), input) {
        SocksStepView::Accept { .. } => SocksStage::Done,
        SocksStepView::Reject { .. } => SocksStage::Done,
        _ => match stage {
            SocksStage::Greeting => SocksStage::Methods { version: input[0], count: input[1] },
            SocksStage::Methods { .. } => SocksStage::Request,
            SocksStage::Request => if input[3] == ATYP_IPV4 {
                SocksStage::Ipv4
            } else {
                SocksStage::DomainLength
            },
            SocksStage::Ipv4 => SocksStage::Port,
            SocksStage::DomainLength => SocksStage::Domain { length: input[0] },
            SocksStage::Domain { .. } => SocksStage::Port,
            SocksStage::Port => SocksStage::Done,
            SocksStage::Done => SocksStage::Done,
        },
    }
}

/// A dotted IPv4 literal is plain ASCII, at most fifteen bytes of it.
pub proof fn lemma_dotted_is_ascii(octets: Seq<u8>)
    requires
        octets.len() == 4,
    ensures
        7 <= dotted(octets).len() <= 15,
        forall|i: int| 0 <= i < dotted(octets).len() ==> #[trigger] dotted(octets)[i] < 0x80,
        valid_utf8(dotted(octets)),
{
    lemma_decimal_digits(octets[0] as nat);
    lemma_decimal_digits(octets[1] as nat);
    lemma_decimal_digits(octets[2] as nat);
    lemma_decimal_digits(octets[3] as nat);
    lemma_ascii_is_utf8(dotted(octets));
}

/// The vector that holds the answer to the greeting.
fn build_method_reply(method: u8) -> (v: Vec<u8>)
    ensures
        v@ == method_reply(method),
{
    let mut v: Vec<u8> = Vec::with_capacity(2);
    v.push(SOCKS_VERSION);
    v.push(method);
    assert(v@ =~= method_reply(method));
    v
}

/// The vector that holds the answer to the request.
fn build_request_reply(code: u8) -> (v: Vec<u8>)
    ensures
        v@ == request_reply(code),
{
    let mut v: Vec<u8> = Vec::with_capacity(10);
    v.push(SOCKS_VERSION);
    v.push(code);
    v.push(0x00);
    v.push(0x01);
    v.push(0);
    v.push(0);
    v.push(0);
    v.push(0);
    v.push(0);
    v.push(0);
    assert(v@ =~= request_reply(code));
    v
}

/// Whether `items` holds `wanted`.
fn contains_byte(items: &[u8], wanted: u8) -> (b: bool)
    ensures
        b == items@.contains(wanted),
{
    let mut i: usize = 0;
    while i < items.len()
        invariant
            i <= items@.len(),
            forall|j: int| 0 <= j < i ==> items@[j] != wanted,
        decreases items@.len() - i,
    {
        if items[i] == wanted {
            return true;
        }
        i = i + 1;
    }
    false
}

/// One client's greeting and request, step by step.
pub struct SocksNegotiation {
    stage: SocksStage,
    host: String,
}

impl SocksNegotiation {
    /// Where the negotiation stands.
    pub closed spec fn stage(&self) -> SocksStage {
        self.stage
    }

    /// The target host as far as it is known, in UTF-8; empty before.
    pub closed spec fn host(&self) -> Seq<u8> {
        encode_utf8(self.host@)
    }

    /// A negotiation at its start: the two bytes of the greeting are due.
    pub fn new() -> (n: Self)
        ensures
            n.stage() == SocksStage::Greeting,
            n.host() == Seq::<u8>::empty(),
    {
        let host = String::new();
        assert(encode_utf8(host@) =~= Seq::<u8>::empty());
        SocksNegotiation { stage: SocksStage::Greeting, host }
    }

    /// How many bytes the next call of `advance` is owed.
    pub fn expects(&self) -> (n: usize)
        ensures
            n == expected(self.stage()),
    {
        match self.stage {
            SocksStage::Greeting => 2,
            SocksStage::Methods { version, count } => count as usize,
            SocksStage::Request => 4,
            SocksStage::Ipv4 => 4,
            SocksStage::DomainLength => 1,
            SocksStage::Domain { length } => length as usize,
            SocksStage::Port => 2,
            SocksStage::Done => 0,
        }
    }

    /// Whether the request has been accepted or turned down.
    pub fn is_done(&self) -> (b: bool)
        ensures
            b == (self.stage() == SocksStage::Done),
    {
        match self.stage {
            SocksStage::Done => true,
            _ => false,
        }
    }

    /// Takes the bytes that were due and says what is due next.
    ///
    /// The methods are read before the version is looked at, and a wrong
    /// version or a domain name that is not UTF-8 gets no reply; the other
    /// refusals are told to the client.
    pub fn advance(&mut self, input: &[u8]) -> (step: SocksStep)
        requires
            old(self).stage() != SocksStage::Done,
            input@.len() == expected(old(self).stage()),
        ensures
            step@ == step_after(old(self).stage(), old(self).host(), input@),
            final(self).stage() == stage_after(old(self).stage(), input@),
            final(self).host() == host_after(old(self).stage(), old(self).host(), input@),
    {
        match self.stage {
            SocksStage::Greeting => {
                self.stage = SocksStage::Methods { version: input[0], count: input[1] };
                SocksStep::Read(input[1] as usize)
            },
            SocksStage::Methods { version, count } => {
                if version != SOCKS_VERSION {
                    self.stage = SocksStage::Done;
                    SocksStep::Reject {
                        reply: None,
                        error: SocksError::UnsupportedVersion(version),
                    }
                } else if !contains_byte(input, METHOD_NO_AUTH) {
                    self.stage = SocksStage::Done;
                    SocksStep::Reject {
                        reply: Some(build_method_reply(0xff)),
                        error: SocksError::NoAcceptableMethod,
                    }
                } else {
                    self.stage = SocksStage::Request;
                    SocksStep::ReplyThenRead { reply: build_method_reply(METHOD_NO_AUTH), read: 4 }
                }
            },
            SocksStage::Request => {
                let command: u8 = input[1];
                let address_type: u8 = input[3];
                if command != CMD_CONNECT {
                    self.stage = SocksStage::Done;
                    SocksStep::Reject {
                        reply: Some(build_request_reply(0x07)),
                        error: SocksError::UnsupportedCommand(command),
                    }
                } else if address_type == ATYP_IPV4 {
                    self.stage = SocksStage::Ipv4;
                    SocksStep::Read(4)
                } else if address_type == ATYP_DOMAIN {
                    self.stage = SocksStage::DomainLength;
                    SocksStep::Read(1)
                } else {
                    self.stage = SocksStage::Done;
                    SocksStep::Reject {
                        reply: Some(build_request_reply(0x08)),
                        error: SocksError::UnsupportedAddressType(address_type),
                    }
                }
            },
            SocksStage::Ipv4 => {
                let mut text: Vec<u8> = Vec::with_capacity(15);
                push_decimal(&mut text, input[0] as u64);
                text.push(0x2e);
                push_decimal(&mut text, input[1] as u64);
                text.push(0x2e);
                push_decimal(&mut text, input[2] as u64);
                text.push(0x2e);
                push_decimal(&mut text, input[3] as u64);
                proof {
                    assert(text@ =~= dotted(input@));
                    lemma_dotted_is_ascii(input@);
                }
                // digits and dots are UTF-8: this cannot fail
                if let Ok(host) = String::from_utf8(text) {
                    self.host = host;
                }
                self.stage = SocksStage::Port;
                SocksStep::Read(2)
            },
            SocksStage::DomainLength => {
                self.stage = SocksStage::Domain { length: input[0] };
                SocksStep::Read(input[0] as usize)
            },
            SocksStage::Domain { length } => {
                match String::from_utf8(copy_of(input)) {
                    Ok(host) => {
                        self.host = host;
                        self.stage = SocksStage::Port;
                        SocksStep::Read(2)
                    },
                    Err(_) => {
                        self.stage = SocksStage::Done;
                        SocksStep::Reject { reply: None, error: SocksError::InvalidDomain }
                    },
                }
            },
            SocksStage::Port => {
                let port: u16 = read_be16(input, 0);
                assert(input@.subrange(0, 2) =~= input@);
                let host = self.host.clone();
                self.stage = SocksStage::Done;
                SocksStep::Accept { reply: build_request_reply(0x00), host, port }
            },
            SocksStage::Done => SocksStep::Read(0),
        }
    }
}

} // verus!
