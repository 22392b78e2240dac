//! Cover protocols for the handshake: the one payload that each side sends
//! before the session is encrypted travels inside something that looks
//! like ordinary traffic.
//!
//! The HTTP mimic puts the payload, in URL-safe base64 without padding,
//! into the path of a `GET` request (client) or into an `X-Data` header of
//! a `200 OK` response (server).

use crate::buffers::bytes_seq;
use base64::engine::general_purpose::URL_SAFE_NO_PAD;
use base64::{DecodeError, Engine};
use bytes::Bytes;
use vstd::prelude::*;
use vstd::string::{is_ascii, StringSliceAdditionalSpecFns};

verus! {

/// The longest payload that is wrapped.
pub const MAX_MIMIC_PAYLOAD: usize = 0x4000_0000;

/// Why a payload was not wrapped or unwrapped.
#[derive(Debug, Clone, Copy, PartialEq, Eq, Structural)]
pub enum MimicError {
    /// The payload is longer than `MAX_MIMIC_PAYLOAD`.
    PayloadTooLarge,
    /// What stands where the payload should be is not base64.
    Encoding,
}

/// `base64::DecodeError`, the reason why a text is not base64. It is
/// mapped to `MimicError::Encoding`.
#[verifier::external_type_specification]
#[verifier::external_body]
pub struct ExDecodeError(DecodeError);

/// URL-safe base64 without padding, as the `base64` crate's
/// `URL_SAFE_NO_PAD` engine encodes it.
pub uninterp spec fn base64url(data: Seq<u8>) -> Seq<u8>;

/// What the `base64` crate's `URL_SAFE_NO_PAD` engine decodes `text` to,
/// or `None` where it rejects it.
pub uninterp spec fn base64url_decoded(text: Seq<u8>) -> Option<Seq<u8>>;

/// A byte of the URL-safe base64 alphabet: a letter, a digit, `-` or `_`.
pub open spec fn is_base64url_byte(b: u8) -> bool {
    ||| 0x41 <= b <= 0x5a
    ||| 0x61 <= b <= 0x7a
    ||| 0x30 <= b <= 0x39
    ||| b == 0x2d
    ||| b == 0x5f
}

/// The length of the unpadded base64 form of `n` bytes.
pub open spec fn base64url_len(n: nat) -> nat {
    (n / 3) * 4 + if n % 3 == 0 {
        0nat
    } else if n % 3 == 1 {
        2nat
    } else {
        3nat
    }
}

/// `Engine::encode` of `URL_SAFE_NO_PAD`, the text's bytes taken out of
/// the `String`. The text has four symbols for every three bytes and two
/// or three for a remainder of one or two, all of them from the URL-safe
/// alphabet, and the same engine decodes it to `data` again. The crate
/// panics where the text's length would overflow, which the bound on
/// `data` excludes.
#[verifier::external_body]
fn base64url_encode(data: &[u8]) -> (text: Vec<u8>)
    requires
        data@.len() <= MAX_MIMIC_PAYLOAD,
    ensures
        text@ == base64url(data@),
        text@.len() == base64url_len(data@.len()),
        forall|i: int| 0 <= i < text@.len() ==> is_base64url_byte(#[trigger] text@[i]),
        base64url_decoded(text@) == Some(data@),
{
    URL_SAFE_NO_PAD.encode(data).into_bytes()
}

/// `Engine::decode` of `URL_SAFE_NO_PAD`.
#[verifier::external_body]
fn base64url_decode(text: &[u8]) -> (r: Result<Vec<u8>, DecodeError>)
    ensures
        match r {
            Ok(data) => base64url_decoded(text@) == Some(data@),
            Err(_) => base64url_decoded(text@) is None,
        },
{
    URL_SAFE_NO_PAD.decode(text)
}

/// The bytes of an ASCII text.
pub open spec fn ascii(s: &str) -> Seq<u8> {
    s@.map_values(|c: char| c as u8)
}

/// The bytes of an ASCII literal.
fn ascii_bytes(s: &'static str) -> (b: &'static [u8])
    requires
        is_ascii(s),
    ensures
        b@ == ascii(s),
{
    proof {
        broadcast use vstd::string::group_string_axioms;

        assert(s.spec_bytes() =~= ascii(s));
    }
    s.as_bytes()
}

/// What precedes the payload in a client's request.
pub open spec fn request_head() -> Seq<u8> {
    ascii("GET /api/v1/resource/")
}

/// What follows the payload in a client's request.
pub open spec fn request_tail() -> Seq<u8> {
    ascii(
        " HTTP/1.1\r\nHost: cdn.example.com\r\nUser-Agent: Chimera/1.0\r\nConnection: keep-alive\r\n\r\n",
    )
}

/// What precedes the payload in a server's response.
pub open spec fn response_head() -> Seq<u8> {
    ascii(
        "HTTP/1.1 200 OK\r\nServer: Chuck/1.0\r\nContent-Type: text/html\r\nContent-Length: 0\r\nX-Data: ",
    )
}

/// What follows the payload in a server's response.
pub open spec fn response_tail() -> Seq<u8> {
    ascii("\r\n\r\n")
}

/// What ends the payload in a request.
pub open spec fn request_end_mark() -> Seq<u8> {
    ascii(" HTTP/1.1")
}

/// What announces the payload in a response.
pub open spec fn response_mark() -> Seq<u8> {
    ascii("X-Data: ")
}

/// What ends the payload in a response.
pub open spec fn line_end() -> Seq<u8> {
    ascii("\r\n")
}

/// `needle` stands in `hay` at index `at`.
pub open spec fn occurs_at(hay: Seq<u8>, needle: Seq<u8>, at: int) -> bool {
    &&& 0 <= at
    &&& at + needle.len() <= hay.len()
    &&& hay.subrange(at, at + needle.len()) == needle
}

/// The first index at or after `from` where `needle` stands in `hay`.
pub open spec fn first_at(hay: Seq<u8>, needle: Seq<u8>, from: int) -> Option<int>
    decreases hay.len() - from,
{
    if from < 0 || from + needle.len() > hay.len() {
        None
    } else if occurs_at(hay, needle, from) {
        Some(from)
    } else if from >= hay.len() {
        None
    } else {
        first_at(hay, needle, from + 1)
    }
}

/// What stands in `packet` between the first `open` and the first `close`
/// after it, if both are there.
pub open spec fn enclosed(packet: Seq<u8>, open: Seq<u8>, close: Seq<u8>) -> Option<Seq<u8>> {
    match first_at(packet, open, 0) {
        None => None,
        Some(start) => match first_at(packet, close, start + open.len()) {
            None => None,
            Some(end) => Some(packet.subrange(start + open.len(), end)),
        },
    }
}

/// The base64 text that a packet carries: what the request line holds
/// after the resource path, or else the value of the `X-Data` header.
pub open spec fn carried_text(packet: Seq<u8>) -> Option<Seq<u8>> {
    match enclosed(packet, request_head(), request_end_mark()) {
        Some(text) => Some(text),
        None => enclosed(packet, response_mark(), line_end()),
    }
}

/// The HTTP envelope of `payload`.
pub open spec fn http_encapsulated(payload: Seq<u8>, is_server: bool) -> Result<
    Seq<u8>,
    MimicError,
> {
    if payload.len() > MAX_MIMIC_PAYLOAD {
        Err(MimicError::PayloadTooLarge)
    } else if is_server {
        Ok(response_head() + base64url(payload) + response_tail())
    } else {
        Ok(request_head() + base64url(payload) + request_tail())
    }
}

/// The payload in an HTTP envelope: `Ok(None)` where the packet is no such
/// envelope, an error where it is one but does not hold base64.
pub open spec fn http_decapsulated(packet: Seq<u8>) -> Result<Option<Seq<u8>>, MimicError> {
    match carried_text(packet) {
        None => Ok(None),
        Some(text) => match base64url_decoded(text) {
            Some(payload) => Ok(Some(payload)),
            None => Err(MimicError::Encoding),
        },
    }
}

/// Whether `needle` stands in `hay` at index `at`.
fn stands_at(hay: &[u8], needle: &[u8], at: usize) -> (b: bool)
    requires
        at + needle@.len() <= hay@.len(),
    ensures
        b == occurs_at(hay@, needle@, at as int),
{
    let total: usize = hay.len();
    let mut k: usize = 0;
    while k < needle.len()
        invariant
            k <= needle@.len(),
            at + needle@.len() <= hay@.len(),
            hay@.len() == total,
            forall|j: int| 0 <= j < k ==> hay@[at + j] == needle@[j],
        decreases needle@.len() - k,
    {
        if hay[at + k] != needle[k] {
            assert(hay@.subrange(at as int, at + needle@.len())[k as int] != needle@[k as int]);
            return false;
        }
        k = k + 1;
    }
    assert(hay@.subrange(at as int, at + needle@.len()) =~= needle@);
    true
}

/// Finds the first index at or after `from` where `needle` stands in `hay`.
pub fn find_subslice(hay: &[u8], needle: &[u8], from: usize) -> (r: Option<usize>)
    ensures
        match r {
            Some(i) => first_at(hay@, needle@, from as int) == Some(i as int),
            None => first_at(hay@, needle@, from as int) is None,
        },
{
    if needle.len() > hay.len() || from > hay.len() - needle.len() {
        return None;
    }
    if needle.len() == 0 {
        assert(hay@.subrange(from as int, from as int) =~= needle@);
        return Some(from);
    }
    let last: usize = hay.len() - needle.len();
    let mut i: usize = from;
    while i <= last
        invariant
            from <= i <= last + 1,
            last + needle@.len() == hay@.len(),
            needle@.len() > 0,
            hay@.len() <= usize::MAX,
            first_at(hay@, needle@, from as int) == first_at(hay@, needle@, i as int),
        decreases last + 1 - i,
    {
        if stands_at(hay, needle, i) {
            return Some(i);
        }
        i = i + 1;
    }
    None
}

/// What stands in `packet` between the first `open` and the first `close`
/// after it, as a pair of indices.
fn find_enclosed(packet: &[u8], open: &[u8], close: &[u8]) -> (r: Option<(usize, usize)>)
    ensures
        match r {
            Some((a, b)) => a <= b <= packet@.len() && enclosed(packet@, open@, close@) == Some(
                packet@.subrange(a as int, b as int),
            ),
            None => enclosed(packet@, open@, close@) is None,
        },
{
    let start = match find_subslice(packet, open, 0) {
        Some(start) => start,
        None => {
            return None;
        },
    };
    proof {
        lemma_first_at_bounds(packet@, open@, 0);
    }
    let total: usize = packet.len();
    let from: usize = start + open.len();
    match find_subslice(packet, close, from) {
        Some(end) => {
            proof {
                lemma_first_at_bounds(packet@, close@, from as int);
            }
            Some((from, end))
        },
        None => None,
    }
}

/// Where the first occurrence is, the needle stands, and nowhere between
/// `from` and there.
pub proof fn lemma_first_at_bounds(hay: Seq<u8>, needle: Seq<u8>, from: int)
    requires
        0 <= from,
    ensures
        first_at(hay, needle, from) matches Some(i) ==> from <= i && occurs_at(hay, needle, i)
            && forall|j: int| from <= j < i ==> !occurs_at(hay, needle, j),
        first_at(hay, needle, from) is None ==> forall|j: int|
            from <= j ==> !occurs_at(hay, needle, j),
    decreases hay.len() - from,
{
    if from + needle.len() > hay.len() {
    } else if occurs_at(hay, needle, from) {
    } else if from >= hay.len() {
        assert(hay.subrange(from, from + needle.len()) =~= needle);
    } else {
        lemma_first_at_bounds(hay, needle, from + 1);
    }
}

/// An index at or after `from` where the needle stands, and before which
/// (from `from` on) it does not, is the first occurrence.
pub proof fn lemma_first_at_is(hay: Seq<u8>, needle: Seq<u8>, from: int, at: int)
    requires
        0 <= from <= at,
        occurs_at(hay, needle, at),
        forall|j: int| from <= j < at ==> !occurs_at(hay, needle, j),
    ensures
        first_at(hay, needle, from) == Some(at),
    decreases at - from,
{
    if from < at {
        lemma_first_at_is(hay, needle, from + 1, at);
    }
}

/// Where the needle stands nowhere from `from` on, there is no first
/// occurrence.
pub proof fn lemma_first_at_none(hay: Seq<u8>, needle: Seq<u8>, from: int)
    requires
        forall|j: int| from <= j ==> !occurs_at(hay, needle, j),
    ensures
        first_at(hay, needle, from) is None,
    decreases hay.len() - from,
{
    if from < 0 || from + needle.len() > hay.len() {
    } else if from >= hay.len() {
    } else {
        lemma_first_at_none(hay, needle, from + 1);
    }
}

/// None of the first `n` bytes of `s` is `b`.
pub open spec fn free_of(s: Seq<u8>, b: u8, n: nat) -> bool
    decreases n,
{
    n == 0 || (s[n - 1] != b && free_of(s, b, (n - 1) as nat))
}

/// What `free_of` says, byte by byte.
pub proof fn lemma_free_of(s: Seq<u8>, b: u8, n: nat)
    requires
        free_of(s, b, n),
    ensures
        forall|k: int| 0 <= k < n ==> s[k] != b,
    decreases n,
{
    if n > 0 {
        lemma_free_of(s, b, (n - 1) as nat);
    }
}

/// The shape of the fixed parts of the two envelopes, as far as finding
/// the payload depends on it.
proof fn lemma_envelope_shape()
    ensures
        request_head().len() == 21,
        request_end_mark().len() == 9,
        request_end_mark()[0] == 0x20,
        request_tail().len() >= 9,
        request_tail().subrange(0, 9) == request_end_mark(),
        response_head().len() == 88,
        response_mark().len() == 8,
        response_mark()[0] == 0x58,
        response_head().subrange(80, 88) == response_mark(),
        line_end().len() == 2,
        line_end()[0] == 0x0d,
        response_tail().len() == 4,
        response_tail().subrange(0, 2) == line_end(),
        request_head()[0] == 0x47,
        forall|k: int| 0 <= k < 88 ==> response_head()[k] != 0x47,
        forall|k: int| 0 <= k < 80 ==> response_head()[k] != 0x58,
        forall|k: int| 0 <= k < 4 ==> response_tail()[k] != 0x47 && response_tail()[k] != 0x20,
        request_head()[3] == 0x20,
{
    reveal_strlit("GET /api/v1/resource/");
    reveal_strlit(" HTTP/1.1");
    reveal_strlit("X-Data: ");
    reveal_strlit("\r\n");
    reveal_strlit("\r\n\r\n");
    reveal_strlit(
        " HTTP/1.1\r\nHost: cdn.example.com\r\nUser-Agent: Chimera/1.0\r\nConnection: keep-alive\r\n\r\n",
    );
    reveal_strlit(
        "HTTP/1.1 200 OK\r\nServer: Chuck/1.0\r\nContent-Type: text/html\r\nContent-Length: 0\r\nX-Data: ",
    );
    assert(request_tail().subrange(0, 9) =~= request_end_mark());
    assert(response_head().subrange(80, 88) =~= response_mark());
    assert(response_tail().subrange(0, 2) =~= line_end());
    // eight bytes at a time: the solver unfolds no further in one step
    reveal_with_fuel(free_of, 9);
    assert(free_of(response_head(), 0x47, 8));
    assert(free_of(response_head(), 0x47, 16));
    assert(free_of(response_head(), 0x47, 24));
    assert(free_of(response_head(), 0x47, 32));
    assert(free_of(response_head(), 0x47, 40));
    assert(free_of(response_head(), 0x47, 48));
    assert(free_of(response_head(), 0x47, 56));
    assert(free_of(response_head(), 0x47, 64));
    assert(free_of(response_head(), 0x47, 72));
    assert(free_of(response_head(), 0x47, 80));
    assert(free_of(response_head(), 0x47, 88));
    lemma_free_of(response_head(), 0x47, 88);
    assert(free_of(response_head(), 0x58, 8));
    assert(free_of(response_head(), 0x58, 16));
    assert(free_of(response_head(), 0x58, 24));
    assert(free_of(response_head(), 0x58, 32));
    assert(free_of(response_head(), 0x58, 40));
    assert(free_of(response_head(), 0x58, 48));
    assert(free_of(response_head(), 0x58, 56));
    assert(free_of(response_head(), 0x58, 64));
    assert(free_of(response_head(), 0x58, 72));
    assert(free_of(response_head(), 0x58, 80));
    lemma_free_of(response_head(), 0x58, 80);
}

/// An envelope around a text of base64 symbols gives that text up again:
/// the marks that enclose the payload are found where they were put, since
/// no base64 symbol is part of one.
pub proof fn lemma_envelope_carries(text: Seq<u8>, is_server: bool)
    requires
        forall|i: int| 0 <= i < text.len() ==> is_base64url_byte(#[trigger] text[i]),
    ensures
        !is_server ==> carried_text(request_head() + text + request_tail()) == Some(text),
        is_server ==> carried_text(response_head() + text + response_tail()) == Some(text),
{
    lemma_envelope_shape();
    let n = text.len() as int;
    if is_server {
        let head = response_head();
        let tail = response_tail();
        let packet = head + text + tail;
        assert forall|j: int| 0 <= j implies !occurs_at(packet, request_head(), j) by {
            if occurs_at(packet, request_head(), j) {
                let part = packet.subrange(j, j + 21);
                assert(part[0] == packet[j]);
                assert(part[3] == packet[j + 3]);
                if j < 88 {
                    assert(packet[j] == head[j]);
                } else if j + 3 < 88 + n {
                    assert(packet[j + 3] == text[j + 3 - 88]);
                } else {
                    assert(packet[j + 3] == tail[j + 3 - 88 - n]);
                }
            }
        }
        lemma_first_at_none(packet, request_head(), 0);
        assert(enclosed(packet, request_head(), request_end_mark()) is None);
        assert(packet.subrange(80, 88) =~= response_mark());
        assert forall|j: int| 0 <= j < 80 implies !occurs_at(packet, response_mark(), j) by {
            if occurs_at(packet, response_mark(), j) {
                assert(packet.subrange(j, j + 8)[0] == packet[j]);
                assert(packet[j] == head[j]);
            }
        }
        lemma_first_at_is(packet, response_mark(), 0, 80);
        assert(packet.subrange(88 + n, 88 + n + 2) =~= line_end());
        assert forall|j: int| 88 <= j < 88 + n implies !occurs_at(packet, line_end(), j) by {
            if occurs_at(packet, line_end(), j) {
                assert(packet.subrange(j, j + 2)[0] == packet[j]);
                assert(packet[j] == text[j - 88]);
            }
        }
        lemma_first_at_is(packet, line_end(), 88, 88 + n);
        assert(packet.subrange(88, 88 + n) =~= text);
    } else {
        let head = request_head();
        let tail = request_tail();
        let packet = head + text + tail;
        assert(packet.subrange(0, 21) =~= head);
        assert(first_at(packet, head, 0) == Some(0int));
        assert(packet.subrange(21 + n, 21 + n + 9) =~= request_end_mark());
        assert forall|j: int| 21 <= j < 21 + n implies !occurs_at(packet, request_end_mark(), j) by {
            if occurs_at(packet, request_end_mark(), j) {
                assert(packet.subrange(j, j + 9)[0] == packet[j]);
                assert(packet[j] == text[j - 21]);
            }
        }
        lemma_first_at_is(packet, request_end_mark(), 21, 21 + n);
        assert(packet.subrange(21, 21 + n) =~= text);
    }
}

/// What is wrapped comes out again: an envelope, of either side, around a
/// text that is made of base64 symbols and decodes to `payload` is
/// unwrapped to `payload`.
pub proof fn lemma_http_round_trip(payload: Seq<u8>, text: Seq<u8>, is_server: bool)
    requires
        forall|i: int| 0 <= i < text.len() ==> is_base64url_byte(#[trigger] text[i]),
        base64url_decoded(text) == Some(payload),
    ensures
        http_decapsulated(
            if is_server {
                response_head() + text + response_tail()
            } else {
                request_head() + text + request_tail()
            },
        ) == Ok::<Option<Seq<u8>>, MimicError>(Some(payload)),
{
    lemma_envelope_carries(text, is_server);
}

/// A way to disguise the handshake payload as another protocol. What one
/// side wraps, the other side's `decapsulate` gives back unchanged.
pub trait Mimic {
    /// The envelope of `payload`, as the client (`is_server` false) or the
    /// server sends it.
    spec fn encapsulated(&self, payload: Seq<u8>, is_server: bool) -> Result<Seq<u8>, MimicError>;

    /// The payload that `packet` carries, `Ok(None)` where `packet` is not
    /// of this protocol.
    spec fn decapsulated(&self, packet: Seq<u8>) -> Result<Option<Seq<u8>>, MimicError>;

    /// Wraps the handshake payload into the cover protocol.
    fn encapsulate(&self, payload: &[u8], is_server: bool) -> (r: Result<Bytes, MimicError>)
        ensures
            match r {
                Ok(packet) => self.encapsulated(payload@, is_server) == Ok::<
                    Seq<u8>,
                    MimicError,
                >(bytes_seq(packet)),
                Err(e) => self.encapsulated(payload@, is_server) == Err::<Seq<u8>, MimicError>(e),
            },
            r matches Ok(packet) ==> self.decapsulated(bytes_seq(packet)) == Ok::<
                Option<Seq<u8>>,
                MimicError,
            >(Some(payload@)),
    ;

    /// Takes the handshake payload out of a packet of the cover protocol.
    fn decapsulate(&self, packet: &[u8]) -> (r: Result<Option<Vec<u8>>, MimicError>)
        ensures
            match r {
                Ok(Some(payload)) => self.decapsulated(packet@) == Ok::<
                    Option<Seq<u8>>,
                    MimicError,
                >(Some(payload@)),
                Ok(None) => self.decapsulated(packet@) == Ok::<Option<Seq<u8>>, MimicError>(None),
                Err(e) => self.decapsulated(packet@) == Err::<Option<Seq<u8>>, MimicError>(e),
            },
    ;

    /// The cover protocol's name.
    fn protocol_name(&self) -> &'static str;
}

/// The HTTP mimic.
pub struct HttpMimic;

impl Mimic for HttpMimic {
    open spec fn encapsulated(&self, payload: Seq<u8>, is_server: bool) -> Result<
        Seq<u8>,
        MimicError,
    > {
        http_encapsulated(payload, is_server)
    }

    open spec fn decapsulated(&self, packet: Seq<u8>) -> Result<Option<Seq<u8>>, MimicError> {
        http_decapsulated(packet)
    }

    fn encapsulate(&self, payload: &[u8], is_server: bool) -> (r: Result<Bytes, MimicError>) {
        if payload.len() > MAX_MIMIC_PAYLOAD {
            return Err(MimicError::PayloadTooLarge);
        }
        let encoded = base64url_encode(payload);
        proof {
            reveal_strlit("GET /api/v1/resource/");
            reveal_strlit(
                " HTTP/1.1\r\nHost: cdn.example.com\r\nUser-Agent: Chimera/1.0\r\nConnection: keep-alive\r\n\r\n",
            );
            reveal_strlit(
                "HTTP/1.1 200 OK\r\nServer: Chuck/1.0\r\nContent-Type: text/html\r\nContent-Length: 0\r\nX-Data: ",
            );
            reveal_strlit("\r\n\r\n");
        }
        let (head, tail) = if is_server {
            (
                ascii_bytes(
                    "HTTP/1.1 200 OK\r\nServer: Chuck/1.0\r\nContent-Type: text/html\r\nContent-Length: 0\r\nX-Data: ",
                ),
                ascii_bytes("\r\n\r\n"),
            )
        } else {
            (
                ascii_bytes("GET /api/v1/resource/"),
                ascii_bytes(
                    " HTTP/1.1\r\nHost: cdn.example.com\r\nUser-Agent: Chimera/1.0\r\nConnection: keep-alive\r\n\r\n",
                ),
            )
        };
        let mut packet: Vec<u8> = Vec::new();
        packet.extend_from_slice(head);
        packet.extend_from_slice(encoded.as_slice());
        packet.extend_from_slice(tail);
        assert(packet@ =~= head@ + encoded@ + tail@);
        proof {
            lemma_http_round_trip(payload@, encoded@, is_server);
        }
        Ok(Bytes::from(packet))
    }

    fn decapsulate(&self, packet: &[u8]) -> (r: Result<Option<Vec<u8>>, MimicError>) {
        proof {
            reveal_strlit("GET /api/v1/resource/");
            reveal_strlit(" HTTP/1.1");
            reveal_strlit("X-Data: ");
            reveal_strlit("\r\n");
        }
        let span = match find_enclosed(
            packet,
            ascii_bytes("GET /api/v1/resource/"),
            ascii_bytes(" HTTP/1.1"),
        ) {
            Some(span) => Some(span),
            None => find_enclosed(packet, ascii_bytes("X-Data: "), ascii_bytes("\r\n")),
        };
        match span {
            None => Ok(None),
            Some((a, b)) => {
                let text = vstd::slice::slice_subrange(packet, a, b);
                match base64url_decode(text) {
                    Ok(payload) => Ok(Some(payload)),
                    Err(_) => Err(MimicError::Encoding),
                }
            },
        }
    }

    fn protocol_name(&self) -> (name: &'static str)
        ensures
            name@ == "HTTP"@,
    {
        "HTTP"
    }
}

} // verus!
