//! The multiplexing frame and its codec.
//!
//! On the wire a frame is one byte of type, the stream id as a big-endian
//! `u32`, the payload length as a big-endian `u16`, and the payload:
//! seven bytes of header, then at most 65535 bytes.

use crate::buffers::bytes_seq;
use bytes::Bytes;
use vstd::arithmetic::div_mod::{
    lemma_div_denominator, lemma_fundamental_div_mod, lemma_fundamental_div_mod_converse,
};
use vstd::prelude::*;

verus! {

/// Bytes of header before the payload.
pub const HEADER_LEN: usize = 7;

/// The longest payload that the 16-bit length field can announce.
pub const MAX_PAYLOAD_LEN: usize = 65535;

/// Why a buffer does not start with a frame.
#[derive(Debug, Clone, Copy, PartialEq, Eq, Structural)]
pub enum ProtocolError {
    /// Fewer than seven bytes were on offer.
    IncompleteHeader,
    /// The type byte is none of `0x01` to `0x04`.
    InvalidFrameType(u8),
    /// The header announces more payload than follows it.
    IncompletePayload,
}

/// The kind of a multiplexing frame, as carried in its first byte.
#[derive(Debug, Clone, Copy, PartialEq, Eq, Structural)]
pub enum FrameType {
    Connect,
    Data,
    Disconnect,
    Padding,
}

/// The frame type that a wire byte stands for, if any.
pub open spec fn frame_type_of(b: u8) -> Option<FrameType> {
    if b == 0x01 {
        Some(FrameType::Connect)
    } else if b == 0x02 {
        Some(FrameType::Data)
    } else if b == 0x03 {
        Some(FrameType::Disconnect)
    } else if b == 0x04 {
        Some(FrameType::Padding)
    } else {
        None
    }
}

impl FrameType {
    /// The wire byte of this frame type.
    pub open spec fn spec_to_byte(self) -> u8 {
        match self {
            FrameType::Connect => 0x01,
            FrameType::Data => 0x02,
            FrameType::Disconnect => 0x03,
            FrameType::Padding => 0x04,
        }
    }

    /// The wire byte of this frame type.
    #[verifier::when_used_as_spec(spec_to_byte)]
    pub fn to_byte(self) -> (b: u8)
        ensures
            b == self.spec_to_byte(),
            frame_type_of(b) == Some(self),
    {
        match self {
            FrameType::Connect => 0x01,
            FrameType::Data => 0x02,
            FrameType::Disconnect => 0x03,
            FrameType::Padding => 0x04,
        }
    }

    /// Reads a wire byte: `0x01` to `0x04` name a frame type, every other
    /// value is rejected and handed back in the error.
    pub fn from_byte(value: u8) -> (r: Result<FrameType, ProtocolError>)
        ensures
            r == match frame_type_of(value) {
                Some(t) => Ok::<FrameType, ProtocolError>(t),
                None => Err::<FrameType, ProtocolError>(ProtocolError::InvalidFrameType(value)),
            },
    {
        match value {
            0x01 => Ok(FrameType::Connect),
            0x02 => Ok(FrameType::Data),
            0x03 => Ok(FrameType::Disconnect),
            0x04 => Ok(FrameType::Padding),
            _ => Err(ProtocolError::InvalidFrameType(value)),
        }
    }
}

impl TryFrom<u8> for FrameType {
    type Error = ProtocolError;

    fn try_from(value: u8) -> (r: Result<FrameType, ProtocolError>) {
        FrameType::from_byte(value)
    }
}

impl vstd::std_specs::convert::TryFromSpecImpl<u8> for FrameType {
    open spec fn obeys_try_from_spec() -> bool {
        true
    }

    open spec fn try_from_spec(value: u8) -> Result<FrameType, ProtocolError> {
        match frame_type_of(value) {
            Some(t) => Ok(t),
            None => Err(ProtocolError::InvalidFrameType(value)),
        }
    }
}

/// The value of two bytes read as a big-endian number.
pub open spec fn be16(b: Seq<u8>) -> int
    recommends
        b.len() == 2,
{
    b[0] as int * 0x100 + b[1] as int
}

/// The value of four bytes read as a big-endian number.
pub open spec fn be32(b: Seq<u8>) -> int
    recommends
        b.len() == 4,
{
    b[0] as int * 0x100_0000 + b[1] as int * 0x1_0000 + b[2] as int * 0x100 + b[3] as int
}

/// The two bytes of a 16-bit number, most significant first.
pub open spec fn be16_bytes(v: u16) -> Seq<u8> {
    seq![(v / 0x100) as u8, (v % 0x100) as u8]
}

/// The four bytes of a 32-bit number, most significant first.
pub open spec fn be32_bytes(v: u32) -> Seq<u8> {
    seq![
        (v / 0x100_0000) as u8,
        ((v / 0x1_0000) % 0x100) as u8,
        ((v / 0x100) % 0x100) as u8,
        (v % 0x100) as u8,
    ]
}

/// Reading back the bytes of a 16-bit number gives the number.
pub proof fn lemma_be16_roundtrip(v: u16)
    ensures
        be16_bytes(v).len() == 2,
        be16(be16_bytes(v)) == v,
{
    lemma_fundamental_div_mod(v as int, 0x100);
}

/// Reading back the bytes of a 32-bit number gives the number.
pub proof fn lemma_be32_roundtrip(v: u32)
    ensures
        be32_bytes(v).len() == 4,
        be32(be32_bytes(v)) == v,
{
    let v = v as int;
    lemma_fundamental_div_mod(v, 0x100);
    lemma_fundamental_div_mod(v / 0x100, 0x100);
    lemma_fundamental_div_mod(v / 0x100 / 0x100, 0x100);
    assert(v / 0x100 / 0x100 == v / 0x1_0000) by {
        lemma_div_denominator(v, 0x100, 0x100);
    }
    assert(v / 0x1_0000 / 0x100 == v / 0x100_0000) by {
        lemma_div_denominator(v, 0x1_0000, 0x100);
    }
}

/// Two bytes are the bytes of the number they spell.
pub proof fn lemma_be16_bytes_of_value(b: Seq<u8>)
    requires
        b.len() == 2,
    ensures
        0 <= be16(b) <= 0xffff,
        be16_bytes(be16(b) as u16) == b,
{
    lemma_fundamental_div_mod_converse(be16(b), 0x100, b[0] as int, b[1] as int);
    assert(be16_bytes(be16(b) as u16) =~= b);
}

/// Four bytes are the bytes of the number they spell.
pub proof fn lemma_be32_bytes_of_value(b: Seq<u8>)
    requires
        b.len() == 4,
    ensures
        0 <= be32(b) <= 0xffff_ffff,
        be32_bytes(be32(b) as u32) == b,
{
    let v = be32(b);
    let (b0, b1, b2, b3) = (b[0] as int, b[1] as int, b[2] as int, b[3] as int);
    lemma_fundamental_div_mod_converse(v, 0x100_0000, b0, b1 * 0x1_0000 + b2 * 0x100 + b3);
    lemma_fundamental_div_mod_converse(v, 0x1_0000, b0 * 0x100 + b1, b2 * 0x100 + b3);
    lemma_fundamental_div_mod_converse(b0 * 0x100 + b1, 0x100, b0, b1);
    lemma_fundamental_div_mod_converse(v, 0x100, b0 * 0x1_0000 + b1 * 0x100 + b2, b3);
    lemma_fundamental_div_mod_converse(b0 * 0x1_0000 + b1 * 0x100 + b2, 0x100, b0 * 0x100 + b1, b2);
    assert(be32_bytes(v as u32) =~= b);
}

/// Reads the big-endian `u16` that starts at `at`.
pub fn read_be16(s: &[u8], at: usize) -> (v: u16)
    requires
        at + 2 <= s@.len(),
    ensures
        v == be16(s@.subrange(at as int, at + 2)),
{
    let hi: u16 = s[at] as u16;
    let lo: u16 = s[at + 1] as u16;
    hi * 0x100 + lo
}

/// Reads the big-endian `u32` that starts at `at`.
pub fn read_be32(s: &[u8], at: usize) -> (v: u32)
    requires
        at + 4 <= s@.len(),
    ensures
        v == be32(s@.subrange(at as int, at + 4)),
{
    let b0: u32 = s[at] as u32;
    let b1: u32 = s[at + 1] as u32;
    let b2: u32 = s[at + 2] as u32;
    let b3: u32 = s[at + 3] as u32;
    b0 * 0x100_0000 + b1 * 0x1_0000 + b2 * 0x100 + b3
}

/// Appends the two big-endian bytes of `v`.
pub fn push_be16(out: &mut Vec<u8>, v: u16)
    ensures
        final(out)@ == old(out)@ + be16_bytes(v),
{
    out.push((v / 0x100) as u8);
    out.push((v % 0x100) as u8);
    assert(out@ =~= old(out)@ + be16_bytes(v));
}

/// Appends the four big-endian bytes of `v`.
pub fn push_be32(out: &mut Vec<u8>, v: u32)
    ensures
        final(out)@ == old(out)@ + be32_bytes(v),
{
    out.push((v / 0x100_0000) as u8);
    out.push(((v / 0x1_0000) % 0x100) as u8);
    out.push(((v / 0x100) % 0x100) as u8);
    out.push((v % 0x100) as u8);
    assert(out@ =~= old(out)@ + be32_bytes(v));
}

/// A frame as a mathematical value: what `Frame` holds, with the payload as
/// a sequence of bytes.
#[verifier::ext_equal]
pub struct FrameView {
    pub frame_type: FrameType,
    pub stream_id: u32,
    pub payload: Seq<u8>,
}

/// One multiplexing frame.
#[derive(Debug, Clone)]
pub struct Frame {
    pub frame_type: FrameType,
    pub stream_id: u32,
    pub payload: Bytes,
}

impl View for Frame {
    type V = FrameView;

    open spec fn view(&self) -> FrameView {
        FrameView {
            frame_type: self.frame_type,
            stream_id: self.stream_id,
            payload: bytes_seq(self.payload),
        }
    }
}

impl FrameView {
    /// The payload fits the 16-bit length field.
    pub open spec fn wf(self) -> bool {
        self.payload.len() <= MAX_PAYLOAD_LEN
    }

    /// The frame on the wire: header, then payload.
    pub open spec fn wire(self) -> Seq<u8> {
        seq![self.frame_type.spec_to_byte()] + be32_bytes(self.stream_id) + be16_bytes(
            self.payload.len() as u16,
        ) + self.payload
    }
}

/// The length of the frame that `buf` starts with, header included, or
/// `None` while `buf` does not yet hold all of it.
pub open spec fn frame_len(buf: Seq<u8>) -> Option<nat> {
    if buf.len() < HEADER_LEN {
        None
    } else {
        let total = HEADER_LEN + be16(buf.subrange(5, 7));
        if buf.len() < total {
            None
        } else {
            Some(total as nat)
        }
    }
}

/// What parsing the head of `buf` yields.
pub open spec fn parsed(buf: Seq<u8>) -> Result<FrameView, ProtocolError> {
    if buf.len() < HEADER_LEN {
        Err(ProtocolError::IncompleteHeader)
    } else {
        match frame_type_of(buf[0]) {
            None => Err(ProtocolError::InvalidFrameType(buf[0])),
            Some(frame_type) => {
                let len = be16(buf.subrange(5, 7));
                if buf.len() - HEADER_LEN < len {
                    Err(ProtocolError::IncompletePayload)
                } else {
                    Ok(
                        FrameView {
                            frame_type,
                            stream_id: be32(buf.subrange(1, 5)) as u32,
                            payload: buf.subrange(HEADER_LEN as int, HEADER_LEN + len),
                        },
                    )
                }
            },
        }
    }
}

/// How many bytes parsing takes from the head of `buf`: the whole frame on
/// success, and on failure what had been read when the fault was found
/// (nothing, the type byte, or the header).
pub open spec fn parse_consumed(buf: Seq<u8>) -> nat {
    match parsed(buf) {
        Ok(f) => (HEADER_LEN + f.payload.len()) as nat,
        Err(ProtocolError::IncompleteHeader) => 0,
        Err(ProtocolError::InvalidFrameType(_)) => 1,
        Err(ProtocolError::IncompletePayload) => HEADER_LEN as nat,
    }
}

impl Frame {
    /// The payload fits the 16-bit length field.
    pub open spec fn wf(&self) -> bool {
        self@.wf()
    }

    /// Puts a frame together. A payload longer than 65535 bytes has no
    /// wire form and is not accepted.
    pub fn new(frame_type: FrameType, stream_id: u32, payload: Bytes) -> (f: Frame)
        requires
            bytes_seq(payload).len() <= MAX_PAYLOAD_LEN,
        ensures
            f.frame_type == frame_type,
            f.stream_id == stream_id,
            f.payload == payload,
            f.wf(),
    {
        Frame { frame_type, stream_id, payload }
    }

    /// Serializes the frame: header, then payload.
    pub fn to_bytes(&self) -> (out: Bytes)
        requires
            self.wf(),
        ensures
            bytes_seq(out) == self@.wire(),
    {
        let body = self.payload.as_ref();
        let len: usize = body.len();
        let mut buf: Vec<u8> = Vec::with_capacity(HEADER_LEN + len);
        buf.push(self.frame_type.to_byte());
        push_be32(&mut buf, self.stream_id);
        push_be16(&mut buf, len as u16);
        buf.extend_from_slice(body);
        assert(buf@ =~= self@.wire());
        Bytes::from(buf)
    }

    /// Peeks at the head of `src`: the total length of the first frame when
    /// all of it is there, else `None`. Nothing is consumed and the type
    /// byte is not looked at.
    pub fn check(src: &[u8]) -> (r: Option<usize>)
        ensures
            r matches Some(n) ==> frame_len(src@) == Some(n as nat),
            r is None ==> frame_len(src@) is None,
    {
        if src.len() < HEADER_LEN {
            return None;
        }
        let len: usize = read_be16(src, 5) as usize;
        let total: usize = HEADER_LEN + len;
        if src.len() < total {
            return None;
        }
        Some(total)
    }

    /// Takes one frame from the head of `src`.
    ///
    /// Fails when fewer than seven bytes are there, when the type byte is
    /// unknown, or when the payload is cut short. What was read before a
    /// fault was found is gone from `src` afterwards.
    pub fn parse(src: &mut Bytes) -> (r: Result<Frame, ProtocolError>)
        ensures
            match r {
                Ok(f) => parsed(bytes_seq(*old(src))) == Ok::<FrameView, ProtocolError>(f@) && f.wf(),
                Err(e) => parsed(bytes_seq(*old(src))) == Err::<FrameView, ProtocolError>(e),
            },
            parse_consumed(bytes_seq(*old(src))) <= bytes_seq(*old(src)).len(),
            bytes_seq(*final(src)) == bytes_seq(*old(src)).skip(
                parse_consumed(bytes_seq(*old(src))) as int,
            ),
    {
        let ghost whole = bytes_seq(*src);
        if src.len() < HEADER_LEN {
            assert(whole.skip(0) =~= whole);
            return Err(ProtocolError::IncompleteHeader);
        }
        let head: &[u8] = (*src).as_ref();
        let type_byte: u8 = head[0];
        let stream_id: u32 = read_be32(head, 1);
        let len: usize = read_be16(head, 5) as usize;
        let frame_type = match FrameType::from_byte(type_byte) {
            Ok(t) => t,
            Err(e) => {
                let _ = src.split_to(1);
                assert(bytes_seq(*src) =~= whole.skip(1));
                return Err(e);
            },
        };
        let _ = src.split_to(HEADER_LEN);
        assert(bytes_seq(*src) =~= whole.skip(HEADER_LEN as int));
        if src.len() < len {
            return Err(ProtocolError::IncompletePayload);
        }
        let payload = src.split_to(len);
        assert(bytes_seq(*src) =~= whole.skip(HEADER_LEN + len));
        assert(bytes_seq(payload) =~= whole.subrange(HEADER_LEN as int, HEADER_LEN + len));
        Ok(Frame { frame_type, stream_id, payload })
    }
}

/// A well-formed frame's wire form is its header and its payload, and the
/// header spells the payload's length.
pub proof fn lemma_wire_shape(f: FrameView)
    requires
        f.wf(),
    ensures
        f.wire().len() == HEADER_LEN + f.payload.len(),
        f.wire()[0] == f.frame_type.spec_to_byte(),
        f.wire().subrange(1, 5) == be32_bytes(f.stream_id),
        f.wire().subrange(5, 7) == be16_bytes(f.payload.len() as u16),
        f.wire().subrange(HEADER_LEN as int, f.wire().len() as int) == f.payload,
{
    let w = f.wire();
    assert(w.subrange(1, 5) =~= be32_bytes(f.stream_id));
    assert(w.subrange(5, 7) =~= be16_bytes(f.payload.len() as u16));
    assert(w.subrange(HEADER_LEN as int, w.len() as int) =~= f.payload);
}

/// Parsing what was serialized gives the frame back, whatever its type, its
/// stream id and its payload of at most 65535 bytes, and takes exactly the
/// frame's bytes: what follows the frame in the buffer is left alone.
pub proof fn lemma_parse_serialized(f: FrameView, rest: Seq<u8>)
    requires
        f.wf(),
    ensures
        parsed(f.wire() + rest) == Ok::<FrameView, ProtocolError>(f),
        parse_consumed(f.wire() + rest) == f.wire().len(),
        frame_len(f.wire() + rest) == Some(f.wire().len()),
        (f.wire() + rest).skip(f.wire().len() as int) == rest,
{
    let w = f.wire();
    let buf = w + rest;
    lemma_wire_shape(f);
    lemma_be16_roundtrip(f.payload.len() as u16);
    lemma_be32_roundtrip(f.stream_id);
    assert(buf[0] == w[0]);
    assert(buf.subrange(1, 5) =~= w.subrange(1, 5));
    assert(buf.subrange(5, 7) =~= w.subrange(5, 7));
    assert(buf.subrange(HEADER_LEN as int, HEADER_LEN + f.payload.len()) =~= f.payload);
    assert(frame_type_of(f.frame_type.spec_to_byte()) == Some(f.frame_type));
    assert(parsed(buf)->Ok_0 =~= f);
    assert(buf.skip(w.len() as int) =~= rest);
}

/// Once `check` has found a complete frame of `n` bytes at the head of a
/// buffer and the type byte is a known one, `parse` succeeds, takes exactly
/// those `n` bytes, and the frame it returns serializes to them again.
pub proof fn lemma_check_then_parse(buf: Seq<u8>, n: nat)
    requires
        frame_len(buf) == Some(n),
        frame_type_of(buf[0]) is Some,
    ensures
        parsed(buf) is Ok,
        parse_consumed(buf) == n,
        n <= buf.len(),
        parsed(buf)->Ok_0.wf(),
        parsed(buf)->Ok_0.wire() == buf.subrange(0, n as int),
{
    let f = parsed(buf)->Ok_0;
    lemma_be16_bytes_of_value(buf.subrange(5, 7));
    lemma_be32_bytes_of_value(buf.subrange(1, 5));
    assert(f.wire() =~= buf.subrange(0, n as int));
}

/// A buffer parses to a frame exactly when `check` finds a complete frame
/// in it and its type byte is known.
pub proof fn lemma_parse_ok_iff(buf: Seq<u8>)
    ensures
        parsed(buf) is Ok <==> (frame_len(buf) is Some && frame_type_of(buf[0]) is Some),
{
}

} // verus!
