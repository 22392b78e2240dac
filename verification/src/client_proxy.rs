//! The client's side of the multiplexer: it numbers new streams, announces
//! them to the server, and hands what comes back to the right socket.
//!
//! The engine owns no socket and no channel. A stream's way to its socket
//! writer is a value of type `S` (in practice the sending end of a
//! channel) that the caller attaches; for a `Data` frame the engine hands
//! back a clone of it together with the payload, so that the caller can
//! release whatever lock guards the engine before it sends.

use crate::protocol::{Frame, FrameType, FrameView, MAX_PAYLOAD_LEN};
use crate::text::{decimal, lemma_ascii_is_utf8, lemma_decimal_digits, push_decimal};
use bytes::Bytes;
use std::collections::HashMap;
use vstd::prelude::*;
use vstd::string::StringSliceAdditionalSpecFns;
use vstd::utf8::{encode_utf8, encode_utf8_valid_utf8, valid_utf8, valid_utf8_concat};

verus! {

broadcast use vstd::std_specs::hash::group_hash_axioms;

/// Why no stream was opened.
#[derive(Debug, Clone, Copy, PartialEq, Eq, Structural)]
pub enum StreamError {
    /// Every stream id of this session has been used.
    IdsExhausted,
    /// `host:port` does not fit a frame's payload.
    TargetTooLong,
}

/// What the caller is to do with a frame that came from the server.
pub enum ClientAction<S> {
    /// Send `payload` to the stream's socket writer through `sink`.
    Forward { stream_id: u32, sink: S, payload: Bytes },
    /// Nothing: the frame was for no open stream, closed one, or was not
    /// meant for a client.
    Nothing,
}

/// The payload of a `Connect` frame: `host:port` in UTF-8.
pub open spec fn connect_payload(target: Seq<u8>, port: u16) -> Seq<u8> {
    target + seq![0x3au8] + decimal(port as nat)
}

/// What a client announces, a server can dial: the payload of a `Connect`
/// frame for a host name and a port is UTF-8, so the server finds a target
/// in it.
pub proof fn lemma_connect_payload_is_utf8(host: Seq<char>, port: u16)
    ensures
        valid_utf8(connect_payload(encode_utf8(host), port)),
{
    let tail = seq![0x3au8] + decimal(port as nat);
    lemma_decimal_digits(port as nat);
    lemma_ascii_is_utf8(tail);
    encode_utf8_valid_utf8(host);
    valid_utf8_concat(encode_utf8(host), tail);
    assert(connect_payload(encode_utf8(host), port) =~= encode_utf8(host) + tail);
}

/// Streams of one tunnel session, seen from the client.
pub struct ClientProxy<S> {
    streams: HashMap<u32, S>,
    allocated: u32,
}

impl<S: Clone> ClientProxy<S> {
    /// The open streams: id to socket-writer handle.
    pub closed spec fn streams(&self) -> Map<u32, S> {
        self.streams@
    }

    /// How many stream ids have been handed out; they are `1` to this
    /// number, in that order.
    pub closed spec fn allocated(&self) -> nat {
        self.allocated as nat
    }

    /// An engine with no stream; the first id it hands out is 1.
    pub fn new() -> (p: Self)
        ensures
            p.streams() == Map::<u32, S>::empty(),
            p.allocated() == 0,
    {
        ClientProxy { streams: HashMap::new(), allocated: 0 }
    }

    /// Takes the next stream id for a connection to `target:port` and
    /// returns the `Connect` frame that announces it. The stream is not
    /// open yet: the caller sends the frame, then calls `attach`.
    pub fn start_new_stream(&mut self, target: &str, port: u16) -> (r: Result<Frame, StreamError>)
        ensures
            final(self).streams() == old(self).streams(),
            match r {
                Ok(frame) => {
                    &&& old(self).allocated() < u32::MAX
                    &&& final(self).allocated() == old(self).allocated() + 1
                    &&& frame@ == (FrameView {
                        frame_type: FrameType::Connect,
                        stream_id: final(self).allocated() as u32,
                        payload: connect_payload(target.spec_bytes(), port),
                    })
                    &&& frame.wf()
                },
                Err(e) => {
                    &&& final(self).allocated() == old(self).allocated()
                    &&& e == if connect_payload(target.spec_bytes(), port).len()
                        > MAX_PAYLOAD_LEN {
                        StreamError::TargetTooLong
                    } else {
                        StreamError::IdsExhausted
                    }
                },
            },
            r is Err <==> (connect_payload(target.spec_bytes(), port).len() > MAX_PAYLOAD_LEN
                || old(self).allocated() == u32::MAX),
    {
        let host = target.as_bytes();
        proof {
            lemma_decimal_digits(port as nat);
        }
        if host.len() > MAX_PAYLOAD_LEN - 2 {
            return Err(StreamError::TargetTooLong);
        }
        let mut payload: Vec<u8> = Vec::with_capacity(host.len() + 6);
        payload.extend_from_slice(host);
        payload.push(0x3a);
        push_decimal(&mut payload, port as u64);
        assert(payload@ =~= connect_payload(target.spec_bytes(), port));
        if payload.len() > MAX_PAYLOAD_LEN {
            return Err(StreamError::TargetTooLong);
        }
        if self.allocated == u32::MAX {
            return Err(StreamError::IdsExhausted);
        }
        self.allocated = self.allocated + 1;
        Ok(Frame::new(FrameType::Connect, self.allocated, Bytes::from(payload)))
    }

    /// Opens stream `stream_id`: from now on its `Data` frames go to `sink`.
    pub fn attach(&mut self, stream_id: u32, sink: S)
        ensures
            final(self).streams() == old(self).streams().insert(stream_id, sink),
            final(self).allocated() == old(self).allocated(),
    {
        self.streams.insert(stream_id, sink);
    }

    /// Closes stream `stream_id`, if it is open: its socket task has ended.
    pub fn detach(&mut self, stream_id: u32)
        ensures
            final(self).streams() == old(self).streams().remove(stream_id),
            final(self).allocated() == old(self).allocated(),
    {
        self.streams.remove(&stream_id);
    }

    /// Whether stream `stream_id` is open.
    pub fn is_open(&self, stream_id: u32) -> (b: bool)
        ensures
            b == self.streams().contains_key(stream_id),
    {
        self.streams.contains_key(&stream_id)
    }

    /// Deals with one frame from the server.
    ///
    /// `Data` for an open stream is to be forwarded to that stream; for any
    /// other id it is dropped. `Disconnect` closes the stream, which drops
    /// its handle. `Connect` and `Padding` mean nothing to a client.
    pub fn handle_frame(&mut self, frame: Frame) -> (action: ClientAction<S>)
        ensures
            final(self).allocated() == old(self).allocated(),
            final(self).streams() == if frame.frame_type == FrameType::Disconnect {
                old(self).streams().remove(frame.stream_id)
            } else {
                old(self).streams()
            },
            match action {
                ClientAction::Forward { stream_id, sink, payload } => {
                    &&& frame.frame_type == FrameType::Data
                    &&& stream_id == frame.stream_id
                    &&& old(self).streams().contains_key(stream_id)
                    &&& cloned(old(self).streams()[stream_id], sink)
                    &&& payload == frame.payload
                },
                ClientAction::Nothing => !(frame.frame_type == FrameType::Data
                    && old(self).streams().contains_key(frame.stream_id)),
            },
    {
        match frame.frame_type {
            FrameType::Data => {
                match self.streams.get(&frame.stream_id).cloned() {
                    Some(sink) => ClientAction::Forward {
                        stream_id: frame.stream_id,
                        sink,
                        payload: frame.payload,
                    },
                    None => ClientAction::Nothing,
                }
            },
            FrameType::Disconnect => {
                self.streams.remove(&frame.stream_id);
                ClientAction::Nothing
            },
            FrameType::Connect => ClientAction::Nothing,
            FrameType::Padding => ClientAction::Nothing,
        }
    }
}

} // verus!
