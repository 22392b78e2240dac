//! The server's side of the multiplexer: it learns from `Connect` frames
//! where to dial, and hands the client's bytes to the right destination.
//!
//! As on the client, the engine owns no socket: a stream's way to its
//! destination is a handle of type `S` that the caller attaches once the
//! dial has succeeded.

use crate::buffers::bytes_seq;
use crate::protocol::{Frame, FrameType};
use crate::text::copy_of;
use bytes::Bytes;
use std::collections::HashMap;
use vstd::prelude::*;
use vstd::utf8::{encode_utf8, valid_utf8};

verus! {

broadcast use vstd::std_specs::hash::group_hash_axioms;

/// Why a frame from the client ends the session.
#[derive(Debug, Clone, Copy, PartialEq, Eq, Structural)]
pub enum ProxyError {
    /// The payload of a `Connect` frame is not UTF-8.
    InvalidTarget,
}

/// What the caller is to do with a frame that came from the client.
pub enum ServerAction<S> {
    /// Dial `target` (`host:port`) for stream `stream_id`. On success the
    /// caller attaches the stream; on failure it answers with a
    /// `Disconnect` frame for that id.
    Dial { stream_id: u32, target: String },
    /// Send `payload` to the stream's destination through `sink`.
    Forward { stream_id: u32, sink: S, payload: Bytes },
    /// Nothing: the frame was for no open stream, closed one, or was
    /// padding.
    Nothing,
}

/// Streams of one tunnel session, seen from the server.
pub struct ServerProxy<S> {
    streams: HashMap<u32, S>,
}

impl<S: Clone> ServerProxy<S> {
    /// The open streams: id to destination-writer handle.
    pub closed spec fn streams(&self) -> Map<u32, S> {
        self.streams@
    }

    /// An engine with no stream.
    pub fn new() -> (p: Self)
        ensures
            p.streams() == Map::<u32, S>::empty(),
    {
        ServerProxy { streams: HashMap::new() }
    }

    /// Opens stream `stream_id` after a successful dial. A stream that was
    /// open under this id loses its handle to the new one.
    pub fn attach(&mut self, stream_id: u32, sink: S)
        ensures
            final(self).streams() == old(self).streams().insert(stream_id, sink),
    {
        self.streams.insert(stream_id, sink);
    }

    /// Closes stream `stream_id`, if it is open: its socket task has ended.
    pub fn detach(&mut self, stream_id: u32)
        ensures
            final(self).streams() == old(self).streams().remove(stream_id),
    {
        self.streams.remove(&stream_id);
    }

    /// Whether stream `stream_id` is open.
    pub fn is_open(&self, stream_id: u32) -> (b: bool)
        ensures
            b == self.streams().contains_key(stream_id),
    {
        self.streams.contains_key(&stream_id)
    }

    /// Deals with one frame from the client.
    ///
    /// `Connect` asks for a dial to the `host:port` that its payload
    /// spells; a payload that is not UTF-8 is an error. `Data` for an open
    /// stream is to be forwarded to that stream; for any other id (one
    /// whose dial is still under way, too) it is dropped. `Disconnect`
    /// closes the stream, which drops its handle. `Padding` is discarded.
    pub fn handle_frame(&mut self, frame: Frame) -> (r: Result<ServerAction<S>, ProxyError>)
        ensures
            final(self).streams() == if frame.frame_type == FrameType::Disconnect {
                old(self).streams().remove(frame.stream_id)
            } else {
                old(self).streams()
            },
            r is Err <==> (frame.frame_type == FrameType::Connect && !valid_utf8(
                bytes_seq(frame.payload),
            )),
            r matches Err(e) ==> e == ProxyError::InvalidTarget,
            r matches Ok(action) ==> match action {
                ServerAction::Dial { stream_id, target } => {
                    &&& frame.frame_type == FrameType::Connect
                    &&& stream_id == frame.stream_id
                    &&& encode_utf8(target@) == bytes_seq(frame.payload)
                },
                ServerAction::Forward { stream_id, sink, payload } => {
                    &&& frame.frame_type == FrameType::Data
                    &&& stream_id == frame.stream_id
                    &&& old(self).streams().contains_key(stream_id)
                    &&& cloned(old(self).streams()[stream_id], sink)
                    &&& payload == frame.payload
                },
                ServerAction::Nothing => {
                    &&& frame.frame_type != FrameType::Connect
                    &&& !(frame.frame_type == FrameType::Data && old(self).streams().contains_key(
                        frame.stream_id,
                    ))
                },
            },
    {
        match frame.frame_type {
            FrameType::Connect => {
                match String::from_utf8(copy_of(frame.payload.as_ref())) {
                    Ok(target) => Ok(ServerAction::Dial { stream_id: frame.stream_id, target }),
                    Err(_) => Err(ProxyError::InvalidTarget),
                }
            },
            FrameType::Data => {
                match self.streams.get(&frame.stream_id).cloned() {
                    Some(sink) => Ok(
                        ServerAction::Forward {
                            stream_id: frame.stream_id,
                            sink,
                            payload: frame.payload,
                        },
                    ),
                    None => Ok(ServerAction::Nothing),
                }
            },
            FrameType::Disconnect => {
                self.streams.remove(&frame.stream_id);
                Ok(ServerAction::Nothing)
            },
            FrameType::Padding => Ok(ServerAction::Nothing),
        }
    }
}

} // verus!
