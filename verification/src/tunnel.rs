//! From records to frames. A record's plaintext is any number of frames
//! laid end to end, and a frame may straddle two records: the assembler
//! keeps what has arrived and gives out frames as they become complete.

use crate::buffers::{buf_seq, bytes_seq};
use crate::client_proxy::{ClientAction, ClientProxy};
use crate::protocol::{
    frame_len, lemma_parse_serialized, parsed, Frame, FrameType, FrameView, ProtocolError,
};
use crate::server_proxy::{ProxyError, ServerAction, ServerProxy};
use bytes::{Bytes, BytesMut};
use vstd::prelude::*;
use vstd::utf8::{encode_utf8, valid_utf8};

verus! {

/// What a buffer holds, read as frames from its head.
#[verifier::ext_equal]
pub struct Decoded {
    /// The complete frames, in order, up to the first bad one.
    pub frames: Seq<FrameView>,
    /// What is left: after a bad frame, all that followed it; else the tail
    /// that is not yet a whole frame.
    pub rest: Seq<u8>,
    /// The fault of the first bad frame, if there is one.
    pub error: Option<ProtocolError>,
}

/// Reads `buf` as frames: one after the other for as long as a complete
/// frame stands at the head, stopping at the first whose type is unknown.
pub open spec fn decoded(buf: Seq<u8>) -> Decoded
    decreases buf.len(),
{
    match frame_len(buf) {
        None => Decoded { frames: Seq::empty(), rest: buf, error: None },
        Some(n) => match parsed(buf) {
            Err(e) => Decoded { frames: Seq::empty(), rest: buf.skip(n as int), error: Some(e) },
            Ok(f) => {
                let more = decoded(buf.skip(n as int));
                Decoded { frames: seq![f] + more.frames, rest: more.rest, error: more.error }
            },
        },
    }
}

/// The wire forms of `frames`, laid end to end.
pub open spec fn wire_of(frames: Seq<FrameView>) -> Seq<u8>
    decreases frames.len(),
{
    if frames.len() == 0 {
        Seq::empty()
    } else {
        frames[0].wire() + wire_of(frames.skip(1))
    }
}

/// The frames of a vector, as mathematical values.
pub open spec fn views(frames: Seq<Frame>) -> Seq<FrameView> {
    frames.map_values(|f: Frame| f@)
}

/// Any number of frames laid end to end, followed by a tail that is not
/// yet a whole frame (an empty one, or the first part of a further frame),
/// decode to exactly those frames, in order, and the tail stays behind.
pub proof fn lemma_decoded_wire(frames: Seq<FrameView>, tail: Seq<u8>)
    requires
        forall|i: int| 0 <= i < frames.len() ==> (#[trigger] frames[i]).wf(),
        frame_len(tail) is None,
    ensures
        decoded(wire_of(frames) + tail) == (Decoded { frames, rest: tail, error: None }),
    decreases frames.len(),
{
    if frames.len() == 0 {
        assert(wire_of(frames) + tail =~= tail);
        assert(decoded(tail).frames =~= frames);
    } else {
        let f = frames[0];
        let later = frames.skip(1);
        let rest = wire_of(later) + tail;
        let buf = wire_of(frames) + tail;
        assert(buf =~= f.wire() + rest);
        lemma_parse_serialized(f, rest);
        assert forall|i: int| 0 <= i < later.len() implies (#[trigger] later[i]).wf() by {
            assert(later[i] == frames[i + 1]);
        }
        lemma_decoded_wire(later, tail);
        lemma_decoded_step(buf, f, f.wire().len(), rest);
        assert(seq![f] + later =~= frames);
    }
}

/// Decoding takes the first frame and goes on with what follows it.
proof fn lemma_decoded_step(buf: Seq<u8>, f: FrameView, n: nat, rest: Seq<u8>)
    requires
        frame_len(buf) == Some(n),
        parsed(buf) == Ok::<FrameView, ProtocolError>(f),
        buf.skip(n as int) == rest,
    ensures
        decoded(buf) == (Decoded {
            frames: seq![f] + decoded(rest).frames,
            rest: decoded(rest).rest,
            error: decoded(rest).error,
        }),
{
}

/// Gathers the plaintext of records and gives it out frame by frame.
pub struct FrameAssembler {
    buf: BytesMut,
}

impl FrameAssembler {
    /// The bytes that have arrived and belong to no frame given out yet.
    pub closed spec fn pending(&self) -> Seq<u8> {
        buf_seq(self.buf)
    }

    /// An assembler that holds nothing.
    pub fn new() -> (a: Self)
        ensures
            a.pending() == Seq::<u8>::empty(),
    {
        FrameAssembler { buf: BytesMut::with_capacity(4096) }
    }

    /// How many bytes are held.
    pub fn len(&self) -> (n: usize)
        ensures
            n == self.pending().len(),
    {
        self.buf.len()
    }

    /// Adds the plaintext of one record at the end.
    pub fn push(&mut self, record: &[u8])
        ensures
            final(self).pending() == old(self).pending() + record@,
    {
        self.buf.extend_from_slice(record);
    }

    /// Gives out the frame at the head, once all of it is there.
    ///
    /// `Ok(None)` means that more bytes are needed, and nothing changes.
    /// Otherwise the frame's bytes leave the assembler, also where its type
    /// byte is unknown, which is the error.
    pub fn next_frame(&mut self) -> (r: Result<Option<Frame>, ProtocolError>)
        ensures
            match frame_len(old(self).pending()) {
                None => r matches Ok(None) && final(self).pending() == old(self).pending(),
                Some(n) => {
                    &&& n <= old(self).pending().len()
                    &&& final(self).pending() == old(self).pending().skip(n as int)
                    &&& match r {
                        Ok(Some(f)) => parsed(old(self).pending()) == Ok::<
                            FrameView,
                            ProtocolError,
                        >(f@) && f.wf(),
                        Ok(None) => false,
                        Err(e) => parsed(old(self).pending()) == Err::<FrameView, ProtocolError>(e),
                    }
                },
            },
    {
        let ghost before = buf_seq(self.buf);
        let n = match Frame::check(self.buf.as_ref()) {
            None => {
                return Ok(None);
            },
            Some(n) => n,
        };
        let mut chunk: Bytes = self.buf.split_to(n).freeze();
        assert(buf_seq(self.buf) =~= before.skip(n as int));
        let ghost head = bytes_seq(chunk);
        assert(head.subrange(5, 7) =~= before.subrange(5, 7));
        assert(head.subrange(1, 5) =~= before.subrange(1, 5));
        assert(head[0] == before[0]);
        match Frame::parse(&mut chunk) {
            Ok(f) => {
                assert(f@.payload =~= parsed(before)->Ok_0.payload);
                assert(f@ =~= parsed(before)->Ok_0);
                Ok(Some(f))
            },
            Err(e) => Err(e),
        }
    }

    /// Gives out every complete frame, in order, and stops at the first bad
    /// one, whose fault is returned beside the frames that came before it.
    pub fn drain(&mut self) -> (r: (Vec<Frame>, Option<ProtocolError>))
        ensures
            views(r.0@) == decoded(old(self).pending()).frames,
            r.1 == decoded(old(self).pending()).error,
            final(self).pending() == decoded(old(self).pending()).rest,
            forall|i: int| 0 <= i < r.0@.len() ==> (#[trigger] r.0@[i]).wf(),
    {
        let ghost start = self.pending();
        let mut frames: Vec<Frame> = Vec::new();
        let mut fault: Option<ProtocolError> = None;
        assert(views(frames@) + decoded(self.pending()).frames =~= decoded(start).frames);
        loop
            invariant_except_break
                fault is None,
                decoded(start).frames == views(frames@) + decoded(self.pending()).frames,
                decoded(start).rest == decoded(self.pending()).rest,
                decoded(start).error == decoded(self.pending()).error,
                forall|i: int| 0 <= i < frames@.len() ==> (#[trigger] frames@[i]).wf(),
            ensures
                views(frames@) == decoded(start).frames,
                fault == decoded(start).error,
                self.pending() == decoded(start).rest,
                forall|i: int| 0 <= i < frames@.len() ==> (#[trigger] frames@[i]).wf(),
            decreases self.pending().len(),
        {
            let ghost cur = self.pending();
            let ghost sofar = frames@;
            match self.next_frame() {
                Ok(Some(f)) => {
                    frames.push(f);
                    proof {
                        assert(views(frames@) =~= views(sofar).push(f@));
                        assert(views(frames@) + decoded(self.pending()).frames =~= views(sofar)
                            + decoded(cur).frames);
                    }
                },
                Ok(None) => {
                    proof {
                        assert(views(frames@) + decoded(cur).frames =~= views(frames@));
                    }
                    break ;
                },
                Err(e) => {
                    fault = Some(e);
                    proof {
                        assert(views(frames@) + decoded(cur).frames =~= views(frames@));
                    }
                    break ;
                },
            }
        }
        (frames, fault)
    }
}

/// Why a tunnel cannot go on.
#[derive(Debug, Clone, Copy, PartialEq, Eq, Structural)]
pub enum TunnelError {
    /// The peer sent what is no frame.
    Protocol(ProtocolError),
    /// The peer sent a frame that the engine cannot act on.
    Proxy(ProxyError),
}

/// The open streams after the first `n` of `frames` have been dealt with:
/// every `Disconnect` among them has closed its stream.
pub open spec fn streams_after<S>(streams: Map<u32, S>, frames: Seq<FrameView>, n: nat) -> Map<
    u32,
    S,
>
    decreases n,
{
    if n == 0 {
        streams
    } else {
        let before = streams_after(streams, frames, (n - 1) as nat);
        if frames[n - 1].frame_type == FrameType::Disconnect {
            before.remove(frames[n - 1].stream_id)
        } else {
            before
        }
    }
}

/// A `Connect` frame whose payload is not UTF-8: no target to dial.
pub open spec fn bad_target(f: FrameView) -> bool {
    f.frame_type == FrameType::Connect && !valid_utf8(f.payload)
}

/// `action` is the server's answer to frame `f` when `streams` are open.
pub open spec fn server_responds<S: Clone>(
    streams: Map<u32, S>,
    f: FrameView,
    action: ServerAction<S>,
) -> bool {
    match action {
        ServerAction::Dial { stream_id, target } => {
            &&& f.frame_type == FrameType::Connect
            &&& stream_id == f.stream_id
            &&& encode_utf8(target@) == f.payload
        },
        ServerAction::Forward { stream_id, sink, payload } => {
            &&& f.frame_type == FrameType::Data
            &&& stream_id == f.stream_id
            &&& streams.contains_key(stream_id)
            &&& cloned(streams[stream_id], sink)
            &&& bytes_seq(payload) == f.payload
        },
        ServerAction::Nothing => {
            &&& f.frame_type != FrameType::Connect
            &&& !(f.frame_type == FrameType::Data && streams.contains_key(f.stream_id))
        },
    }
}

/// `action` is the client's answer to frame `f` when `streams` are open.
pub open spec fn client_responds<S: Clone>(
    streams: Map<u32, S>,
    f: FrameView,
    action: ClientAction<S>,
) -> bool {
    match action {
        ClientAction::Forward { stream_id, sink, payload } => {
            &&& f.frame_type == FrameType::Data
            &&& stream_id == f.stream_id
            &&& streams.contains_key(stream_id)
            &&& cloned(streams[stream_id], sink)
            &&& bytes_seq(payload) == f.payload
        },
        ClientAction::Nothing => !(f.frame_type == FrameType::Data && streams.contains_key(
            f.stream_id,
        )),
    }
}

/// Takes in the plaintext of one record on the server and deals with every
/// frame that is complete by now, in order.
///
/// There is one action for every frame dealt with. Dealing stops at a
/// `Connect` frame without a target, which is an error, as is a frame of
/// unknown type; the frames before either have been dealt with. After an
/// error the tunnel is to be closed.
pub fn dispatch_to_server<S: Clone>(
    proxy: &mut ServerProxy<S>,
    assembler: &mut FrameAssembler,
    record: &[u8],
) -> (out: (Vec<ServerAction<S>>, Option<TunnelError>))
    ensures
        ({
            let d = decoded(old(assembler).pending() + record@);
            let k = out.0@.len() as int;
            &&& final(assembler).pending() == d.rest
            &&& k <= d.frames.len()
            &&& forall|j: int|
                0 <= j < k ==> !bad_target(#[trigger] d.frames[j]) && server_responds(
                    streams_after(old(proxy).streams(), d.frames, j as nat),
                    d.frames[j],
                    out.0@[j],
                )
            &&& final(proxy).streams() == streams_after(old(proxy).streams(), d.frames, k as nat)
            &&& k < d.frames.len() ==> bad_target(d.frames[k]) && out.1 == Some(
                TunnelError::Proxy(ProxyError::InvalidTarget),
            )
            &&& k == d.frames.len() ==> out.1 == match d.error {
                Some(e) => Some(TunnelError::Protocol(e)),
                None => None,
            }
        }),
{
    let ghost start = proxy.streams();
    let ghost d = decoded(assembler.pending() + record@);
    assembler.push(record);
    let (frames, fault) = assembler.drain();
    let ghost all = frames@;
    let mut actions: Vec<ServerAction<S>> = Vec::new();
    for frame in it: frames
        invariant
            it.seq() == all,
            views(all) == d.frames,
            d == decoded(old(assembler).pending() + record@),
            start == old(proxy).streams(),
            assembler.pending() == d.rest,
            actions@.len() == it.index(),
            proxy.streams() == streams_after(start, d.frames, it.index() as nat),
            forall|j: int|
                0 <= j < it.index() ==> !bad_target(#[trigger] d.frames[j]) && server_responds(
                    streams_after(start, d.frames, j as nat),
                    d.frames[j],
                    actions@[j],
                ),
    {
        let ghost at = it.index() as int;
        assert(frame == all[at]);
        assert(frame@ == d.frames[at]);
        match proxy.handle_frame(frame) {
            Ok(action) => {
                actions.push(action);
            },
            Err(_) => {
                return (actions, Some(TunnelError::Proxy(ProxyError::InvalidTarget)));
            },
        }
    }
    let error = match fault {
        Some(e) => Some(TunnelError::Protocol(e)),
        None => None,
    };
    (actions, error)
}

/// Takes in the plaintext of one record on the client and deals with every
/// frame that is complete by now, in order.
///
/// There is one action for every frame. A frame of unknown type is an
/// error, after which the tunnel is to be closed; the frames before it
/// have been dealt with.
pub fn dispatch_to_client<S: Clone>(
    proxy: &mut ClientProxy<S>,
    assembler: &mut FrameAssembler,
    record: &[u8],
) -> (out: (Vec<ClientAction<S>>, Option<TunnelError>))
    ensures
        ({
            let d = decoded(old(assembler).pending() + record@);
            &&& final(assembler).pending() == d.rest
            &&& out.0@.len() == d.frames.len()
            &&& forall|j: int|
                0 <= j < d.frames.len() ==> client_responds(
                    streams_after(old(proxy).streams(), d.frames, j as nat),
                    #[trigger] d.frames[j],
                    out.0@[j],
                )
            &&& final(proxy).streams() == streams_after(
                old(proxy).streams(),
                d.frames,
                d.frames.len(),
            )
            &&& final(proxy).allocated() == old(proxy).allocated()
            &&& out.1 == match d.error {
                Some(e) => Some(TunnelError::Protocol(e)),
                None => None,
            }
        }),
{
    let ghost start = proxy.streams();
    let ghost d = decoded(assembler.pending() + record@);
    assembler.push(record);
    let (frames, fault) = assembler.drain();
    let ghost all = frames@;
    let mut actions: Vec<ClientAction<S>> = Vec::new();
    for frame in it: frames
        invariant
            it.seq() == all,
            views(all) == d.frames,
            actions@.len() == it.index(),
            proxy.allocated() == old(proxy).allocated(),
            proxy.streams() == streams_after(start, d.frames, it.index() as nat),
            forall|j: int|
                0 <= j < it.index() ==> client_responds(
                    streams_after(start, d.frames, j as nat),
                    #[trigger] d.frames[j],
                    actions@[j],
                ),
    {
        let ghost at = it.index() as int;
        assert(frame == all[at]);
        assert(frame@ == d.frames[at]);
        let action = proxy.handle_frame(frame);
        actions.push(action);
    }
    let error = match fault {
        Some(e) => Some(TunnelError::Protocol(e)),
        None => None,
    };
    (actions, error)
}

} // verus!
