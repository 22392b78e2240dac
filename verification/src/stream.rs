//! What a stream's socket task says to the tunnel: the frames that carry
//! what was read from the socket, and the one that ends the stream.

use crate::protocol::{Frame, FrameType, FrameView, MAX_PAYLOAD_LEN};
use crate::text::copy_of;
use bytes::Bytes;
use vstd::prelude::*;

verus! {

/// Bytes asked of a socket per read, chosen so that a frame, once sealed,
/// stays under a typical MTU.
pub const READ_CHUNK: usize = 1400;

/// Frames that a stream's inbound channel holds before the tunnel reader
/// has to wait for the socket writer.
pub const STREAM_CHANNEL_CAPACITY: usize = 10000;

/// Frames that the tunnel's outbound channel holds before stream readers
/// have to wait for the tunnel writer.
pub const TUNNEL_CHANNEL_CAPACITY: usize = 1000;

/// Reads shorter than this may be preceded by padding.
pub const PADDING_THRESHOLD: usize = 500;

/// The shortest padding.
pub const PADDING_MIN: usize = 10;

/// The longest padding.
pub const PADDING_MAX: usize = 200;

/// How many bytes of padding precede the `Data` frame of a read of
/// `read_len` bytes, if any. The caller throws the dice: padding is sent
/// when the read is shorter than 500 bytes and the coin shows `true`, and
/// the roll picks its length between 10 and 200 bytes.
pub fn padding_len(read_len: usize, coin: bool, roll: u8) -> (r: Option<usize>)
    ensures
        r == if 0 < read_len < PADDING_THRESHOLD && coin {
            Some((PADDING_MIN + roll % 191) as usize)
        } else {
            None
        },
        r matches Some(n) ==> PADDING_MIN <= n <= PADDING_MAX,
{
    if coin && read_len > 0 && read_len < PADDING_THRESHOLD {
        Some(PADDING_MIN + (roll % 191) as usize)
    } else {
        None
    }
}

/// The frame that carries `filler` as padding on stream `stream_id`.
pub fn padding_frame(stream_id: u32, filler: &[u8]) -> (f: Frame)
    requires
        filler@.len() <= MAX_PAYLOAD_LEN,
    ensures
        f@ == (FrameView { frame_type: FrameType::Padding, stream_id, payload: filler@ }),
        f.wf(),
{
    Frame::new(FrameType::Padding, stream_id, Bytes::from(copy_of(filler)))
}

/// The frame that tells the peer that stream `stream_id` has ended.
pub fn disconnect_frame(stream_id: u32) -> (f: Frame)
    ensures
        f@ == (FrameView {
            frame_type: FrameType::Disconnect,
            stream_id,
            payload: Seq::<u8>::empty(),
        }),
        f.wf(),
{
    Frame::new(FrameType::Disconnect, stream_id, Bytes::new())
}

/// The frame that carries `chunk` on stream `stream_id`.
pub fn data_frame(stream_id: u32, chunk: &[u8]) -> (f: Frame)
    requires
        chunk@.len() <= MAX_PAYLOAD_LEN,
    ensures
        f@ == (FrameView { frame_type: FrameType::Data, stream_id, payload: chunk@ }),
        f.wf(),
{
    Frame::new(FrameType::Data, stream_id, Bytes::from(copy_of(chunk)))
}

/// Whether a read ends the stream: it failed (`None`) or brought nothing.
pub open spec fn ends_stream(read: Option<Seq<u8>>) -> bool {
    match read {
        Some(chunk) => chunk.len() == 0,
        None => true,
    }
}

/// The frame that one read gives rise to: `Data` with what was read, or
/// `Disconnect` where the read ends the stream.
pub open spec fn frame_after_read(stream_id: u32, read: Option<Seq<u8>>) -> FrameView {
    if ends_stream(read) {
        FrameView { frame_type: FrameType::Disconnect, stream_id, payload: Seq::empty() }
    } else {
        FrameView { frame_type: FrameType::Data, stream_id, payload: read->Some_0 }
    }
}

/// The frames that a stream's read loop emits, given what its reads bring
/// one after the other: a frame for every read, up to and including the
/// first that ends the stream.
pub open spec fn egress(stream_id: u32, reads: Seq<Option<Seq<u8>>>) -> Seq<FrameView>
    decreases reads.len(),
{
    if reads.len() == 0 {
        Seq::empty()
    } else if ends_stream(reads[0]) {
        seq![frame_after_read(stream_id, reads[0])]
    } else {
        seq![frame_after_read(stream_id, reads[0])] + egress(stream_id, reads.skip(1))
    }
}

/// A stream whose `last`-th read is the first to end it emits one `Data`
/// frame for each read before that, in order and each with what was read,
/// and then exactly one `Disconnect` frame with an empty payload, all
/// under its own id and nothing after.
pub proof fn lemma_egress_ends_with_one_disconnect(
    stream_id: u32,
    reads: Seq<Option<Seq<u8>>>,
    last: int,
)
    requires
        0 <= last < reads.len(),
        ends_stream(reads[last]),
        forall|j: int| 0 <= j < last ==> !ends_stream(#[trigger] reads[j]),
    ensures
        egress(stream_id, reads).len() == last + 1,
        forall|j: int|
            0 <= j < last ==> #[trigger] egress(stream_id, reads)[j] == (FrameView {
                frame_type: FrameType::Data,
                stream_id,
                payload: reads[j]->Some_0,
            }),
        egress(stream_id, reads)[last] == (FrameView {
            frame_type: FrameType::Disconnect,
            stream_id,
            payload: Seq::<u8>::empty(),
        }),
    decreases last,
{
    if last > 0 {
        let rest = reads.skip(1);
        assert forall|j: int| 0 <= j < last - 1 implies !ends_stream(#[trigger] rest[j]) by {
            assert(rest[j] == reads[j + 1]);
        }
        lemma_egress_ends_with_one_disconnect(stream_id, rest, last - 1);
        let tail = egress(stream_id, rest);
        let all = egress(stream_id, reads);
        assert(all =~= seq![frame_after_read(stream_id, reads[0])] + tail);
        assert forall|j: int| 0 <= j < last implies #[trigger] all[j] == (FrameView {
            frame_type: FrameType::Data,
            stream_id,
            payload: reads[j]->Some_0,
        }) by {
            if j > 0 {
                assert(all[j] == tail[j - 1]);
                assert(rest[j - 1] == reads[j]);
            }
        }
        assert(all[last] == tail[last - 1]);
    }
}

/// Closing one stream leaves every other as it is: open or not, and with
/// the handle it had.
pub proof fn lemma_close_leaves_others<S>(streams: Map<u32, S>, closed: u32, other: u32)
    requires
        other != closed,
    ensures
        !streams.remove(closed).contains_key(closed),
        streams.remove(closed).contains_key(other) == streams.contains_key(other),
        streams.contains_key(other) ==> streams.remove(closed)[other] == streams[other],
{
}

/// What to emit after one read from a stream's socket, and whether to read
/// again. `None` stands for a failed read. Bytes travel in a `Data` frame
/// and the loop goes on; end of input (a read of nothing) or a failure ends
/// the stream with a `Disconnect` frame.
pub fn frame_for_read(stream_id: u32, read: Option<&[u8]>) -> (r: (Frame, bool))
    requires
        read matches Some(chunk) ==> chunk@.len() <= MAX_PAYLOAD_LEN,
    ensures
        r.0.wf(),
        r.0@ == frame_after_read(
            stream_id,
            match read {
                Some(chunk) => Some(chunk@),
                None => None,
            },
        ),
        r.1 == !ends_stream(
            match read {
                Some(chunk) => Some(chunk@),
                None => None,
            },
        ),
{
    match read {
        Some(chunk) => {
            if chunk.len() > 0 {
                (data_frame(stream_id, chunk), true)
            } else {
                (disconnect_frame(stream_id), false)
            }
        },
        None => (disconnect_frame(stream_id), false),
    }
}

} // verus!
