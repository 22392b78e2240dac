//! The encrypted session: records sealed under a shared key, each under
//! the nonce of its sequence number, and framed by a length prefix.
//!
//! On the wire a record is its length as a big-endian `u32`, then the
//! ciphertext and its tag. The session owns no transport: `send` returns
//! the bytes to emit in one transport-level send, the caller feeds in what
//! the transport delivers, in whatever pieces, and `recv` gives out one
//! record's plaintext at a time.

use crate::buffers::{buf_seq, bytes_seq};
use crate::crypto::{
    nonce_bytes, opened, sealed, x25519_agreed, x25519_public_key, ChimeraCrypto, Cipher,
    CryptoError, KEY_LEN, PUBLIC_KEY_LEN, TAG_LEN,
};
use crate::mimic::{Mimic, MimicError};
use crate::protocol::{be32, be32_bytes, lemma_be32_roundtrip, push_be32, read_be32};
use crate::text::copy_of;
use bytes::{Bytes, BytesMut};
use ring::agreement::EphemeralPrivateKey;
use vstd::prelude::*;

verus! {

/// Bytes of the length prefix.
pub const LENGTH_PREFIX_LEN: usize = 4;

/// The longest record (ciphertext and tag) that a session accepts unless
/// told otherwise: 1 MiB.
pub const DEFAULT_MAX_RECORD_LEN: u32 = 0x10_0000;

/// Why a session cannot go on.
#[derive(Debug, Clone, Copy, PartialEq, Eq, Structural)]
pub enum SessionError {
    /// The shared secret is not a key.
    InvalidKey,
    /// A sequence counter has reached its last value.
    SequenceExhausted,
    /// An inbound record is longer than the session accepts, or an
    /// outbound one longer than the length prefix can announce.
    RecordTooLarge,
    /// A record is not what the peer sealed under this key and sequence
    /// number.
    Decryption,
    /// The transport ended in the middle of a record.
    PartialRecord,
}

/// A session as a mathematical value.
#[verifier::ext_equal]
pub struct SessionView {
    /// The key that opens inbound records.
    pub key_in: Seq<u8>,
    /// The key that seals outbound records.
    pub key_out: Seq<u8>,
    /// The sequence number of the next inbound record.
    pub seq_in: u64,
    /// The sequence number of the next outbound record.
    pub seq_out: u64,
    /// What the transport has delivered and no record has used up.
    pub buffer: Seq<u8>,
    /// The longest inbound record that is accepted.
    pub max_record_len: u32,
}

/// A sealed record on the wire: its length, then the record.
pub open spec fn record_wire(body: Seq<u8>) -> Seq<u8> {
    be32_bytes(body.len() as u32) + body
}

/// What sealing promises of a record that it emits: it is 16 bytes longer
/// than the plaintext, and opening it under the same key and sequence
/// number gives the plaintext back.
pub open spec fn faithful(key: Seq<u8>, seq: u64, plaintext: Seq<u8>) -> bool {
    let body = sealed(key, nonce_bytes(seq), plaintext);
    &&& body.len() == plaintext.len() + TAG_LEN
    &&& opened(key, nonce_bytes(seq), body) == Some(plaintext)
}

/// What `send` does: the outcome, and the session afterwards.
///
/// Every plaintext is sealed and emitted whose record the 32-bit length
/// prefix can announce, for as long as sequence numbers are left.
pub open spec fn sent(v: SessionView, data: Seq<u8>) -> (
    Result<Seq<u8>, SessionError>,
    SessionView,
) {
    if data.len() + TAG_LEN > u32::MAX {
        (Err(SessionError::RecordTooLarge), v)
    } else if v.seq_out == u64::MAX {
        (Err(SessionError::SequenceExhausted), v)
    } else {
        (
            Ok(record_wire(sealed(v.key_out, nonce_bytes(v.seq_out), data))),
            SessionView { seq_out: (v.seq_out + 1) as u64, ..v },
        )
    }
}

/// What `recv` does: the outcome, and the session afterwards.
///
/// `Ok(None)` stands for "no complete record yet". A record that is
/// rejected is used up all the same.
pub open spec fn received(v: SessionView) -> (Result<Option<Seq<u8>>, SessionError>, SessionView) {
    if v.buffer.len() < LENGTH_PREFIX_LEN {
        (Ok(None), v)
    } else {
        let len = be32(v.buffer.subrange(0, 4));
        if len > v.max_record_len {
            (Err(SessionError::RecordTooLarge), v)
        } else if v.buffer.len() < LENGTH_PREFIX_LEN + len {
            (Ok(None), v)
        } else if v.seq_in == u64::MAX {
            (Err(SessionError::SequenceExhausted), v)
        } else {
            let body = v.buffer.subrange(4, 4 + len);
            let rest = v.buffer.skip(4 + len);
            match opened(v.key_in, nonce_bytes(v.seq_in), body) {
                Some(plaintext) => (
                    Ok(Some(plaintext)),
                    SessionView { buffer: rest, seq_in: (v.seq_in + 1) as u64, ..v },
                ),
                None => (Err(SessionError::Decryption), SessionView { buffer: rest, ..v }),
            }
        }
    }
}

/// One end of an encrypted session.
pub struct EncryptedConnection {
    cipher_in: Cipher,
    cipher_out: Cipher,
    seq_in: u64,
    seq_out: u64,
    buffer: BytesMut,
    max_record_len: u32,
}

impl View for EncryptedConnection {
    type V = SessionView;

    closed spec fn view(&self) -> SessionView {
        SessionView {
            key_in: self.cipher_in.key(),
            key_out: self.cipher_out.key(),
            seq_in: self.seq_in,
            seq_out: self.seq_out,
            buffer: buf_seq(self.buffer),
            max_record_len: self.max_record_len,
        }
    }
}

impl EncryptedConnection {
    /// Starts a session on the secret that the handshake agreed on: it is
    /// the key in both directions, both sequence numbers start at 0, and
    /// nothing has arrived yet. The secret must be 32 bytes long.
    pub fn new(secret: &[u8]) -> (r: Result<EncryptedConnection, SessionError>)
        ensures
            r is Ok <==> secret@.len() == KEY_LEN,
            r matches Ok(conn) ==> conn@ == session_on(secret@),
            r matches Err(e) ==> e == SessionError::InvalidKey,
    {
        let cipher_in = match Cipher::new(secret) {
            Ok(cipher) => cipher,
            Err(_) => {
                return Err(SessionError::InvalidKey);
            },
        };
        let cipher_out = match Cipher::new(secret) {
            Ok(cipher) => cipher,
            Err(_) => {
                return Err(SessionError::InvalidKey);
            },
        };
        Ok(
            EncryptedConnection {
                cipher_in,
                cipher_out,
                seq_in: 0,
                seq_out: 0,
                buffer: BytesMut::with_capacity(4096),
                max_record_len: DEFAULT_MAX_RECORD_LEN,
            },
        )
    }

    /// Sets the longest inbound record that the session accepts. What the
    /// session emits is not limited by it.
    pub fn set_max_record_len(&mut self, max_record_len: u32)
        ensures
            final(self)@ == (SessionView { max_record_len, ..old(self)@ }),
    {
        self.max_record_len = max_record_len;
    }

    /// The sequence number of the next inbound record.
    pub fn seq_in(&self) -> (n: u64)
        ensures
            n == self@.seq_in,
    {
        self.seq_in
    }

    /// The sequence number of the next outbound record.
    pub fn seq_out(&self) -> (n: u64)
        ensures
            n == self@.seq_out,
    {
        self.seq_out
    }

    /// How many bytes have arrived that no record has used up.
    pub fn buffered(&self) -> (n: usize)
        ensures
            n == self@.buffer.len(),
    {
        self.buffer.len()
    }

    /// Seals `data` as one record under the next outbound sequence number
    /// and returns what is to be emitted in a single transport-level send:
    /// the length prefix and the sealed record.
    ///
    /// Every call emits exactly one record. It fails, with the session
    /// unchanged, only where the record would be longer than the length
    /// prefix can announce or the sequence counter is exhausted.
    pub fn send(&mut self, data: &[u8]) -> (r: Result<Bytes, SessionError>)
        ensures
            final(self)@ == sent(old(self)@, data@).1,
            match r {
                Ok(wire) => sent(old(self)@, data@).0 == Ok::<Seq<u8>, SessionError>(
                    bytes_seq(wire),
                ) && faithful(old(self)@.key_out, old(self)@.seq_out, data@),
                Err(e) => sent(old(self)@, data@).0 == Err::<Seq<u8>, SessionError>(e),
            },
    {
        if data.len() > u32::MAX as usize - TAG_LEN {
            return Err(SessionError::RecordTooLarge);
        }
        if self.seq_out == u64::MAX {
            return Err(SessionError::SequenceExhausted);
        }
        let mut body = copy_of(data);
        // sealing refuses only what is longer than the prefix can announce
        if self.cipher_out.encrypt(self.seq_out, &mut body).is_err() {
            return Err(SessionError::RecordTooLarge);
        }
        self.seq_out = self.seq_out + 1;
        let mut wire: Vec<u8> = Vec::new();
        push_be32(&mut wire, body.len() as u32);
        wire.extend_from_slice(body.as_slice());
        assert(wire@ =~= record_wire(body@));
        Ok(Bytes::from(wire))
    }

    /// Takes in what the transport has delivered.
    pub fn feed(&mut self, chunk: &[u8])
        ensures
            final(self)@ == (SessionView { buffer: old(self)@.buffer + chunk@, ..old(self)@ }),
    {
        self.buffer.extend_from_slice(chunk);
    }

    /// Gives out the plaintext of the next record once all of it has
    /// arrived, and advances the inbound sequence number.
    ///
    /// `Ok(None)` means that more bytes are needed. A length prefix beyond
    /// what the session accepts, an exhausted sequence counter and a record
    /// that does not open under the next sequence number are errors, and
    /// the session is of no use after them.
    pub fn recv(&mut self) -> (r: Result<Option<Bytes>, SessionError>)
        ensures
            final(self)@ == received(old(self)@).1,
            match r {
                Ok(Some(plaintext)) => received(old(self)@).0 == Ok::<
                    Option<Seq<u8>>,
                    SessionError,
                >(Some(bytes_seq(plaintext))),
                Ok(None) => received(old(self)@).0 == Ok::<Option<Seq<u8>>, SessionError>(None),
                Err(e) => received(old(self)@).0 == Err::<Option<Seq<u8>>, SessionError>(e),
            },
    {
        let ghost before = self@;
        let held: usize = self.buffer.len();
        if held < LENGTH_PREFIX_LEN {
            return Ok(None);
        }
        let announced: u32 = read_be32(self.buffer.as_ref(), 0);
        if announced > self.max_record_len {
            return Err(SessionError::RecordTooLarge);
        }
        let len: usize = announced as usize;
        if held - LENGTH_PREFIX_LEN < len {
            return Ok(None);
        }
        if self.seq_in == u64::MAX {
            return Err(SessionError::SequenceExhausted);
        }
        let _ = self.buffer.split_to(LENGTH_PREFIX_LEN);
        let sealed_record = self.buffer.split_to(len);
        assert(buf_seq(self.buffer) =~= before.buffer.skip(4 + len));
        assert(buf_seq(sealed_record) =~= before.buffer.subrange(4, 4 + len));
        let mut body = copy_of(sealed_record.as_ref());
        match self.cipher_in.decrypt(self.seq_in, &mut body) {
            Ok(plain_len) => {
                body.truncate(plain_len);
                self.seq_in = self.seq_in + 1;
                Ok(Some(Bytes::from(body)))
            },
            Err(_) => Err(SessionError::Decryption),
        }
    }

    /// Says whether the transport may end here: it may between records,
    /// and not inside one.
    pub fn end_of_stream(&self) -> (r: Result<(), SessionError>)
        ensures
            r is Ok <==> self@.buffer.len() == 0,
            r matches Err(e) ==> e == SessionError::PartialRecord,
    {
        if self.buffer.len() == 0 {
            Ok(())
        } else {
            Err(SessionError::PartialRecord)
        }
    }
}

/// The session after `n` calls of `recv`.
pub open spec fn after_recvs(v: SessionView, n: nat) -> SessionView
    decreases n,
{
    if n == 0 {
        v
    } else {
        received(after_recvs(v, (n - 1) as nat)).1
    }
}

/// Sealed records on the wire, one after the other.
pub open spec fn records_wire(bodies: Seq<Seq<u8>>) -> Seq<u8>
    decreases bodies.len(),
{
    if bodies.len() == 0 {
        Seq::empty()
    } else {
        record_wire(bodies[0]) + records_wire(bodies.skip(1))
    }
}

/// A record that stands complete at the head of what has arrived, and
/// that opens under the receiver's key and next sequence number, is what
/// `recv` returns, whole and alone; what follows it stays for the next
/// call, and the sequence number goes up by one.
pub proof fn lemma_recv_takes_one_record(
    v: SessionView,
    body: Seq<u8>,
    plaintext: Seq<u8>,
    rest: Seq<u8>,
)
    requires
        body.len() <= v.max_record_len,
        v.seq_in < u64::MAX,
        v.buffer == record_wire(body) + rest,
        opened(v.key_in, nonce_bytes(v.seq_in), body) == Some(plaintext),
    ensures
        received(v).0 == Ok::<Option<Seq<u8>>, SessionError>(Some(plaintext)),
        received(v).1 == (SessionView { buffer: rest, seq_in: (v.seq_in + 1) as u64, ..v }),
{
    let len = body.len() as u32;
    lemma_be32_roundtrip(len);
    assert(v.buffer.subrange(0, 4) =~= be32_bytes(len));
    assert(v.buffer.subrange(4, 4 + len) =~= body);
    assert(v.buffer.skip(4 + len) =~= rest);
}

/// A record that stands complete at the head of what has arrived and that
/// the cipher rejects under the receiver's key and next sequence number
/// (one sealed under another number, or altered, where the cipher tells)
/// ends in a decryption error: no plaintext is returned, the record is
/// used up, and the sequence number stays.
pub proof fn lemma_rejected_record_is_an_error(v: SessionView, body: Seq<u8>, rest: Seq<u8>)
    requires
        body.len() <= v.max_record_len,
        v.seq_in < u64::MAX,
        v.buffer == record_wire(body) + rest,
        opened(v.key_in, nonce_bytes(v.seq_in), body) is None,
    ensures
        received(v).0 == Err::<Option<Seq<u8>>, SessionError>(SessionError::Decryption),
        received(v).1 == (SessionView { buffer: rest, ..v }),
{
    let len = body.len() as u32;
    lemma_be32_roundtrip(len);
    assert(v.buffer.subrange(0, 4) =~= be32_bytes(len));
    assert(v.buffer.subrange(4, 4 + len) =~= body);
    assert(v.buffer.skip(4 + len) =~= rest);
}

/// The records of `send(x_0)`, ..., `send(x_n)`, delivered in order to a
/// receiver whose next sequence number is that of the first of them, come
/// out of as many calls of `recv` as `x_0`, ..., `x_n`: record for record,
/// none merged and none split. `bodies` are the sealed records, `plain`
/// what each opens to under the sequence number of its place.
pub proof fn lemma_recv_in_order(
    v: SessionView,
    bodies: Seq<Seq<u8>>,
    plain: Seq<Seq<u8>>,
    rest: Seq<u8>,
)
    requires
        bodies.len() == plain.len(),
        v.seq_in + bodies.len() <= u64::MAX,
        v.buffer == records_wire(bodies) + rest,
        forall|i: int| 0 <= i < bodies.len() ==> (#[trigger] bodies[i]).len() <= v.max_record_len,
        forall|i: int|
            0 <= i < bodies.len() ==> opened(
                v.key_in,
                nonce_bytes((v.seq_in + i) as u64),
                #[trigger] bodies[i],
            ) == Some(plain[i]),
    ensures
        forall|i: int|
            0 <= i < bodies.len() ==> (#[trigger] received(after_recvs(v, i as nat))).0 == Ok::<
                Option<Seq<u8>>,
                SessionError,
            >(Some(plain[i])),
        after_recvs(v, bodies.len()) == (SessionView {
            buffer: rest,
            seq_in: (v.seq_in + bodies.len()) as u64,
            ..v
        }),
    decreases bodies.len(),
{
    if bodies.len() == 0 {
        assert(records_wire(bodies) + rest =~= rest);
        assert(after_recvs(v, 0) =~= v);
    } else {
        let n = (bodies.len() - 1) as nat;
        let front = bodies.take(n as int);
        let last = bodies[n as int];
        lemma_records_wire_push(front, last);
        assert(front.push(last) =~= bodies);
        assert(v.buffer =~= records_wire(front) + (record_wire(last) + rest));
        assert forall|i: int| 0 <= i < front.len() implies opened(
            v.key_in,
            nonce_bytes((v.seq_in + i) as u64),
            #[trigger] front[i],
        ) == Some(plain.take(n as int)[i]) by {
            assert(front[i] == bodies[i]);
        }
        assert forall|i: int| 0 <= i < front.len() implies (#[trigger] front[i]).len()
            <= v.max_record_len by {
            assert(front[i] == bodies[i]);
        }
        lemma_recv_in_order(v, front, plain.take(n as int), record_wire(last) + rest);
        let mid = after_recvs(v, n);
        lemma_recv_takes_one_record(mid, last, plain[n as int], rest);
        assert(after_recvs(v, bodies.len()) == received(mid).1);
        assert forall|i: int| 0 <= i < bodies.len() implies (#[trigger] received(
            after_recvs(v, i as nat),
        )).0 == Ok::<Option<Seq<u8>>, SessionError>(Some(plain[i])) by {
            if i < n {
                assert(plain.take(n as int)[i] == plain[i]);
            }
        }
    }
}

/// Records laid end to end: one more at the end.
pub proof fn lemma_records_wire_push(bodies: Seq<Seq<u8>>, last: Seq<u8>)
    ensures
        records_wire(bodies.push(last)) == records_wire(bodies) + record_wire(last),
    decreases bodies.len(),
{
    let all = bodies.push(last);
    if bodies.len() == 0 {
        assert(all.skip(1) =~= Seq::<Seq<u8>>::empty());
        assert(records_wire(all.skip(1)) =~= Seq::<u8>::empty());
        assert(records_wire(all) =~= records_wire(bodies) + record_wire(last));
    } else {
        assert(all.skip(1) =~= bodies.skip(1).push(last));
        lemma_records_wire_push(bodies.skip(1), last);
        assert(records_wire(all) =~= records_wire(bodies) + record_wire(last));
    }
}

/// The session after sending each of `items`, in order.
pub open spec fn after_sends(v: SessionView, items: Seq<Seq<u8>>) -> SessionView
    decreases items.len(),
{
    if items.len() == 0 {
        v
    } else {
        sent(after_sends(v, items.drop_last()), items.last()).1
    }
}

/// Send sequence numbers go up by one with every record: after `n`
/// sends that the session accepts, the counter stands `n` higher, and the
/// record of each send is sealed under the number of its place.
pub proof fn lemma_send_sequence(v: SessionView, items: Seq<Seq<u8>>)
    requires
        v.seq_out + items.len() <= u64::MAX,
        forall|i: int| 0 <= i < items.len() ==> (#[trigger] items[i]).len() + TAG_LEN <= u32::MAX,
    ensures
        after_sends(v, items) == (SessionView { seq_out: (v.seq_out + items.len()) as u64, ..v }),
        forall|i: int|
            0 <= i < items.len() ==> (#[trigger] sent(after_sends(v, items.take(i)), items[i])).0
                == Ok::<Seq<u8>, SessionError>(
                record_wire(sealed(v.key_out, nonce_bytes((v.seq_out + i) as u64), items[i])),
            ),
    decreases items.len(),
{
    if items.len() == 0 {
        assert(after_sends(v, items) =~= v);
    } else {
        let front = items.drop_last();
        assert forall|i: int| 0 <= i < front.len() implies (#[trigger] front[i]).len() + TAG_LEN
            <= u32::MAX by {
            assert(front[i] == items[i]);
        }
        lemma_send_sequence(v, front);
        assert forall|i: int| 0 <= i < items.len() implies (#[trigger] sent(
            after_sends(v, items.take(i)),
            items[i],
        )).0 == Ok::<Seq<u8>, SessionError>(
            record_wire(sealed(v.key_out, nonce_bytes((v.seq_out + i) as u64), items[i])),
        ) by {
            if i < front.len() {
                assert(items.take(i) =~= front.take(i));
                assert(items[i] == front[i]);
            } else {
                assert(items.take(i) =~= front);
            }
        }
    }
}

/// What a sender puts on the wire for `items`, sent in order.
pub open spec fn sent_wire(v: SessionView, items: Seq<Seq<u8>>) -> Seq<u8>
    decreases items.len(),
{
    if items.len() == 0 {
        Seq::empty()
    } else {
        let front = items.drop_last();
        sent_wire(v, front) + match sent(after_sends(v, front), items.last()).0 {
            Ok(wire) => wire,
            Err(_) => Seq::empty(),
        }
    }
}

/// What `send(x_0)`, ..., `send(x_n)` put on the wire, a receiver that
/// shares the sender's key and stands at the sender's first sequence
/// number reads back with as many calls of `recv`, record for record:
/// call `i` returns `x_i`, and afterwards nothing is left over.
///
/// Every record is taken to be faithful, which is what `send` promises of
/// each record that it emits.
pub proof fn lemma_session_round_trip(
    sender: SessionView,
    receiver: SessionView,
    items: Seq<Seq<u8>>,
)
    requires
        receiver.key_in == sender.key_out,
        receiver.seq_in == sender.seq_out,
        receiver.buffer == sent_wire(sender, items),
        sender.seq_out + items.len() <= u64::MAX,
        forall|i: int|
            0 <= i < items.len() ==> (#[trigger] items[i]).len() + TAG_LEN
                <= receiver.max_record_len,
        forall|i: int|
            0 <= i < items.len() ==> faithful(
                sender.key_out,
                (sender.seq_out + i) as u64,
                #[trigger] items[i],
            ),
    ensures
        forall|i: int|
            0 <= i < items.len() ==> (#[trigger] received(after_recvs(receiver, i as nat))).0
                == Ok::<Option<Seq<u8>>, SessionError>(Some(items[i])),
        after_recvs(receiver, items.len()) == (SessionView {
            buffer: Seq::<u8>::empty(),
            seq_in: (receiver.seq_in + items.len()) as u64,
            ..receiver
        }),
{
    let bodies = Seq::new(
        items.len(),
        |i: int| sealed(sender.key_out, nonce_bytes((sender.seq_out + i) as u64), items[i]),
    );
    lemma_sent_wire(sender, items);
    assert(sent_wire(sender, items) + Seq::<u8>::empty() =~= sent_wire(sender, items));
    assert forall|i: int| 0 <= i < bodies.len() implies opened(
        receiver.key_in,
        nonce_bytes((receiver.seq_in + i) as u64),
        #[trigger] bodies[i],
    ) == Some(items[i]) by {
        assert(faithful(sender.key_out, (sender.seq_out + i) as u64, items[i]));
    }
    assert forall|i: int| 0 <= i < bodies.len() implies (#[trigger] bodies[i]).len()
        <= receiver.max_record_len by {
        assert(faithful(sender.key_out, (sender.seq_out + i) as u64, items[i]));
    }
    lemma_recv_in_order(receiver, bodies, items, Seq::<u8>::empty());
}

/// What a sender puts on the wire is the records of its items, each sealed
/// under the sequence number of its place.
pub proof fn lemma_sent_wire(v: SessionView, items: Seq<Seq<u8>>)
    requires
        v.seq_out + items.len() <= u64::MAX,
        forall|i: int| 0 <= i < items.len() ==> (#[trigger] items[i]).len() + TAG_LEN <= u32::MAX,
    ensures
        sent_wire(v, items) == records_wire(
            Seq::new(
                items.len(),
                |i: int| sealed(v.key_out, nonce_bytes((v.seq_out + i) as u64), items[i]),
            ),
        ),
    decreases items.len(),
{
    let bodies = Seq::new(
        items.len(),
        |i: int| sealed(v.key_out, nonce_bytes((v.seq_out + i) as u64), items[i]),
    );
    if items.len() == 0 {
        assert(records_wire(bodies) =~= Seq::<u8>::empty());
    } else {
        let front = items.drop_last();
        let n = front.len() as int;
        assert forall|i: int| 0 <= i < front.len() implies (#[trigger] front[i]).len() + TAG_LEN
            <= u32::MAX by {
            assert(front[i] == items[i]);
        }
        lemma_sent_wire(v, front);
        lemma_send_sequence(v, items);
        let front_bodies = Seq::new(
            front.len(),
            |i: int| sealed(v.key_out, nonce_bytes((v.seq_out + i) as u64), front[i]),
        );
        assert(front_bodies =~= bodies.drop_last());
        assert(bodies =~= bodies.drop_last().push(bodies.last()));
        lemma_records_wire_push(bodies.drop_last(), bodies.last());
        assert(items.take(n) =~= front);
        assert(sent(after_sends(v, items.take(n)), items[n]).0 == Ok::<Seq<u8>, SessionError>(
            record_wire(bodies[n]),
        ));
    }
}

/// The plaintexts of a vector, as mathematical values.
pub open spec fn plaintexts(items: Seq<Vec<u8>>) -> Seq<Seq<u8>> {
    items.map_values(|item: Vec<u8>| item@)
}

/// Whether `transfer` can carry `items`: the sender has sequence numbers
/// for all of them, and the receiver accepts the record of each.
pub open spec fn transferable(sender: SessionView, receiver: SessionView, items: Seq<Seq<u8>>) -> bool {
    &&& sender.seq_out + items.len() <= u64::MAX
    &&& forall|i: int|
        0 <= i < items.len() ==> (#[trigger] items[i]).len() + TAG_LEN <= receiver.max_record_len
}

/// Carries `items` from one end of a session to the other, in memory:
/// each is sent on `sender`, what `sender` emits is delivered to
/// `receiver` in pieces of at most `chunk` bytes (in one piece if `chunk`
/// is 0), and `receiver` is asked for as many records as were sent.
///
/// The two ends must share the key and stand at the same sequence number,
/// and `receiver` must hold nothing. Then `items` arrive as they were
/// sent: record for record, in order, none merged and none split,
/// however the bytes were cut on the way, and nothing is left over.
///
/// Nothing is sent, and an error returned, where the receiver would not
/// accept the record of some item or the sender would run out of sequence
/// numbers.
pub fn transfer(
    sender: &mut EncryptedConnection,
    receiver: &mut EncryptedConnection,
    items: &Vec<Vec<u8>>,
    chunk: usize,
) -> (r: Result<Vec<Bytes>, SessionError>)
    requires
        old(receiver)@.key_in == old(sender)@.key_out,
        old(receiver)@.seq_in == old(sender)@.seq_out,
        old(receiver)@.buffer.len() == 0,
    ensures
        r is Ok <==> transferable(old(sender)@, old(receiver)@, plaintexts(items@)),
        match r {
            Ok(out) => {
                &&& out@.len() == items@.len()
                &&& forall|i: int|
                    0 <= i < items@.len() ==> bytes_seq(#[trigger] out@[i]) == items@[i]@
                &&& final(sender)@ == (SessionView {
                    seq_out: (old(sender)@.seq_out + items@.len()) as u64,
                    ..old(sender)@
                })
                &&& final(receiver)@ == (SessionView {
                    seq_in: (old(receiver)@.seq_in + items@.len()) as u64,
                    ..old(receiver)@
                })
            },
            Err(e) => {
                &&& final(sender)@ == old(sender)@
                &&& final(receiver)@ == old(receiver)@
                &&& e == if forall|i: int|
                    0 <= i < items@.len() ==> (#[trigger] items@[i])@.len() + TAG_LEN <= old(
                        receiver,
                    )@.max_record_len {
                    SessionError::SequenceExhausted
                } else {
                    SessionError::RecordTooLarge
                }
            },
        },
{
    let ghost s0 = sender@;
    let ghost r0 = receiver@;
    let ghost plain = plaintexts(items@);
    let n: usize = items.len();
    let limit: u64 = receiver.max_record_len as u64;

    // nothing is sent unless all of it can arrive
    let mut i: usize = 0;
    while i < n
        invariant
            i <= n,
            n == items@.len(),
            limit == r0.max_record_len,
            plain == plaintexts(items@),
            sender@ == s0,
            receiver@ == r0,
            s0 == old(sender)@,
            r0 == old(receiver)@,
            forall|j: int| 0 <= j < i ==> (#[trigger] items@[j])@.len() + TAG_LEN <= limit,
        decreases n - i,
    {
        if items[i].len() as u64 > limit || limit - (items[i].len() as u64) < TAG_LEN as u64 {
            assert(items@[i as int]@.len() + TAG_LEN > limit);
            assert(plain[i as int] == items@[i as int]@);
            return Err(SessionError::RecordTooLarge);
        }
        i = i + 1;
    }
    assert forall|j: int| 0 <= j < plain.len() implies (#[trigger] plain[j]).len() + TAG_LEN
        <= r0.max_record_len by {
        assert(plain[j] == items@[j]@);
    }
    if u64::MAX - sender.seq_out < n as u64 {
        return Err(SessionError::SequenceExhausted);
    }
    // send
    let mut wire: Vec<u8> = Vec::new();
    i = 0;
    assert(plain.take(0) =~= Seq::<Seq<u8>>::empty());
    while i < n
        invariant
            i <= n,
            n == items@.len(),
            plain == plaintexts(items@),
            s0.seq_out + n <= u64::MAX,
            forall|j: int| 0 <= j < plain.len() ==> (#[trigger] plain[j]).len() + TAG_LEN
                <= r0.max_record_len,
            sender@ == after_sends(s0, plain.take(i as int)),
            sender@ == (SessionView { seq_out: (s0.seq_out + i) as u64, ..s0 }),
            wire@ == sent_wire(s0, plain.take(i as int)),
            forall|j: int|
                0 <= j < i ==> faithful(s0.key_out, (s0.seq_out + j) as u64, #[trigger] plain[j]),
        decreases n - i,
    {
        let ghost before = plain.take(i as int);
        let ghost next = plain.take(i + 1);
        proof {
            assert(next.drop_last() =~= before);
            assert(next.last() == plain[i as int]);
            assert(plain[i as int] == items@[i as int]@);
        }
        match sender.send(items[i].as_slice()) {
            Ok(record) => {
                wire.extend_from_slice(record.as_ref());
                assert(wire@ =~= sent_wire(s0, before) + bytes_seq(record));
            },
            Err(e) => {
                return Err(e);
            },
        }
        i = i + 1;
    }
    assert(plain.take(n as int) =~= plain);
    // deliver
    let total: usize = wire.len();
    let step: usize = if chunk == 0 {
        total
    } else {
        chunk
    };
    let mut at: usize = 0;
    assert(r0.buffer + wire@.take(0) =~= r0.buffer);
    while at < total
        invariant
            at <= total,
            total == wire@.len(),
            step > 0 || total == 0,
            receiver@ == (SessionView { buffer: wire@.take(at as int), ..r0 }),
        decreases total - at,
    {
        let end: usize = if total - at < step {
            total
        } else {
            at + step
        };
        receiver.feed(vstd::slice::slice_subrange(wire.as_slice(), at, end));
        assert(wire@.take(at as int) + wire@.subrange(at as int, end as int) =~= wire@.take(
            end as int,
        ));
        at = end;
    }
    assert(wire@.take(total as int) =~= wire@);
    let ghost r1 = receiver@;
    proof {
        lemma_session_round_trip(s0, r1, plain);
        assert forall|k: nat| k < n implies (#[trigger] received(after_recvs(r1, k))).0 == Ok::<
            Option<Seq<u8>>,
            SessionError,
        >(Some(plain[k as int])) by {
            let j = k as int;
            assert(received(after_recvs(r1, j as nat)).0 == Ok::<Option<Seq<u8>>, SessionError>(
                Some(plain[j]),
            ));
        }
    }
    // receive
    let mut out: Vec<Bytes> = Vec::new();
    i = 0;
    while i < n
        invariant
            i <= n,
            n == items@.len(),
            n == plain.len(),
            plain == plaintexts(items@),
            out@.len() == i,
            receiver@ == after_recvs(r1, i as nat),
            forall|k: nat|
                k < n ==> (#[trigger] received(after_recvs(r1, k))).0 == Ok::<
                    Option<Seq<u8>>,
                    SessionError,
                >(Some(plain[k as int])),
            forall|j: int| 0 <= j < i ==> bytes_seq(#[trigger] out@[j]) == items@[j]@,
        decreases n - i,
    {
        assert(received(after_recvs(r1, i as nat)).0 == Ok::<Option<Seq<u8>>, SessionError>(
            Some(plain[i as int]),
        ));
        assert(plain[i as int] == items@[i as int]@);
        match receiver.recv() {
            Ok(Some(plaintext)) => {
                out.push(plaintext);
            },
            Ok(None) => {
                return Err(SessionError::PartialRecord);
            },
            Err(e) => {
                return Err(e);
            },
        }
        i = i + 1;
    }
    Ok(out)
}

/// Seconds that a server waits for a handshake to complete before it drops
/// the connection.
pub const HANDSHAKE_TIMEOUT_SECS: u64 = 5;

/// Why a handshake failed.
#[derive(Debug, Clone, Copy, PartialEq, Eq, Structural)]
pub enum HandshakeError {
    /// Key generation or key agreement failed.
    Crypto(CryptoError),
    /// The transport ended before the peer's key arrived.
    ConnectionClosed,
    /// What arrived is not of the cover protocol.
    NotRecognized,
    /// What arrived is of the cover protocol but carries no payload, or
    /// the own key could not be wrapped.
    Mimic(MimicError),
}

/// Where a handshake stands.
#[derive(Debug, Clone, Copy, PartialEq, Eq, Structural)]
pub enum HandshakeStage {
    /// Nothing has happened yet.
    Start,
    /// The own key is on its way to the peer.
    AwaitingSend,
    /// The peer's key is awaited.
    AwaitingPeer,
    /// The handshake has ended, in a session or in failure.
    Done,
}

/// What the caller is to do next.
pub enum HandshakeStep {
    /// Emit these bytes in one transport-level send, then call `on_sent`.
    Send(Bytes),
    /// Take one delivery from the transport and call `on_received` with it.
    Receive,
    /// The handshake is complete: this is the session.
    Established(EncryptedConnection),
    /// The handshake has failed: drop the connection.
    Failed(HandshakeError),
}

/// What a side sends: its public key, wrapped if a mimic is configured.
pub open spec fn outgoing<M: Mimic>(mimic: Option<M>, public_key: Seq<u8>, is_server: bool) -> Result<
    Seq<u8>,
    MimicError,
> {
    match mimic {
        Some(m) => m.encapsulated(public_key, is_server),
        None => Ok(public_key),
    }
}

/// What a side reads out of what arrived: the peer's public key, unwrapped
/// if a mimic is configured.
pub open spec fn incoming<M: Mimic>(mimic: Option<M>, data: Seq<u8>) -> Result<
    Option<Seq<u8>>,
    MimicError,
> {
    match mimic {
        Some(m) => m.decapsulated(data),
        None => Ok(Some(data)),
    }
}

/// A session as it starts on `secret`: the secret is the key in both
/// directions, both sequence numbers are 0, nothing is buffered.
pub open spec fn session_on(secret: Seq<u8>) -> SessionView {
    SessionView {
        key_in: secret,
        key_out: secret,
        seq_in: 0,
        seq_out: 0,
        buffer: Seq::empty(),
        max_record_len: DEFAULT_MAX_RECORD_LEN,
    }
}

/// How a handshake ends once the peer's key is in hand: where X25519
/// agrees on a secret from the own private key and the peer's key, in a
/// session that starts on that secret; where it refuses the peer's key, in
/// failure.
pub open spec fn concludes(
    step: HandshakeStep,
    private_key: EphemeralPrivateKey,
    peer_key: Seq<u8>,
) -> bool {
    match x25519_agreed(private_key, peer_key) {
        Some(secret) => step matches HandshakeStep::Established(conn) && conn@ == session_on(
            secret,
        ),
        None => step matches HandshakeStep::Failed(e) && e == HandshakeError::Crypto(
            CryptoError::KeyAgreement,
        ),
    }
}

/// One side of the key exchange that opens a session.
///
/// Each side sends its ephemeral public key once and receives the peer's
/// once: the client sends first, the server receives first. The handshake
/// does no I/O: it tells the caller what to do and is told what happened.
pub struct Handshake<M: Mimic> {
    is_server: bool,
    mimic: Option<M>,
    private_key: Option<EphemeralPrivateKey>,
    public_key: Vec<u8>,
    peer_key: Option<Vec<u8>>,
    stage: HandshakeStage,
}

impl<M: Mimic> Handshake<M> {
    /// What holds of every handshake that `new` made, whatever was done
    /// with it since: the private key is there until the handshake is
    /// done, the public key is that of the private key and 32 bytes long,
    /// and a server that is sending its key has the client's.
    pub closed spec fn wf(&self) -> bool {
        &&& self.stage != HandshakeStage::Done ==> self.private_key is Some
        &&& self.private_key matches Some(key) ==> x25519_public_key(key) == Some(
            self.public_key@,
        )
        &&& self.public_key@.len() == PUBLIC_KEY_LEN
        &&& (self.is_server && self.stage == HandshakeStage::AwaitingSend) ==> self.peer_key is Some
    }

    /// Where the handshake stands.
    pub closed spec fn stage(&self) -> HandshakeStage {
        self.stage
    }

    /// Whether this is the server's side.
    pub closed spec fn is_server(&self) -> bool {
        self.is_server
    }

    /// The mimic that wraps and unwraps the keys, if any.
    pub closed spec fn mimic(&self) -> Option<M> {
        self.mimic
    }

    /// The own private key, until it has been used.
    pub closed spec fn private_key(&self) -> Option<EphemeralPrivateKey> {
        self.private_key
    }

    /// The own public key.
    pub closed spec fn public_key(&self) -> Seq<u8> {
        self.public_key@
    }

    /// The peer's public key, once it has arrived.
    pub closed spec fn peer_key(&self) -> Option<Seq<u8>> {
        match self.peer_key {
            Some(k) => Some(k@),
            None => None,
        }
    }

    /// Generates the ephemeral key pair of one handshake: a private key
    /// and its public key.
    pub fn new(is_server: bool, mimic: Option<M>) -> (r: Result<Self, HandshakeError>)
        ensures
            r matches Ok(h) ==> {
                &&& h.wf()
                &&& h.stage() == HandshakeStage::Start
                &&& h.is_server() == is_server
                &&& h.mimic() == mimic
                &&& h.public_key().len() == PUBLIC_KEY_LEN
                &&& h.private_key() matches Some(key) && x25519_public_key(key) == Some(
                    h.public_key(),
                )
                &&& h.peer_key() is None
            },
            r matches Err(e) ==> e == HandshakeError::Crypto(CryptoError::KeyGeneration) || e
                == HandshakeError::Crypto(CryptoError::PublicKey),
    {
        match ChimeraCrypto::generate_ephemeral_key() {
            Ok((private_key, public_key)) => Ok(
                Handshake {
                    is_server,
                    mimic,
                    private_key: Some(private_key),
                    public_key,
                    peer_key: None,
                    stage: HandshakeStage::Start,
                },
            ),
            Err(e) => Err(HandshakeError::Crypto(e)),
        }
    }

    /// Where the handshake stands.
    pub fn current_stage(&self) -> (stage: HandshakeStage)
        ensures
            stage == self.stage(),
    {
        self.stage
    }

    /// The own public key's bytes.
    pub fn public_key_bytes(&self) -> (key: &[u8])
        requires
            self.wf(),
        ensures
            key@ == self.public_key(),
            key@.len() == PUBLIC_KEY_LEN,
    {
        self.public_key.as_slice()
    }

    /// The message that carries the own public key.
    fn message(&self) -> (r: Result<Bytes, MimicError>)
        ensures
            match r {
                Ok(packet) => outgoing(self.mimic(), self.public_key(), self.is_server()) == Ok::<
                    Seq<u8>,
                    MimicError,
                >(bytes_seq(packet)),
                Err(e) => outgoing(self.mimic(), self.public_key(), self.is_server()) == Err::<
                    Seq<u8>,
                    MimicError,
                >(e),
            },
    {
        match &self.mimic {
            Some(m) => m.encapsulate(self.public_key.as_slice(), self.is_server),
            None => Ok(Bytes::from(copy_of(self.public_key.as_slice()))),
        }
    }

    /// Agrees on the secret and opens the session.
    fn conclude(&mut self, peer_key: &[u8]) -> (step: HandshakeStep)
        requires
            old(self).private_key is Some,
            old(self).public_key@.len() == PUBLIC_KEY_LEN,
        ensures
            final(self).wf(),
            final(self).stage() == HandshakeStage::Done,
            final(self).is_server() == old(self).is_server(),
            final(self).mimic() == old(self).mimic(),
            final(self).public_key() == old(self).public_key(),
            final(self).private_key() is None,
            concludes(step, old(self).private_key->Some_0, peer_key@),
    {
        self.stage = HandshakeStage::Done;
        let private_key = match self.private_key.take() {
            Some(key) => key,
            None => {
                return HandshakeStep::Failed(HandshakeError::Crypto(CryptoError::KeyAgreement));
            },
        };
        let secret = match ChimeraCrypto::derive_secret(private_key, peer_key) {
            Ok(secret) => secret,
            Err(e) => {
                return HandshakeStep::Failed(HandshakeError::Crypto(e));
            },
        };
        match EncryptedConnection::new(secret.as_slice()) {
            Ok(conn) => HandshakeStep::Established(conn),
            Err(_) => HandshakeStep::Failed(HandshakeError::Crypto(CryptoError::KeyAgreement)),
        }
    }

    /// Starts the exchange: the client sends its key, the server waits for
    /// the client's.
    pub fn begin(&mut self) -> (step: HandshakeStep)
        requires
            old(self).wf(),
            old(self).stage() == HandshakeStage::Start,
        ensures
            final(self).wf(),
            final(self).is_server() == old(self).is_server(),
            final(self).mimic() == old(self).mimic(),
            final(self).public_key() == old(self).public_key(),
            final(self).private_key() == old(self).private_key(),
            final(self).peer_key() == old(self).peer_key(),
            old(self).is_server() ==> step is Receive && final(self).stage()
                == HandshakeStage::AwaitingPeer,
            !old(self).is_server() ==> match outgoing(
                old(self).mimic(),
                old(self).public_key(),
                false,
            ) {
                Ok(packet) => step matches HandshakeStep::Send(b) && bytes_seq(b) == packet
                    && final(self).stage() == HandshakeStage::AwaitingSend,
                Err(e) => step matches HandshakeStep::Failed(f) && f == HandshakeError::Mimic(e)
                    && final(self).stage() == HandshakeStage::Done,
            },
    {
        if self.is_server {
            self.stage = HandshakeStage::AwaitingPeer;
            HandshakeStep::Receive
        } else {
            match self.message() {
                Ok(packet) => {
                    self.stage = HandshakeStage::AwaitingSend;
                    HandshakeStep::Send(packet)
                },
                Err(e) => {
                    self.stage = HandshakeStage::Done;
                    HandshakeStep::Failed(HandshakeError::Mimic(e))
                },
            }
        }
    }

    /// The own key has been sent: the client now waits for the server's
    /// key, the server agrees on the secret and opens the session.
    pub fn on_sent(&mut self) -> (step: HandshakeStep)
        requires
            old(self).wf(),
            old(self).stage() == HandshakeStage::AwaitingSend,
        ensures
            final(self).wf(),
            final(self).is_server() == old(self).is_server(),
            final(self).mimic() == old(self).mimic(),
            final(self).public_key() == old(self).public_key(),
            old(self).private_key() is Some,
            !old(self).is_server() ==> step is Receive && final(self).stage()
                == HandshakeStage::AwaitingPeer && final(self).peer_key() == old(self).peer_key()
                && final(self).private_key() == old(self).private_key(),
            old(self).is_server() ==> final(self).stage() == HandshakeStage::Done && old(self).peer_key() is Some && final(self).private_key() is None && concludes(
                step,
                old(self).private_key()->Some_0,
                old(self).peer_key()->Some_0,
            ),
    {
        if self.is_server {
            let peer_key = match self.peer_key.take() {
                Some(key) => key,
                None => Vec::new(),
            };
            self.conclude(peer_key.as_slice())
        } else {
            self.stage = HandshakeStage::AwaitingPeer;
            HandshakeStep::Receive
        }
    }

    /// The transport has delivered `data`, or has ended (`None`). An end
    /// of the transport, a packet that is not of the cover protocol and one
    /// that carries no payload fail the handshake. With the peer's key in
    /// hand the client agrees on the secret and opens the session; the
    /// server sends its own key first.
    pub fn on_received(&mut self, data: Option<&[u8]>) -> (step: HandshakeStep)
        requires
            old(self).wf(),
            old(self).stage() == HandshakeStage::AwaitingPeer,
        ensures
            final(self).wf(),
            final(self).is_server() == old(self).is_server(),
            final(self).mimic() == old(self).mimic(),
            final(self).public_key() == old(self).public_key(),
            old(self).private_key() is Some,
            match data {
                None => step matches HandshakeStep::Failed(f) && f
                    == HandshakeError::ConnectionClosed && final(self).stage()
                    == HandshakeStage::Done,
                Some(packet) => match incoming(old(self).mimic(), packet@) {
                    Err(e) => step matches HandshakeStep::Failed(f) && f == HandshakeError::Mimic(
                        e,
                    ) && final(self).stage() == HandshakeStage::Done,
                    Ok(None) => step matches HandshakeStep::Failed(f) && f
                        == HandshakeError::NotRecognized && final(self).stage()
                        == HandshakeStage::Done,
                    Ok(Some(peer)) => if old(self).is_server() {
                        match outgoing(old(self).mimic(), old(self).public_key(), true) {
                            Ok(reply) => step matches HandshakeStep::Send(b) && bytes_seq(b)
                                == reply && final(self).stage() == HandshakeStage::AwaitingSend
                                && final(self).peer_key() == Some(peer) && final(self).private_key() == old(self).private_key(),
                            Err(e) => step matches HandshakeStep::Failed(f) && f
                                == HandshakeError::Mimic(e) && final(self).stage()
                                == HandshakeStage::Done,
                        }
                    } else {
                        final(self).stage() == HandshakeStage::Done && final(self).private_key() is None && concludes(
                            step,
                            old(self).private_key()->Some_0,
                            peer,
                        )
                    },
                },
            },
    {
        let packet = match data {
            Some(packet) => packet,
            None => {
                self.stage = HandshakeStage::Done;
                return HandshakeStep::Failed(HandshakeError::ConnectionClosed);
            },
        };
        let unwrapped = match &self.mimic {
            Some(m) => m.decapsulate(packet),
            None => Ok(Some(copy_of(packet))),
        };
        let peer_key = match unwrapped {
            Ok(Some(key)) => key,
            Ok(None) => {
                self.stage = HandshakeStage::Done;
                return HandshakeStep::Failed(HandshakeError::NotRecognized);
            },
            Err(e) => {
                self.stage = HandshakeStage::Done;
                return HandshakeStep::Failed(HandshakeError::Mimic(e));
            },
        };
        if self.is_server {
            match self.message() {
                Ok(reply) => {
                    self.peer_key = Some(peer_key);
                    self.stage = HandshakeStage::AwaitingSend;
                    HandshakeStep::Send(reply)
                },
                Err(e) => {
                    self.stage = HandshakeStage::Done;
                    HandshakeStep::Failed(HandshakeError::Mimic(e))
                },
            }
        } else {
            self.conclude(peer_key.as_slice())
        }
    }
}

} // verus!
