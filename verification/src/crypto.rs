//! Key agreement and record sealing.
//!
//! X25519 and ChaCha20-Poly1305 are *ring*'s. This module calls them and
//! states, unproved, what the rest of the library relies on; everything
//! built on top (nonces, error mapping, length bookkeeping) is verified.

use crate::text::copy_of;
use ring::aead::{Aad, LessSafeKey, Nonce, UnboundKey, CHACHA20_POLY1305};
use ring::agreement::{agree_ephemeral, EphemeralPrivateKey, UnparsedPublicKey, X25519};
use ring::error::Unspecified;
use ring::rand::SystemRandom;
use vstd::prelude::*;

verus! {

/// Bytes of a ChaCha20-Poly1305 key.
pub const KEY_LEN: usize = 32;

/// Bytes of an X25519 public key, and of the secret that two parties agree on.
pub const PUBLIC_KEY_LEN: usize = 32;

/// Bytes of the authentication tag that sealing appends.
pub const TAG_LEN: usize = 16;

/// Bytes of a nonce.
pub const NONCE_LEN: usize = 12;

/// The longest plaintext that one nonce can seal.
pub const MAX_PLAINTEXT_LEN: u64 = 274_877_906_880;

/// What went wrong in a cryptographic operation.
#[derive(Debug, Clone, Copy, PartialEq, Eq, Structural)]
pub enum CryptoError {
    /// No private key could be generated.
    KeyGeneration,
    /// The public key could not be computed, or is not 32 bytes long.
    PublicKey,
    /// The peer's public key was not accepted.
    KeyAgreement,
    /// The key is not 32 bytes long.
    InvalidKey,
    /// The plaintext is too long to seal.
    Encryption,
    /// The record is not what the key and the sequence number sealed.
    Decryption,
}

/// `ring::agreement::EphemeralPrivateKey`, a private key that is good for
/// one agreement. It is carried from its generation to its use.
#[verifier::external_type_specification]
#[verifier::external_body]
pub struct ExEphemeralPrivateKey(EphemeralPrivateKey);

/// `ring::error::Unspecified`, the error of every *ring* operation. It
/// tells nothing and is mapped to a `CryptoError` where it appears.
#[verifier::external_type_specification]
#[verifier::external_body]
pub struct ExUnspecified(Unspecified);

/// What ChaCha20-Poly1305 makes of a plaintext under a 32-byte key and a
/// 12-byte nonce, with no associated data: the ciphertext, then the tag.
pub uninterp spec fn sealed(key: Seq<u8>, nonce: Seq<u8>, plaintext: Seq<u8>) -> Seq<u8>;

/// The plaintext that ChaCha20-Poly1305 recovers from a sealed record under
/// a 32-byte key and a 12-byte nonce, with no associated data, or `None`
/// where it rejects the record.
pub uninterp spec fn opened(key: Seq<u8>, nonce: Seq<u8>, record: Seq<u8>) -> Option<Seq<u8>>;

/// The public key that *ring* computes from a private key, or `None`
/// where it fails to.
pub uninterp spec fn x25519_public_key(key: EphemeralPrivateKey) -> Option<Seq<u8>>;

/// What *ring* agrees on from a private key and the bytes of a peer's
/// X25519 public key: the raw key material, or `None` where it refuses
/// the peer's key.
pub uninterp spec fn x25519_agreed(key: EphemeralPrivateKey, peer: Seq<u8>) -> Option<Seq<u8>>;

/// `EphemeralPrivateKey::generate` for X25519, fed by the system's random
/// number generator. Nothing is claimed of the key.
#[verifier::external_body]
fn x25519_generate() -> (r: Result<EphemeralPrivateKey, Unspecified>) {
    EphemeralPrivateKey::generate(&X25519, &SystemRandom::new())
}

/// `EphemeralPrivateKey::compute_public_key`, the key's bytes copied out:
/// the public key of `key`.
#[verifier::external_body]
fn x25519_public(key: &EphemeralPrivateKey) -> (r: Result<Vec<u8>, Unspecified>)
    ensures
        match r {
            Ok(public) => x25519_public_key(*key) == Some(public@),
            Err(_) => x25519_public_key(*key) is None,
        },
{
    key.compute_public_key().map(|public| public.as_ref().to_vec())
}

/// `agreement::agree_ephemeral` with the peer's key read as an X25519
/// public key, the agreed key material copied out: what `key` and `peer`
/// agree on. A peer key that is not 32 bytes long is refused, and what is
/// agreed on is 32 bytes long.
#[verifier::external_body]
fn x25519_agree(key: EphemeralPrivateKey, peer: &[u8]) -> (r: Result<Vec<u8>, Unspecified>)
    ensures
        match r {
            Ok(secret) => x25519_agreed(key, peer@) == Some(secret@),
            Err(_) => x25519_agreed(key, peer@) is None,
        },
        peer@.len() != PUBLIC_KEY_LEN ==> r is Err,
        r matches Ok(secret) ==> secret@.len() == PUBLIC_KEY_LEN,
{
    agree_ephemeral(key, &UnparsedPublicKey::new(&X25519, peer), |material| material.to_vec())
}

/// `UnboundKey::new` for ChaCha20-Poly1305: a key is accepted exactly when
/// it is 32 bytes long.
#[verifier::external_body]
fn chacha20_poly1305_accepts(key: &[u8]) -> (ok: bool)
    ensures
        ok == (key@.len() == KEY_LEN),
{
    UnboundKey::new(&CHACHA20_POLY1305, key).is_ok()
}

/// `LessSafeKey::seal_in_place_append_tag` for ChaCha20-Poly1305 with no
/// associated data. With a 32-byte key, a plaintext of at most
/// `MAX_PLAINTEXT_LEN` bytes is sealed: `data` becomes the ciphertext
/// followed by the 16-byte tag, and opening that under the same key and
/// nonce gives the plaintext back. Any other key and any longer plaintext
/// is refused, and `data` is then left as it was.
#[verifier::external_body]
fn chacha20_poly1305_seal(key: &[u8], nonce: [u8; 12], data: &mut Vec<u8>) -> (r: Result<
    (),
    Unspecified,
>)
    ensures
        r is Ok <==> key@.len() == KEY_LEN && old(data)@.len() <= MAX_PLAINTEXT_LEN,
        r is Err ==> final(data)@ == old(data)@,
        r is Ok ==> final(data)@ == sealed(key@, nonce@, old(data)@),
        r is Ok ==> final(data)@.len() == old(data)@.len() + TAG_LEN,
        r is Ok ==> opened(key@, nonce@, final(data)@) == Some(old(data)@),
{
    let key = LessSafeKey::new(UnboundKey::new(&CHACHA20_POLY1305, key)?);
    key.seal_in_place_append_tag(Nonce::assume_unique_for_key(nonce), Aad::empty(), data)
}

/// `LessSafeKey::open_in_place` for ChaCha20-Poly1305 with no associated
/// data. `data` keeps its length; where the record is accepted its first
/// bytes are the plaintext, whose length is returned and is 16 less than
/// the record's. Any key that is not 32 bytes long is refused.
#[verifier::external_body]
fn chacha20_poly1305_open(key: &[u8], nonce: [u8; 12], data: &mut Vec<u8>) -> (r: Result<
    usize,
    Unspecified,
>)
    ensures
        final(data)@.len() == old(data)@.len(),
        key@.len() != KEY_LEN ==> r is Err,
        key@.len() == KEY_LEN ==> match r {
            Ok(n) => n + TAG_LEN == old(data)@.len() && opened(key@, nonce@, old(data)@) == Some(
                final(data)@.subrange(0, n as int),
            ),
            Err(_) => opened(key@, nonce@, old(data)@) is None,
        },
{
    let key = LessSafeKey::new(UnboundKey::new(&CHACHA20_POLY1305, key)?);
    key.open_in_place(Nonce::assume_unique_for_key(nonce), Aad::empty(), data).map(|plain| plain.len())
}

/// The eight bytes of a 64-bit number, least significant first.
pub open spec fn le64_bytes(v: u64) -> Seq<u8> {
    Seq::new(8, |i: int| ((v as int / pow256(i)) % 0x100) as u8)
}

/// 256 to the power `i`, for the eight byte positions of a 64-bit number.
pub open spec fn pow256(i: int) -> int {
    if i <= 0 {
        1
    } else if i == 1 {
        0x100
    } else if i == 2 {
        0x1_0000
    } else if i == 3 {
        0x100_0000
    } else if i == 4 {
        0x1_0000_0000
    } else if i == 5 {
        0x100_0000_0000
    } else if i == 6 {
        0x1_0000_0000_0000
    } else {
        0x100_0000_0000_0000
    }
}

/// The nonce of sequence number `seq`: its eight bytes, least significant
/// first, then four zero bytes.
pub open spec fn nonce_bytes(seq: u64) -> Seq<u8> {
    le64_bytes(seq) + seq![0u8, 0u8, 0u8, 0u8]
}

/// Different sequence numbers have different nonces.
pub proof fn lemma_nonce_injective(a: u64, b: u64)
    requires
        nonce_bytes(a) == nonce_bytes(b),
    ensures
        a == b,
{
    let na = nonce_bytes(a);
    let nb = nonce_bytes(b);
    assert(na[0] == le64_bytes(a)[0] && nb[0] == le64_bytes(b)[0]);
    assert(na[1] == le64_bytes(a)[1] && nb[1] == le64_bytes(b)[1]);
    assert(na[2] == le64_bytes(a)[2] && nb[2] == le64_bytes(b)[2]);
    assert(na[3] == le64_bytes(a)[3] && nb[3] == le64_bytes(b)[3]);
    assert(na[4] == le64_bytes(a)[4] && nb[4] == le64_bytes(b)[4]);
    assert(na[5] == le64_bytes(a)[5] && nb[5] == le64_bytes(b)[5]);
    assert(na[6] == le64_bytes(a)[6] && nb[6] == le64_bytes(b)[6]);
    assert(na[7] == le64_bytes(a)[7] && nb[7] == le64_bytes(b)[7]);
    assert(a % 0x100 == b % 0x100);
    assert((a / 0x100) % 0x100 == (b / 0x100) % 0x100);
    assert((a / 0x1_0000) % 0x100 == (b / 0x1_0000) % 0x100);
    assert((a / 0x100_0000) % 0x100 == (b / 0x100_0000) % 0x100);
    assert((a / 0x1_0000_0000) % 0x100 == (b / 0x1_0000_0000) % 0x100);
    assert((a / 0x100_0000_0000) % 0x100 == (b / 0x100_0000_0000) % 0x100);
    assert((a / 0x1_0000_0000_0000) % 0x100 == (b / 0x1_0000_0000_0000) % 0x100);
    assert((a / 0x100_0000_0000_0000) % 0x100 == (b / 0x100_0000_0000_0000) % 0x100);
    assert(a == b) by (bit_vector)
        requires
            a % 0x100 == b % 0x100,
            (a / 0x100) % 0x100 == (b / 0x100) % 0x100,
            (a / 0x1_0000) % 0x100 == (b / 0x1_0000) % 0x100,
            (a / 0x100_0000) % 0x100 == (b / 0x100_0000) % 0x100,
            (a / 0x1_0000_0000) % 0x100 == (b / 0x1_0000_0000) % 0x100,
            (a / 0x100_0000_0000) % 0x100 == (b / 0x100_0000_0000) % 0x100,
            (a / 0x1_0000_0000_0000) % 0x100 == (b / 0x1_0000_0000_0000) % 0x100,
            (a / 0x100_0000_0000_0000) % 0x100 == (b / 0x100_0000_0000_0000) % 0x100,
    ;
}

/// Builds the nonce of sequence number `seq`.
pub fn nonce_for(seq: u64) -> (nonce: [u8; 12])
    ensures
        nonce@ == nonce_bytes(seq),
{
    let nonce: [u8; 12] = [
        (seq % 0x100) as u8,
        ((seq / 0x100) % 0x100) as u8,
        ((seq / 0x1_0000) % 0x100) as u8,
        ((seq / 0x100_0000) % 0x100) as u8,
        ((seq / 0x1_0000_0000) % 0x100) as u8,
        ((seq / 0x100_0000_0000) % 0x100) as u8,
        ((seq / 0x1_0000_0000_0000) % 0x100) as u8,
        ((seq / 0x100_0000_0000_0000) % 0x100) as u8,
        0,
        0,
        0,
        0,
    ];
    assert(nonce@ =~= nonce_bytes(seq));
    nonce
}

/// Namespace of the key-agreement functions.
pub struct ChimeraCrypto;

impl ChimeraCrypto {
    /// Generates an ephemeral X25519 key pair: the private key, to be used
    /// for one agreement, and the 32 bytes of its public key.
    pub fn generate_ephemeral_key() -> (r: Result<(EphemeralPrivateKey, Vec<u8>), CryptoError>)
        ensures
            r matches Ok(pair) ==> pair.1@.len() == PUBLIC_KEY_LEN && x25519_public_key(pair.0)
                == Some(pair.1@),
            r matches Err(e) ==> e == CryptoError::KeyGeneration || e == CryptoError::PublicKey,
    {
        let private_key = match x25519_generate() {
            Ok(key) => key,
            Err(_) => {
                return Err(CryptoError::KeyGeneration);
            },
        };
        match x25519_public(&private_key) {
            Ok(public_key) => Self::key_pair(private_key, public_key),
            Err(_) => Err(CryptoError::PublicKey),
        }
    }

    /// Puts a private key and the bytes of its public key together. The
    /// pair is handed back as it came if the public key is 32 bytes long,
    /// and refused otherwise.
    pub fn key_pair(private_key: EphemeralPrivateKey, public_key: Vec<u8>) -> (r: Result<
        (EphemeralPrivateKey, Vec<u8>),
        CryptoError,
    >)
        ensures
            r is Ok <==> public_key@.len() == PUBLIC_KEY_LEN,
            r matches Ok(pair) ==> pair.0 == private_key && pair.1@ == public_key@,
            r matches Err(e) ==> e == CryptoError::PublicKey,
    {
        if public_key.len() == PUBLIC_KEY_LEN {
            Ok((private_key, public_key))
        } else {
            Err(CryptoError::PublicKey)
        }
    }

    /// Agrees with the peer on a secret of 32 bytes, which uses up the
    /// private key: the secret is what X25519 makes of the private key and
    /// the peer's public key. A peer key of any other length than 32 is
    /// refused, as is one that X25519 does not accept.
    pub fn derive_secret(private_key: EphemeralPrivateKey, peer_public_key: &[u8]) -> (r: Result<
        Vec<u8>,
        CryptoError,
    >)
        ensures
            match r {
                Ok(secret) => x25519_agreed(private_key, peer_public_key@) == Some(secret@),
                Err(e) => x25519_agreed(private_key, peer_public_key@) is None && e
                    == CryptoError::KeyAgreement,
            },
            peer_public_key@.len() != PUBLIC_KEY_LEN ==> r is Err,
            r matches Ok(secret) ==> secret@.len() == KEY_LEN,
    {
        match x25519_agree(private_key, peer_public_key) {
            Ok(secret) => Ok(secret),
            Err(_) => Err(CryptoError::KeyAgreement),
        }
    }
}

/// A ChaCha20-Poly1305 key for sealing and opening records, each under the
/// nonce of its sequence number.
pub struct Cipher {
    key: Vec<u8>,
}

impl Cipher {
    #[verifier::type_invariant]
    spec fn well_formed(&self) -> bool {
        self.key@.len() == KEY_LEN
    }

    /// The 32 bytes of the key.
    pub closed spec fn key(&self) -> Seq<u8> {
        self.key@
    }

    /// Makes a cipher of a key, which must be 32 bytes long.
    pub fn new(key_bytes: &[u8]) -> (r: Result<Cipher, CryptoError>)
        ensures
            r is Ok <==> key_bytes@.len() == KEY_LEN,
            r matches Ok(c) ==> c.key() == key_bytes@,
            r matches Err(e) ==> e == CryptoError::InvalidKey,
    {
        if !chacha20_poly1305_accepts(key_bytes) {
            return Err(CryptoError::InvalidKey);
        }
        Ok(Cipher { key: copy_of(key_bytes) })
    }

    /// Seals `data` in place under the nonce of `nonce_val`: the ciphertext
    /// takes the plaintext's place and the 16-byte tag is appended.
    ///
    /// Fails exactly on a plaintext of more than `MAX_PLAINTEXT_LEN` bytes,
    /// which is then left as it was.
    pub fn encrypt(&self, nonce_val: u64, data: &mut Vec<u8>) -> (r: Result<(), CryptoError>)
        ensures
            r is Ok <==> old(data)@.len() <= MAX_PLAINTEXT_LEN,
            r is Err ==> final(data)@ == old(data)@,
            r is Ok ==> {
                &&& final(data)@ == sealed(self.key(), nonce_bytes(nonce_val), old(data)@)
                &&& final(data)@.len() == old(data)@.len() + TAG_LEN
                &&& opened(self.key(), nonce_bytes(nonce_val), final(data)@) == Some(old(data)@)
            },
            r matches Err(e) ==> e == CryptoError::Encryption,
    {
        proof {
            use_type_invariant(self);
        }
        let nonce = nonce_for(nonce_val);
        match chacha20_poly1305_seal(self.key.as_slice(), nonce, data) {
            Ok(()) => Ok(()),
            Err(_) => Err(CryptoError::Encryption),
        }
    }

    /// Opens the record in `data` in place under the nonce of `nonce_val`
    /// and returns the plaintext's length, 16 less than the record's; the
    /// plaintext stands at the head of `data`, which keeps its length.
    ///
    /// Fails where the record is not accepted under this key and nonce.
    pub fn decrypt(&self, nonce_val: u64, data: &mut Vec<u8>) -> (r: Result<usize, CryptoError>)
        ensures
            final(data)@.len() == old(data)@.len(),
            match opened(self.key(), nonce_bytes(nonce_val), old(data)@) {
                Some(plain) => {
                    &&& r == Ok::<usize, CryptoError>(plain.len() as usize)
                    &&& plain.len() + TAG_LEN == old(data)@.len()
                    &&& final(data)@.subrange(0, plain.len() as int) == plain
                },
                None => r == Err::<usize, CryptoError>(CryptoError::Decryption),
            },
    {
        proof {
            use_type_invariant(self);
        }
        let nonce = nonce_for(nonce_val);
        match chacha20_poly1305_open(self.key.as_slice(), nonce, data) {
            Ok(n) => Ok(n),
            Err(_) => Err(CryptoError::Decryption),
        }
    }
}

} // verus!
