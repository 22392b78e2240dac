use bytes::Bytes;
use chimera::handshake::{
    transfer, EncryptedConnection, Handshake, HandshakeError, HandshakeStep, SessionError,
    DEFAULT_MAX_RECORD_LEN, HANDSHAKE_TIMEOUT_SECS,
};
use chimera::mimic::{HttpMimic, Mimic};

fn pair() -> (EncryptedConnection, EncryptedConnection) {
    let secret = [0x42u8; 32];
    (
        EncryptedConnection::new(&secret).unwrap(),
        EncryptedConnection::new(&secret).unwrap(),
    )
}

fn established(step: HandshakeStep) -> EncryptedConnection {
    match step {
        HandshakeStep::Established(conn) => conn,
        _ => panic!("the handshake did not complete"),
    }
}

fn outgoing(step: HandshakeStep) -> Bytes {
    match step {
        HandshakeStep::Send(bytes) => bytes,
        _ => panic!("the handshake did not ask to send"),
    }
}

fn run_handshake(mimic: bool) -> (EncryptedConnection, EncryptedConnection) {
    let choose = |on: bool| if on { Some(HttpMimic) } else { None };
    let mut client = Handshake::new(false, choose(mimic)).unwrap();
    let mut server = Handshake::new(true, choose(mimic)).unwrap();
    assert!(matches!(server.begin(), HandshakeStep::Receive));
    let hello = outgoing(client.begin());
    assert!(matches!(client.on_sent(), HandshakeStep::Receive));
    let reply = outgoing(server.on_received(Some(&hello)));
    let server_side = established(server.on_sent());
    let client_side = established(client.on_received(Some(&reply)));
    (client_side, server_side)
}

#[test]
fn session_needs_a_32_byte_secret() {
    assert!(EncryptedConnection::new(&[0u8; 32]).is_ok());
    assert_eq!(EncryptedConnection::new(&[0u8; 31]).err(), Some(SessionError::InvalidKey));
    assert_eq!(EncryptedConnection::new(&[]).err(), Some(SessionError::InvalidKey));
}

#[test]
fn fresh_session_starts_both_sequences_at_zero() {
    let (a, _) = pair();
    assert_eq!(a.seq_in(), 0);
    assert_eq!(a.seq_out(), 0);
    assert_eq!(a.buffered(), 0);
}

#[test]
fn record_is_length_prefix_then_ciphertext_and_tag() {
    let (mut a, _) = pair();
    let wire = a.send(b"Hello Secure World").unwrap();
    assert_eq!(wire.len(), 4 + 18 + 16);
    assert_eq!(&wire[..4], &[0, 0, 0, 34]);
    assert_ne!(&wire[4..22], b"Hello Secure World");
    assert_eq!(a.seq_out(), 1);
}

#[test]
fn empty_record_is_just_prefix_and_tag() {
    let (mut a, mut b) = pair();
    let wire = a.send(b"").unwrap();
    assert_eq!(wire.len(), 20);
    assert_eq!(&wire[..4], &[0, 0, 0, 16]);
    b.feed(&wire);
    let got = b.recv().unwrap().unwrap();
    assert!(got.is_empty());
}

#[test]
fn recv_returns_what_send_sealed() {
    let (mut a, mut b) = pair();
    let wire = a.send(b"Hello Secure World").unwrap();
    b.feed(&wire);
    let got = b.recv().unwrap().unwrap();
    assert_eq!(&got[..], b"Hello Secure World");
    assert_eq!(b.seq_in(), 1);
    assert_eq!(b.buffered(), 0);
    assert!(matches!(b.recv(), Ok(None)));
}

#[test]
fn records_come_out_one_by_one_in_order() {
    let (mut a, mut b) = pair();
    let messages: Vec<Vec<u8>> = (0..20u8).map(|i| vec![i; i as usize * 7]).collect();
    let mut stream = Vec::new();
    for m in &messages {
        stream.extend_from_slice(&a.send(m).unwrap());
    }
    assert_eq!(a.seq_out(), 20);
    b.feed(&stream);
    for (i, m) in messages.iter().enumerate() {
        let got = b.recv().unwrap().unwrap();
        assert_eq!(&got[..], &m[..]);
        assert_eq!(b.seq_in(), i as u64 + 1);
    }
    assert!(matches!(b.recv(), Ok(None)));
    assert_eq!(b.buffered(), 0);
}

#[test]
fn records_survive_any_chunking_by_the_transport() {
    let (mut a, mut b) = pair();
    let mut stream = Vec::new();
    stream.extend_from_slice(&a.send(b"first record").unwrap());
    stream.extend_from_slice(&a.send(b"second").unwrap());
    let mut got = Vec::new();
    for byte in &stream {
        b.feed(&[*byte]);
        while let Some(plain) = b.recv().unwrap() {
            got.push(plain.to_vec());
        }
    }
    assert_eq!(got, vec![b"first record".to_vec(), b"second".to_vec()]);
    assert_eq!(b.seq_in(), 2);
}

#[test]
fn recv_waits_for_a_whole_record() {
    let (mut a, mut b) = pair();
    let wire = a.send(b"abcdef").unwrap();
    b.feed(&wire[..3]);
    assert!(matches!(b.recv(), Ok(None)));
    b.feed(&wire[3..10]);
    assert!(matches!(b.recv(), Ok(None)));
    assert_eq!(b.seq_in(), 0);
    assert_eq!(b.buffered(), 10);
    b.feed(&wire[10..]);
    assert_eq!(&b.recv().unwrap().unwrap()[..], b"abcdef");
}

#[test]
fn sequence_mismatch_is_an_aead_failure() {
    let (mut a, mut b) = pair();
    let first = a.send(b"one").unwrap();
    let second = a.send(b"two").unwrap();
    b.feed(&second);
    assert_eq!(b.recv().err(), Some(SessionError::Decryption));
    assert_eq!(b.seq_in(), 0);
    assert_eq!(b.buffered(), 0);
    b.feed(&first);
    assert_eq!(&b.recv().unwrap().unwrap()[..], b"one");
}

#[test]
fn replayed_record_is_rejected() {
    let (mut a, mut b) = pair();
    let wire = a.send(b"once").unwrap();
    b.feed(&wire);
    b.feed(&wire);
    assert_eq!(&b.recv().unwrap().unwrap()[..], b"once");
    assert_eq!(b.recv().err(), Some(SessionError::Decryption));
}

#[test]
fn tampered_record_is_rejected() {
    let (mut a, mut b) = pair();
    let mut wire = a.send(b"payload").unwrap().to_vec();
    wire[6] ^= 0x80;
    b.feed(&wire);
    assert_eq!(b.recv().err(), Some(SessionError::Decryption));
}

#[test]
fn record_shorter_than_a_tag_is_rejected() {
    let (_, mut b) = pair();
    b.feed(&[0, 0, 0, 3, 1, 2, 3]);
    assert_eq!(b.recv().err(), Some(SessionError::Decryption));
}

#[test]
fn oversized_length_prefix_is_fatal() {
    let (_, mut b) = pair();
    assert_eq!(DEFAULT_MAX_RECORD_LEN, 1 << 20);
    b.feed(&[0, 0x10, 0, 1]);
    assert_eq!(b.recv().err(), Some(SessionError::RecordTooLarge));
    assert_eq!(b.buffered(), 4);
}

#[test]
fn length_prefix_at_the_limit_is_accepted() {
    let (_, mut b) = pair();
    b.feed(&[0, 0x10, 0, 0]);
    assert!(matches!(b.recv(), Ok(None)));
}

#[test]
fn send_is_not_bound_by_the_receive_limit() {
    let (mut a, mut b) = pair();
    a.set_max_record_len(32);
    let wire = a.send(&[7u8; 17]).unwrap();
    assert_eq!(wire.len(), 4 + 17 + 16);
    assert_eq!(a.seq_out(), 1);
    b.feed(&wire);
    assert_eq!(&b.recv().unwrap().unwrap()[..], &[7u8; 17]);
}

#[test]
fn send_emits_records_of_more_than_a_mebibyte() {
    let (mut a, mut b) = pair();
    let data = vec![0u8; 1_048_561];
    let wire = a.send(&data).unwrap();
    assert_eq!(wire.len(), 4 + 1_048_561 + 16);
    assert_eq!(&wire[..4], &[0x00, 0x10, 0x00, 0x01]);
    assert_eq!(a.seq_out(), 1);

    b.feed(&wire);
    assert_eq!(b.recv().err(), Some(SessionError::RecordTooLarge));
    assert_eq!(b.seq_in(), 0);

    let (_, mut c) = pair();
    c.set_max_record_len(2 << 20);
    c.feed(&wire);
    assert_eq!(&c.recv().unwrap().unwrap()[..], &data[..]);
    assert_eq!(c.seq_in(), 1);
}

#[test]
fn receive_limit_can_be_lowered() {
    let (mut a, mut b) = pair();
    b.set_max_record_len(32);
    b.feed(&a.send(&[0u8; 16]).unwrap());
    assert_eq!(b.recv().unwrap().unwrap().len(), 16);
    b.feed(&a.send(&[0u8; 17]).unwrap());
    assert_eq!(b.recv().err(), Some(SessionError::RecordTooLarge));
    assert_eq!(b.seq_in(), 1);
}

#[test]
fn end_of_stream_is_clean_only_between_records() {
    let (mut a, mut b) = pair();
    assert_eq!(b.end_of_stream(), Ok(()));
    let wire = a.send(b"abc").unwrap();
    b.feed(&wire[..5]);
    assert_eq!(b.end_of_stream(), Err(SessionError::PartialRecord));
    b.feed(&wire[5..]);
    b.recv().unwrap().unwrap();
    assert_eq!(b.end_of_stream(), Ok(()));
}

#[test]
fn basic_echo_over_a_mimicked_handshake() {
    let (mut client, mut server) = run_handshake(true);
    let request = client.send(b"Hello Secure World").unwrap();
    server.feed(&request);
    let seen = server.recv().unwrap().unwrap();
    assert_eq!(&seen[..], b"Hello Secure World");
    let echo = server.send(&seen).unwrap();
    client.feed(&echo);
    let back = client.recv().unwrap().unwrap();
    assert_eq!(back.len(), 18);
    assert_eq!(&back[..], b"Hello Secure World");
    assert_eq!(client.seq_in(), 1);
    assert_eq!(client.seq_out(), 1);
    assert_eq!(server.seq_in(), 1);
    assert_eq!(server.seq_out(), 1);
}

#[test]
fn handshake_without_mimic_exchanges_raw_keys() {
    let mut client: Handshake<HttpMimic> = Handshake::new(false, None).unwrap();
    let mut server: Handshake<HttpMimic> = Handshake::new(true, None).unwrap();
    let client_key = client.public_key_bytes().to_vec();
    let server_key = server.public_key_bytes().to_vec();
    assert!(matches!(server.begin(), HandshakeStep::Receive));
    let hello = outgoing(client.begin());
    assert_eq!(&hello[..], &client_key[..]);
    assert_eq!(hello.len(), 32);
    assert!(matches!(client.on_sent(), HandshakeStep::Receive));
    let reply = outgoing(server.on_received(Some(&hello)));
    assert_eq!(&reply[..], &server_key[..]);
    let mut server_side = established(server.on_sent());
    let mut client_side = established(client.on_received(Some(&reply)));
    let wire = client_side.send(b"ping").unwrap();
    server_side.feed(&wire);
    assert_eq!(&server_side.recv().unwrap().unwrap()[..], b"ping");
}

#[test]
fn handshake_messages_are_the_mimic_envelopes() {
    let mut client = Handshake::new(false, Some(HttpMimic)).unwrap();
    let key = client.public_key_bytes().to_vec();
    let hello = outgoing(client.begin());
    assert_eq!(hello, HttpMimic.encapsulate(&key, false).unwrap());
    assert!(hello.starts_with(b"GET /api/v1/resource/"));

    let mut server = Handshake::new(true, Some(HttpMimic)).unwrap();
    let server_key = server.public_key_bytes().to_vec();
    server.begin();
    let reply = outgoing(server.on_received(Some(&hello)));
    assert_eq!(reply, HttpMimic.encapsulate(&server_key, true).unwrap());
    assert!(reply.starts_with(b"HTTP/1.1 200 OK\r\n"));
}

#[test]
fn handshake_fails_when_the_transport_ends() {
    let mut server = Handshake::new(true, Some(HttpMimic)).unwrap();
    server.begin();
    assert!(matches!(
        server.on_received(None),
        HandshakeStep::Failed(HandshakeError::ConnectionClosed)
    ));
    let mut client = Handshake::new(false, Some(HttpMimic)).unwrap();
    client.begin();
    client.on_sent();
    assert!(matches!(
        client.on_received(None),
        HandshakeStep::Failed(HandshakeError::ConnectionClosed)
    ));
}

#[test]
fn handshake_fails_on_what_is_not_the_cover_protocol() {
    let mut server = Handshake::new(true, Some(HttpMimic)).unwrap();
    server.begin();
    assert!(matches!(
        server.on_received(Some(b"\x16\x03\x01 not http at all")),
        HandshakeStep::Failed(HandshakeError::NotRecognized)
    ));
}

#[test]
fn handshake_fails_on_an_envelope_without_base64() {
    let mut server = Handshake::new(true, Some(HttpMimic)).unwrap();
    server.begin();
    assert!(matches!(
        server.on_received(Some(b"GET /api/v1/resource/!!!! HTTP/1.1\r\n\r\n")),
        HandshakeStep::Failed(HandshakeError::Mimic(chimera::mimic::MimicError::Encoding))
    ));
}

#[test]
fn handshake_fails_on_a_peer_key_of_the_wrong_length() {
    let mut client: Handshake<HttpMimic> = Handshake::new(false, None).unwrap();
    client.begin();
    client.on_sent();
    assert!(matches!(
        client.on_received(Some(&[1u8; 16])),
        HandshakeStep::Failed(HandshakeError::Crypto(chimera::crypto::CryptoError::KeyAgreement))
    ));
}

#[test]
fn server_waits_five_seconds_for_a_handshake() {
    assert_eq!(HANDSHAKE_TIMEOUT_SECS, 5);
}

#[test]
fn sessions_of_different_handshakes_do_not_understand_each_other() {
    let (mut client_a, _) = run_handshake(true);
    let (_, mut server_b) = run_handshake(true);
    let wire = client_a.send(b"crossed wires").unwrap();
    server_b.feed(&wire);
    assert_eq!(server_b.recv().err(), Some(SessionError::Decryption));
}

#[test]
fn transfer_delivers_every_item_however_the_bytes_are_cut() {
    let items: Vec<Vec<u8>> = vec![
        b"Hello Secure World".to_vec(),
        Vec::new(),
        vec![0xa5; 3000],
        b"x".to_vec(),
        Vec::new(),
    ];
    for chunk in [0usize, 1, 2, 3, 7, 19, 20, 1024, 1 << 20] {
        let (mut a, mut b) = pair();
        let out = transfer(&mut a, &mut b, &items, chunk).unwrap();
        assert_eq!(out.len(), items.len());
        for (got, sent) in out.iter().zip(&items) {
            assert_eq!(&got[..], &sent[..]);
        }
        assert_eq!(a.seq_out(), 5);
        assert_eq!(b.seq_in(), 5);
        assert_eq!(b.buffered(), 0);
        assert!(matches!(b.recv(), Ok(None)));
    }
}

#[test]
fn transfer_of_nothing_changes_nothing() {
    let (mut a, mut b) = pair();
    let out = transfer(&mut a, &mut b, &Vec::new(), 4).unwrap();
    assert!(out.is_empty());
    assert_eq!(a.seq_out(), 0);
    assert_eq!(b.seq_in(), 0);
}

#[test]
fn transfer_goes_on_where_the_last_one_ended() {
    let (mut a, mut b) = pair();
    transfer(&mut a, &mut b, &vec![b"one".to_vec(), b"two".to_vec()], 5).unwrap();
    let out = transfer(&mut a, &mut b, &vec![b"three".to_vec()], 5).unwrap();
    assert_eq!(&out[0][..], b"three");
    assert_eq!(a.seq_out(), 3);
    assert_eq!(b.seq_in(), 3);
}

#[test]
fn transfer_sends_nothing_that_the_receiver_would_refuse() {
    let (mut a, mut b) = pair();
    b.set_max_record_len(40);
    let items = vec![vec![1u8; 24], vec![2u8; 25]];
    assert_eq!(transfer(&mut a, &mut b, &items, 0).err(), Some(SessionError::RecordTooLarge));
    assert_eq!(a.seq_out(), 0);
    assert_eq!(b.seq_in(), 0);
    assert_eq!(b.buffered(), 0);
    let out = transfer(&mut a, &mut b, &vec![vec![1u8; 24]], 0).unwrap();
    assert_eq!(&out[0][..], &[1u8; 24]);
}

#[test]
fn handshake_fails_on_a_32_byte_key_that_x25519_refuses() {
    let mut client: Handshake<HttpMimic> = Handshake::new(false, None).unwrap();
    client.begin();
    client.on_sent();
    assert!(matches!(
        client.on_received(Some(&[0u8; 32])),
        HandshakeStep::Failed(HandshakeError::Crypto(chimera::crypto::CryptoError::KeyAgreement))
    ));

    let mut server = Handshake::new(true, Some(HttpMimic)).unwrap();
    server.begin();
    let hello = HttpMimic.encapsulate(&[0u8; 32], false).unwrap();
    assert!(matches!(server.on_received(Some(&hello)), HandshakeStep::Send(_)));
    assert!(matches!(
        server.on_sent(),
        HandshakeStep::Failed(HandshakeError::Crypto(chimera::crypto::CryptoError::KeyAgreement))
    ));
}

#[test]
fn a_server_that_cannot_read_the_client_sends_nothing() {
    let mut server = Handshake::new(true, Some(HttpMimic)).unwrap();
    assert!(matches!(server.begin(), HandshakeStep::Receive));
    assert!(matches!(server.on_received(Some(b"garbage")), HandshakeStep::Failed(_)));
    let mut server = Handshake::new(true, Some(HttpMimic)).unwrap();
    server.begin();
    assert!(matches!(server.on_received(None), HandshakeStep::Failed(_)));
}

#[test]
fn every_handshake_has_a_key_of_its_own() {
    let (mut first, _) = run_handshake(true);
    let (mut second, mut second_server) = run_handshake(true);
    assert_eq!(second.seq_in(), 0);
    assert_eq!(second.seq_out(), 0);
    assert_eq!(second.buffered(), 0);
    let from_first = first.send(b"same words").unwrap();
    let from_second = second.send(b"same words").unwrap();
    assert_ne!(from_first, from_second);
    second_server.feed(&from_second);
    assert_eq!(&second_server.recv().unwrap().unwrap()[..], b"same words");
}
