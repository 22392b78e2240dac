use bytes::Bytes;
use chimera::client_proxy::{ClientAction, ClientProxy, StreamError};
use chimera::protocol::{Frame, FrameType};
use chimera::server_proxy::{ProxyError, ServerAction, ServerProxy};
use chimera::stream::{
    data_frame, disconnect_frame, frame_for_read, padding_frame, padding_len, READ_CHUNK,
    STREAM_CHANNEL_CAPACITY, TUNNEL_CHANNEL_CAPACITY,
};
use std::cell::RefCell;
use std::rc::Rc;

type Sink = Rc<RefCell<Vec<u8>>>;

fn sink() -> Sink {
    Rc::new(RefCell::new(Vec::new()))
}

fn frame(frame_type: FrameType, stream_id: u32, payload: &[u8]) -> Frame {
    Frame::new(frame_type, stream_id, Bytes::copy_from_slice(payload))
}

fn deliver(action: ServerAction<Sink>) {
    if let ServerAction::Forward { sink, payload, .. } = action {
        sink.borrow_mut().extend_from_slice(&payload);
    }
}

#[test]
fn stream_ids_start_at_one_and_go_up() {
    let mut proxy: ClientProxy<u8> = ClientProxy::new();
    for expected in 1..=5u32 {
        let connect = proxy.start_new_stream("example.com", 80).unwrap();
        assert_eq!(connect.stream_id, expected);
        assert_eq!(connect.frame_type, FrameType::Connect);
    }
}

#[test]
fn connect_frame_carries_host_and_port() {
    let mut proxy: ClientProxy<u8> = ClientProxy::new();
    let connect = proxy.start_new_stream("example.com", 443).unwrap();
    assert_eq!(&connect.payload[..], b"example.com:443");
    let connect = proxy.start_new_stream("10.0.0.1", 0).unwrap();
    assert_eq!(&connect.payload[..], b"10.0.0.1:0");
    let connect = proxy.start_new_stream("h", 65535).unwrap();
    assert_eq!(&connect.payload[..], b"h:65535");
    let connect = proxy.start_new_stream("bücher.example", 8080).unwrap();
    assert_eq!(&connect.payload[..], "bücher.example:8080".as_bytes());
}

#[test]
fn start_new_stream_does_not_open_the_stream() {
    let mut proxy: ClientProxy<u8> = ClientProxy::new();
    let connect = proxy.start_new_stream("example.com", 80).unwrap();
    assert!(!proxy.is_open(connect.stream_id));
    proxy.attach(connect.stream_id, 1);
    assert!(proxy.is_open(connect.stream_id));
    proxy.detach(connect.stream_id);
    assert!(!proxy.is_open(connect.stream_id));
}

#[test]
fn target_that_does_not_fit_a_frame_is_refused() {
    let mut proxy: ClientProxy<u8> = ClientProxy::new();
    let host = "a".repeat(65535 - 3);
    assert_eq!(proxy.start_new_stream(&host, 80).unwrap().payload.len(), 65535);
    let host = "a".repeat(65535 - 2);
    assert_eq!(proxy.start_new_stream(&host, 80).err(), Some(StreamError::TargetTooLong));
    assert_eq!(proxy.start_new_stream(&host, 8).unwrap().payload.len(), 65535);
    let host = "a".repeat(70000);
    assert_eq!(proxy.start_new_stream(&host, 1).err(), Some(StreamError::TargetTooLong));
    assert_eq!(proxy.start_new_stream("next", 1).unwrap().stream_id, 3);
}

#[test]
fn client_forwards_data_to_the_open_stream() {
    let mut proxy: ClientProxy<&'static str> = ClientProxy::new();
    proxy.attach(1, "one");
    proxy.attach(2, "two");
    match proxy.handle_frame(frame(FrameType::Data, 2, b"payload")) {
        ClientAction::Forward { stream_id, sink, payload } => {
            assert_eq!(stream_id, 2);
            assert_eq!(sink, "two");
            assert_eq!(&payload[..], b"payload");
        }
        ClientAction::Nothing => panic!("expected a forward"),
    }
    assert!(proxy.is_open(2));
}

#[test]
fn client_drops_data_for_unknown_streams() {
    let mut proxy: ClientProxy<u8> = ClientProxy::new();
    proxy.attach(1, 1);
    assert!(matches!(
        proxy.handle_frame(frame(FrameType::Data, 7, b"x")),
        ClientAction::Nothing
    ));
    assert!(proxy.is_open(1));
}

#[test]
fn client_closes_on_disconnect_and_ignores_the_rest() {
    let mut proxy: ClientProxy<u8> = ClientProxy::new();
    proxy.attach(1, 1);
    proxy.attach(2, 2);
    assert!(matches!(
        proxy.handle_frame(frame(FrameType::Connect, 1, b"evil:1")),
        ClientAction::Nothing
    ));
    assert!(matches!(
        proxy.handle_frame(frame(FrameType::Padding, 1, &[0; 50])),
        ClientAction::Nothing
    ));
    assert!(proxy.is_open(1));
    assert!(matches!(
        proxy.handle_frame(frame(FrameType::Disconnect, 1, b"")),
        ClientAction::Nothing
    ));
    assert!(!proxy.is_open(1));
    assert!(proxy.is_open(2));
    assert!(matches!(
        proxy.handle_frame(frame(FrameType::Data, 1, b"late")),
        ClientAction::Nothing
    ));
}

#[test]
fn server_dials_the_target_of_a_connect() {
    let mut proxy: ServerProxy<u8> = ServerProxy::new();
    match proxy.handle_frame(frame(FrameType::Connect, 5, b"example.com:80")) {
        Ok(ServerAction::Dial { stream_id, target }) => {
            assert_eq!(stream_id, 5);
            assert_eq!(target, "example.com:80");
        }
        _ => panic!("expected a dial"),
    }
    assert!(!proxy.is_open(5));
}

#[test]
fn server_rejects_a_connect_that_is_not_utf8() {
    let mut proxy: ServerProxy<u8> = ServerProxy::new();
    assert!(matches!(
        proxy.handle_frame(frame(FrameType::Connect, 5, &[b'a', 0xff, b':', b'1'])),
        Err(ProxyError::InvalidTarget)
    ));
}

#[test]
fn server_drops_data_while_the_dial_is_under_way() {
    let mut proxy: ServerProxy<u8> = ServerProxy::new();
    proxy.handle_frame(frame(FrameType::Connect, 5, b"example.com:80")).unwrap();
    assert!(matches!(
        proxy.handle_frame(frame(FrameType::Data, 5, b"early")),
        Ok(ServerAction::Nothing)
    ));
    proxy.attach(5, 50);
    assert!(matches!(
        proxy.handle_frame(frame(FrameType::Data, 5, b"on time")),
        Ok(ServerAction::Forward { stream_id: 5, sink: 50, .. })
    ));
}

#[test]
fn server_ignores_padding() {
    let mut proxy: ServerProxy<u8> = ServerProxy::new();
    proxy.attach(5, 50);
    assert!(matches!(
        proxy.handle_frame(frame(FrameType::Padding, 5, &[1, 2, 3])),
        Ok(ServerAction::Nothing)
    ));
    assert!(proxy.is_open(5));
}

#[test]
fn multiplex_two_streams_without_cross_contamination() {
    let mut client: ClientProxy<Sink> = ClientProxy::new();
    let mut server: ServerProxy<Sink> = ServerProxy::new();
    let first = client.start_new_stream("example.com", 80).unwrap();
    let second = client.start_new_stream("example.com", 443).unwrap();
    assert_eq!((first.stream_id, second.stream_id), (1, 2));
    client.attach(1, sink());
    client.attach(2, sink());

    let mut destinations: Vec<(u32, String, Sink)> = Vec::new();
    for connect in [first, second] {
        let mut wire = connect.to_bytes();
        let received = Frame::parse(&mut wire).unwrap();
        match server.handle_frame(received).unwrap() {
            ServerAction::Dial { stream_id, target } => {
                let destination = sink();
                server.attach(stream_id, destination.clone());
                destinations.push((stream_id, target, destination));
            }
            _ => panic!("expected a dial"),
        }
    }
    assert_eq!(destinations[0].1, "example.com:80");
    assert_eq!(destinations[1].1, "example.com:443");

    for (stream_id, chunk) in [
        (1u32, &b"GET / HTTP/1.1\r\n"[..]),
        (2, &b"\x16\x03\x01 client hello"[..]),
        (1, &b"Host: example.com\r\n\r\n"[..]),
        (2, &b" and more"[..]),
    ] {
        let mut wire = data_frame(stream_id, chunk).to_bytes();
        let received = Frame::parse(&mut wire).unwrap();
        deliver(server.handle_frame(received).unwrap());
    }
    assert_eq!(
        &destinations[0].2.borrow()[..],
        &b"GET / HTTP/1.1\r\nHost: example.com\r\n\r\n"[..]
    );
    assert_eq!(&destinations[1].2.borrow()[..], &b"\x16\x03\x01 client hello and more"[..]);
}

#[test]
fn stream_disconnect_leaves_the_other_stream_alone() {
    let mut server: ServerProxy<Sink> = ServerProxy::new();
    let (one, two) = (sink(), sink());
    server.attach(1, one.clone());
    server.attach(2, two.clone());
    deliver(server.handle_frame(data_frame(1, b"a")).unwrap());

    let (closing, more) = frame_for_read(1, Some(&[]));
    assert!(!more);
    assert_eq!(closing.frame_type, FrameType::Disconnect);
    let mut wire = closing.to_bytes();
    let received = Frame::parse(&mut wire).unwrap();
    assert!(matches!(server.handle_frame(received), Ok(ServerAction::Nothing)));
    assert!(!server.is_open(1));
    assert!(server.is_open(2));
    // the engine has dropped its handle: only the destination's own is left
    assert_eq!(Rc::strong_count(&one), 1);
    assert_eq!(Rc::strong_count(&two), 2);

    deliver(server.handle_frame(data_frame(1, b"ignored")).unwrap());
    deliver(server.handle_frame(data_frame(2, b"still here")).unwrap());
    assert_eq!(&one.borrow()[..], b"a");
    assert_eq!(&two.borrow()[..], b"still here");
}

#[test]
fn attaching_again_replaces_the_handle() {
    let mut server: ServerProxy<u8> = ServerProxy::new();
    server.attach(1, 10);
    server.attach(1, 11);
    assert!(matches!(
        server.handle_frame(data_frame(1, b"x")),
        Ok(ServerAction::Forward { sink: 11, .. })
    ));
    server.detach(1);
    assert!(!server.is_open(1));
    server.detach(1);
    assert!(!server.is_open(1));
}

#[test]
fn reads_become_data_frames_and_the_end_a_disconnect() {
    let (f, more) = frame_for_read(3, Some(b"chunk"));
    assert!(more);
    assert_eq!(f.frame_type, FrameType::Data);
    assert_eq!(f.stream_id, 3);
    assert_eq!(&f.payload[..], b"chunk");

    let (f, more) = frame_for_read(3, Some(b""));
    assert!(!more);
    assert_eq!(f.frame_type, FrameType::Disconnect);
    assert_eq!(f.stream_id, 3);
    assert!(f.payload.is_empty());

    let (f, more) = frame_for_read(4, None);
    assert!(!more);
    assert_eq!(f.frame_type, FrameType::Disconnect);
    assert_eq!(f.stream_id, 4);
    assert!(f.payload.is_empty());
}

#[test]
fn a_full_read_fits_one_frame() {
    let chunk = vec![0xabu8; READ_CHUNK];
    let (f, more) = frame_for_read(1, Some(&chunk));
    assert!(more);
    assert_eq!(f.to_bytes().len(), 7 + 1400);
    assert_eq!(READ_CHUNK, 1400);
}

#[test]
fn disconnect_frame_is_seven_bytes_on_the_wire() {
    let f = disconnect_frame(0x0a0b_0c0d);
    assert_eq!(&f.to_bytes()[..], &[3, 0x0a, 0x0b, 0x0c, 0x0d, 0, 0]);
}

#[test]
fn channel_capacities_are_as_documented() {
    assert_eq!(STREAM_CHANNEL_CAPACITY, 10000);
    assert_eq!(TUNNEL_CHANNEL_CAPACITY, 1000);
}

#[test]
fn padding_goes_before_short_reads_when_the_coin_says_so() {
    assert_eq!(padding_len(499, true, 0), Some(10));
    assert_eq!(padding_len(499, true, 190), Some(200));
    assert_eq!(padding_len(499, true, 191), Some(10));
    assert_eq!(padding_len(1, true, 255), Some(10 + 64));
    assert_eq!(padding_len(499, false, 0), None);
    assert_eq!(padding_len(500, true, 0), None);
    assert_eq!(padding_len(1400, true, 7), None);
    assert_eq!(padding_len(0, true, 7), None);
    for roll in 0..=255u8 {
        let n = padding_len(100, true, roll).unwrap();
        assert!((10..=200).contains(&n));
    }
    let f = padding_frame(6, &[0x55; 10]);
    assert_eq!(f.frame_type, FrameType::Padding);
    assert_eq!(f.stream_id, 6);
    assert_eq!(&f.payload[..], &[0x55; 10]);
}
