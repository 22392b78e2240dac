use bytes::Bytes;
use chimera::protocol::{
    push_be16, push_be32, read_be16, read_be32, Frame, FrameType, ProtocolError, HEADER_LEN,
    MAX_PAYLOAD_LEN,
};

fn frame(frame_type: FrameType, stream_id: u32, payload: &[u8]) -> Frame {
    Frame::new(frame_type, stream_id, Bytes::copy_from_slice(payload))
}

#[test]
fn frame_type_bytes_are_one_to_four() {
    assert_eq!(FrameType::Connect.to_byte(), 0x01);
    assert_eq!(FrameType::Data.to_byte(), 0x02);
    assert_eq!(FrameType::Disconnect.to_byte(), 0x03);
    assert_eq!(FrameType::Padding.to_byte(), 0x04);
}

#[test]
fn frame_type_from_byte_accepts_known_values() {
    assert_eq!(FrameType::from_byte(1), Ok(FrameType::Connect));
    assert_eq!(FrameType::from_byte(2), Ok(FrameType::Data));
    assert_eq!(FrameType::from_byte(3), Ok(FrameType::Disconnect));
    assert_eq!(FrameType::from_byte(4), Ok(FrameType::Padding));
}

#[test]
fn frame_type_from_byte_rejects_everything_else() {
    assert_eq!(FrameType::from_byte(0), Err(ProtocolError::InvalidFrameType(0)));
    assert_eq!(FrameType::from_byte(5), Err(ProtocolError::InvalidFrameType(5)));
    assert_eq!(FrameType::from_byte(255), Err(ProtocolError::InvalidFrameType(255)));
    for value in 5..=255u8 {
        assert!(FrameType::from_byte(value).is_err());
    }
}

#[test]
fn frame_type_try_from_agrees_with_from_byte() {
    for value in 0..=255u8 {
        assert_eq!(FrameType::try_from(value), FrameType::from_byte(value));
    }
}

#[test]
fn big_endian_helpers_read_what_they_write() {
    let mut out = Vec::new();
    push_be32(&mut out, 0x0102_0304);
    push_be16(&mut out, 0xa0b1);
    assert_eq!(out, vec![1, 2, 3, 4, 0xa0, 0xb1]);
    assert_eq!(read_be32(&out, 0), 0x0102_0304);
    assert_eq!(read_be16(&out, 4), 0xa0b1);
    assert_eq!(read_be16(&out, 1), 0x0203);
}

#[test]
fn serialized_frame_has_the_documented_layout() {
    let f = frame(FrameType::Data, 0x0102_0304, b"abc");
    let wire = f.to_bytes();
    assert_eq!(&wire[..], &[0x02, 0x01, 0x02, 0x03, 0x04, 0x00, 0x03, b'a', b'b', b'c']);
}

#[test]
fn header_is_seven_bytes() {
    assert_eq!(HEADER_LEN, 7);
    let f = frame(FrameType::Disconnect, 9, b"");
    assert_eq!(f.to_bytes().len(), 7);
}

#[test]
fn parse_inverts_serialize_for_every_type() {
    for frame_type in [
        FrameType::Connect,
        FrameType::Data,
        FrameType::Disconnect,
        FrameType::Padding,
    ] {
        for stream_id in [0u32, 1, 0xffff, 0x8000_0000, u32::MAX] {
            let f = frame(frame_type, stream_id, b"some payload");
            let mut wire = f.to_bytes();
            let parsed = Frame::parse(&mut wire).unwrap();
            assert_eq!(parsed.frame_type, frame_type);
            assert_eq!(parsed.stream_id, stream_id);
            assert_eq!(&parsed.payload[..], b"some payload");
            assert!(wire.is_empty());
        }
    }
}

#[test]
fn zero_byte_data_frame_round_trips() {
    let f = frame(FrameType::Data, 5, b"");
    let mut wire = f.to_bytes();
    assert_eq!(&wire[..], &[0x02, 0, 0, 0, 5, 0, 0]);
    assert_eq!(Frame::check(&wire), Some(7));
    let parsed = Frame::parse(&mut wire).unwrap();
    assert_eq!(parsed.frame_type, FrameType::Data);
    assert_eq!(parsed.stream_id, 5);
    assert!(parsed.payload.is_empty());
    assert!(wire.is_empty());
}

#[test]
fn maximum_size_payload_round_trips() {
    let payload: Vec<u8> = (0..MAX_PAYLOAD_LEN).map(|i| (i % 251) as u8).collect();
    assert_eq!(payload.len(), 65535);
    let f = frame(FrameType::Data, 77, &payload);
    let mut wire = f.to_bytes();
    assert_eq!(wire.len(), 7 + 65535);
    assert_eq!(&wire[5..7], &[0xff, 0xff]);
    assert_eq!(Frame::check(&wire), Some(7 + 65535));
    let parsed = Frame::parse(&mut wire).unwrap();
    assert_eq!(parsed.stream_id, 77);
    assert_eq!(&parsed.payload[..], &payload[..]);
    assert!(wire.is_empty());
}

#[test]
fn check_reports_incomplete_header() {
    assert_eq!(Frame::check(&[]), None);
    assert_eq!(Frame::check(&[2, 0, 0, 0, 1, 0]), None);
}

#[test]
fn check_reports_incomplete_payload() {
    assert_eq!(Frame::check(&[2, 0, 0, 0, 1, 0, 3, b'a', b'b']), None);
}

#[test]
fn check_returns_total_length_and_ignores_what_follows() {
    let buf = [2, 0, 0, 0, 1, 0, 3, b'a', b'b', b'c', 9, 9];
    assert_eq!(Frame::check(&buf), Some(10));
}

#[test]
fn check_does_not_look_at_the_type_byte() {
    assert_eq!(Frame::check(&[9, 0, 0, 0, 1, 0, 0]), Some(7));
}

#[test]
fn parse_consumes_exactly_what_check_announced() {
    let mut buf = Bytes::from(vec![1, 0, 0, 0, 2, 0, 2, b'h', b'i', 0xaa, 0xbb, 0xcc]);
    let announced = Frame::check(&buf).unwrap();
    let before = buf.len();
    let f = Frame::parse(&mut buf).unwrap();
    assert_eq!(before - buf.len(), announced);
    assert_eq!(f.frame_type, FrameType::Connect);
    assert_eq!(f.stream_id, 2);
    assert_eq!(&f.payload[..], b"hi");
    assert_eq!(&buf[..], &[0xaa, 0xbb, 0xcc]);
}

#[test]
fn parse_rejects_short_header_and_consumes_nothing() {
    let mut buf = Bytes::from(vec![2, 0, 0, 0, 1, 0]);
    assert_eq!(Frame::parse(&mut buf).unwrap_err(), ProtocolError::IncompleteHeader);
    assert_eq!(buf.len(), 6);
}

#[test]
fn parse_rejects_unknown_type_after_reading_it() {
    let mut buf = Bytes::from(vec![9, 0, 0, 0, 1, 0, 0]);
    assert_eq!(Frame::parse(&mut buf).unwrap_err(), ProtocolError::InvalidFrameType(9));
    assert_eq!(&buf[..], &[0, 0, 0, 1, 0, 0]);
}

#[test]
fn parse_rejects_type_zero() {
    let mut buf = Bytes::from(vec![0, 0, 0, 0, 1, 0, 0]);
    assert_eq!(Frame::parse(&mut buf).unwrap_err(), ProtocolError::InvalidFrameType(0));
}

#[test]
fn parse_rejects_truncated_payload_after_reading_the_header() {
    let mut buf = Bytes::from(vec![2, 0, 0, 0, 1, 0, 4, b'a', b'b']);
    assert_eq!(Frame::parse(&mut buf).unwrap_err(), ProtocolError::IncompletePayload);
    assert_eq!(&buf[..], b"ab");
}

#[test]
fn frame_new_keeps_its_arguments() {
    let payload = Bytes::from_static(b"xyz");
    let f = Frame::new(FrameType::Padding, 42, payload.clone());
    assert_eq!(f.frame_type, FrameType::Padding);
    assert_eq!(f.stream_id, 42);
    assert_eq!(f.payload, payload);
}
