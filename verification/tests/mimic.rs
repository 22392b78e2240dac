use chimera::mimic::{find_subslice, HttpMimic, Mimic, MimicError, MAX_MIMIC_PAYLOAD};

#[test]
fn client_envelope_is_a_get_request() {
    let packet = HttpMimic.encapsulate(b"hello", false).unwrap();
    assert_eq!(
        &packet[..],
        &b"GET /api/v1/resource/aGVsbG8 HTTP/1.1\r\nHost: cdn.example.com\r\nUser-Agent: Chimera/1.0\r\nConnection: keep-alive\r\n\r\n"[..]
    );
}

#[test]
fn server_envelope_is_a_200_response() {
    let packet = HttpMimic.encapsulate(b"hello", true).unwrap();
    assert_eq!(
        &packet[..],
        &b"HTTP/1.1 200 OK\r\nServer: Chuck/1.0\r\nContent-Type: text/html\r\nContent-Length: 0\r\nX-Data: aGVsbG8\r\n\r\n"[..]
    );
}

#[test]
fn payload_is_url_safe_base64_without_padding() {
    let packet = HttpMimic.encapsulate(&[0xfb, 0xff, 0xfe, 0x3e], false).unwrap();
    let text = std::str::from_utf8(&packet).unwrap();
    assert!(text.starts_with("GET /api/v1/resource/-__-Pg HTTP/1.1\r\n"));
    assert!(!text.contains('='));
    assert!(!text.contains('+'));
}

#[test]
fn a_32_byte_key_takes_43_symbols() {
    let packet = HttpMimic.encapsulate(&[0u8; 32], false).unwrap();
    let text = std::str::from_utf8(&packet).unwrap();
    let expected = format!("GET /api/v1/resource/{} HTTP/1.1\r\n", "A".repeat(43));
    assert!(text.starts_with(&expected));
}

#[test]
fn mimic_round_trip_in_both_directions() {
    let public_key: Vec<u8> = (0..32u8).map(|i| i.wrapping_mul(37).wrapping_add(11)).collect();
    let request = HttpMimic.encapsulate(&public_key, false).unwrap();
    assert_eq!(HttpMimic.decapsulate(&request), Ok(Some(public_key.clone())));
    let response = HttpMimic.encapsulate(&public_key, true).unwrap();
    assert_eq!(HttpMimic.decapsulate(&response), Ok(Some(public_key)));
}

#[test]
fn mimic_round_trip_for_payloads_of_every_remainder() {
    for len in 0..70usize {
        let payload: Vec<u8> = (0..len).map(|i| (i * 7 + len) as u8).collect();
        for is_server in [false, true] {
            let packet = HttpMimic.encapsulate(&payload, is_server).unwrap();
            assert_eq!(HttpMimic.decapsulate(&packet), Ok(Some(payload.clone())));
        }
    }
}

#[test]
fn mimic_round_trip_when_the_payload_spells_a_marker() {
    // base64 of these bytes begins with "GET", which must not confuse the
    // search for the request marker in a response
    let payload = [0x18, 0x44, 0xd3, 0x18, 0x44, 0xd3];
    let response = HttpMimic.encapsulate(&payload, true).unwrap();
    assert!(std::str::from_utf8(&response).unwrap().contains("X-Data: GETTGETT\r\n"));
    assert_eq!(HttpMimic.decapsulate(&response), Ok(Some(payload.to_vec())));
}

#[test]
fn non_http_bytes_are_not_recognized() {
    assert_eq!(HttpMimic.decapsulate(b""), Ok(None));
    assert_eq!(HttpMimic.decapsulate(&[0x16, 0x03, 0x01, 0x02, 0x00]), Ok(None));
    assert_eq!(HttpMimic.decapsulate(b"POST /upload HTTP/1.1\r\n\r\n"), Ok(None));
    assert_eq!(HttpMimic.decapsulate(&[0xff; 64]), Ok(None));
}

#[test]
fn request_marker_without_its_end_falls_back_to_the_header() {
    assert_eq!(HttpMimic.decapsulate(b"GET /api/v1/resource/aGVsbG8"), Ok(None));
    assert_eq!(
        HttpMimic.decapsulate(b"GET /api/v1/resource/zzzz\r\nX-Data: aGVsbG8\r\n"),
        Ok(Some(b"hello".to_vec()))
    );
}

#[test]
fn header_without_line_end_is_not_recognized() {
    assert_eq!(HttpMimic.decapsulate(b"X-Data: aGVsbG8"), Ok(None));
}

#[test]
fn envelope_is_found_anywhere_in_the_packet() {
    assert_eq!(
        HttpMimic.decapsulate(b"junk junk GET /api/v1/resource/aGVsbG8 HTTP/1.1\r\n"),
        Ok(Some(b"hello".to_vec()))
    );
}

#[test]
fn empty_payload_round_trips() {
    assert_eq!(
        HttpMimic.decapsulate(b"GET /api/v1/resource/ HTTP/1.1\r\n\r\n"),
        Ok(Some(Vec::new()))
    );
}

#[test]
fn bad_base64_is_an_error() {
    assert_eq!(
        HttpMimic.decapsulate(b"GET /api/v1/resource/not*base64 HTTP/1.1\r\n\r\n"),
        Err(MimicError::Encoding)
    );
    assert_eq!(
        HttpMimic.decapsulate(b"GET /api/v1/resource/aGVsbG8= HTTP/1.1\r\n\r\n"),
        Err(MimicError::Encoding)
    );
    assert_eq!(HttpMimic.decapsulate(b"X-Data: a\r\n"), Err(MimicError::Encoding));
}

#[test]
fn protocol_name_is_http() {
    assert_eq!(HttpMimic.protocol_name(), "HTTP");
}

#[test]
fn find_subslice_finds_the_first_occurrence_from_an_index() {
    let hay = b"abcabcabc";
    assert_eq!(find_subslice(hay, b"abc", 0), Some(0));
    assert_eq!(find_subslice(hay, b"abc", 1), Some(3));
    assert_eq!(find_subslice(hay, b"abc", 4), Some(6));
    assert_eq!(find_subslice(hay, b"abc", 7), None);
    assert_eq!(find_subslice(hay, b"cab", 0), Some(2));
    assert_eq!(find_subslice(hay, b"x", 0), None);
    assert_eq!(find_subslice(hay, b"abcabcabcd", 0), None);
    assert_eq!(find_subslice(hay, b"", 4), Some(4));
    assert_eq!(find_subslice(hay, b"", 9), Some(9));
    assert_eq!(find_subslice(hay, b"", 10), None);
    assert_eq!(find_subslice(b"", b"a", 0), None);
}

#[test]
fn payload_beyond_the_limit_is_refused() {
    assert_eq!(MAX_MIMIC_PAYLOAD, 1 << 30);
    let huge = vec![0u8; MAX_MIMIC_PAYLOAD + 1];
    assert_eq!(HttpMimic.encapsulate(&huge, false).err(), Some(MimicError::PayloadTooLarge));
    assert_eq!(HttpMimic.encapsulate(&huge, true).err(), Some(MimicError::PayloadTooLarge));
}
