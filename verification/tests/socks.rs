use chimera::socks::{SocksError, SocksNegotiation, SocksStep};

const OK_REPLY: [u8; 10] = [5, 0, 0, 1, 0, 0, 0, 0, 0, 0];

fn read(step: SocksStep) -> usize {
    match step {
        SocksStep::Read(n) => n,
        _ => panic!("expected a read"),
    }
}

fn greeted() -> SocksNegotiation {
    let mut n = SocksNegotiation::new();
    assert_eq!(n.expects(), 2);
    assert_eq!(read(n.advance(&[5, 1])), 1);
    match n.advance(&[0]) {
        SocksStep::ReplyThenRead { reply, read } => {
            assert_eq!(reply, vec![5, 0]);
            assert_eq!(read, 4);
        }
        _ => panic!("expected the method reply"),
    }
    assert_eq!(n.expects(), 4);
    n
}

#[test]
fn connect_to_a_domain_name() {
    let mut n = greeted();
    assert_eq!(read(n.advance(&[5, 1, 0, 3])), 1);
    assert_eq!(read(n.advance(&[11])), 11);
    assert_eq!(n.expects(), 11);
    assert_eq!(read(n.advance(b"example.com")), 2);
    assert!(!n.is_done());
    match n.advance(&[0x01, 0xbb]) {
        SocksStep::Accept { reply, host, port } => {
            assert_eq!(reply, OK_REPLY.to_vec());
            assert_eq!(host, "example.com");
            assert_eq!(port, 443);
        }
        _ => panic!("expected the request to be accepted"),
    }
    assert!(n.is_done());
    assert_eq!(n.expects(), 0);
}

#[test]
fn connect_to_an_ipv4_literal() {
    let mut n = greeted();
    assert_eq!(read(n.advance(&[5, 1, 0, 1])), 4);
    assert_eq!(read(n.advance(&[192, 168, 0, 1])), 2);
    match n.advance(&[0, 80]) {
        SocksStep::Accept { reply, host, port } => {
            assert_eq!(reply, OK_REPLY.to_vec());
            assert_eq!(host, "192.168.0.1");
            assert_eq!(port, 80);
        }
        _ => panic!("expected the request to be accepted"),
    }
}

#[test]
fn ipv4_literals_are_dotted_decimal_without_padding() {
    for (octets, text) in [
        ([0u8, 0, 0, 0], "0.0.0.0"),
        ([255, 255, 255, 255], "255.255.255.255"),
        ([10, 0, 100, 9], "10.0.100.9"),
        ([127, 0, 0, 1], "127.0.0.1"),
    ] {
        let mut n = greeted();
        n.advance(&[5, 1, 0, 1]);
        n.advance(&octets);
        match n.advance(&[0xff, 0xff]) {
            SocksStep::Accept { host, port, .. } => {
                assert_eq!(host, text);
                assert_eq!(port, 65535);
            }
            _ => panic!("expected the request to be accepted"),
        }
    }
}

#[test]
fn several_methods_are_fine_if_no_auth_is_among_them() {
    let mut n = SocksNegotiation::new();
    assert_eq!(read(n.advance(&[5, 3])), 3);
    assert!(matches!(n.advance(&[2, 1, 0]), SocksStep::ReplyThenRead { read: 4, .. }));
}

#[test]
fn wrong_version_is_rejected_without_reply_after_the_methods_were_read() {
    let mut n = SocksNegotiation::new();
    assert_eq!(read(n.advance(&[4, 1])), 1);
    match n.advance(&[0]) {
        SocksStep::Reject { reply, error } => {
            assert_eq!(reply, None);
            assert_eq!(error, SocksError::UnsupportedVersion(4));
        }
        _ => panic!("expected a refusal"),
    }
    assert!(n.is_done());
}

#[test]
fn missing_no_auth_method_is_answered_with_ff() {
    let mut n = SocksNegotiation::new();
    assert_eq!(read(n.advance(&[5, 2])), 2);
    match n.advance(&[1, 2]) {
        SocksStep::Reject { reply, error } => {
            assert_eq!(reply, Some(vec![5, 0xff]));
            assert_eq!(error, SocksError::NoAcceptableMethod);
        }
        _ => panic!("expected a refusal"),
    }
}

#[test]
fn no_methods_at_all_is_answered_with_ff() {
    let mut n = SocksNegotiation::new();
    assert_eq!(read(n.advance(&[5, 0])), 0);
    assert!(matches!(
        n.advance(&[]),
        SocksStep::Reject { reply: Some(_), error: SocksError::NoAcceptableMethod }
    ));
}

#[test]
fn commands_other_than_connect_are_refused() {
    let mut n = greeted();
    match n.advance(&[5, 2, 0, 1]) {
        SocksStep::Reject { reply, error } => {
            assert_eq!(reply, Some(vec![5, 7, 0, 1, 0, 0, 0, 0, 0, 0]));
            assert_eq!(error, SocksError::UnsupportedCommand(2));
        }
        _ => panic!("expected a refusal"),
    }
    assert!(n.is_done());
}

#[test]
fn ipv6_addresses_are_refused() {
    let mut n = greeted();
    match n.advance(&[5, 1, 0, 4]) {
        SocksStep::Reject { reply, error } => {
            assert_eq!(reply, Some(vec![5, 8, 0, 1, 0, 0, 0, 0, 0, 0]));
            assert_eq!(error, SocksError::UnsupportedAddressType(4));
        }
        _ => panic!("expected a refusal"),
    }
}

#[test]
fn domain_names_must_be_utf8() {
    let mut n = greeted();
    n.advance(&[5, 1, 0, 3]);
    n.advance(&[2]);
    match n.advance(&[0xc3, 0x28]) {
        SocksStep::Reject { reply, error } => {
            assert_eq!(reply, None);
            assert_eq!(error, SocksError::InvalidDomain);
        }
        _ => panic!("expected a refusal"),
    }
}

#[test]
fn empty_domain_name_is_passed_on() {
    let mut n = greeted();
    n.advance(&[5, 1, 0, 3]);
    assert_eq!(read(n.advance(&[0])), 0);
    assert_eq!(read(n.advance(&[])), 2);
    assert!(matches!(
        n.advance(&[0, 1]),
        SocksStep::Accept { host, port: 1, .. } if host.is_empty()
    ));
}
