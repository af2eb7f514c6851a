use ooproxy::client::{
    method_reply, parse_greeting, parse_request, request_success_reply, Address, GreetingStatus,
    IpAddress, RequestStatus,
};

#[test]
fn greeting_accepts_no_auth() {
    assert_eq!(parse_greeting(&[5, 1, 0]), GreetingStatus::Accept { consumed: 3 });
    assert_eq!(parse_greeting(&[5, 3, 2, 0, 1]), GreetingStatus::Accept { consumed: 5 });
}

#[test]
fn greeting_needs_more() {
    assert_eq!(parse_greeting(&[]), GreetingStatus::NeedMore { needed: 1 });
    assert_eq!(parse_greeting(&[5]), GreetingStatus::NeedMore { needed: 2 });
    assert_eq!(parse_greeting(&[5, 2]), GreetingStatus::NeedMore { needed: 4 });
    assert_eq!(parse_greeting(&[5, 2, 0]), GreetingStatus::NeedMore { needed: 4 });
}

#[test]
fn greeting_wrong_version_rejected() {
    assert_eq!(parse_greeting(&[4]), GreetingStatus::Reject { consumed: 1 });
    assert_eq!(parse_greeting(&[0x47, 0x45, 0x54]), GreetingStatus::Reject { consumed: 1 });
}

#[test]
fn greeting_without_noauth_rejected() {
    // Only the method list is consumed: nothing beyond it is touched,
    // even when more bytes already arrived.
    assert_eq!(parse_greeting(&[5, 1, 2]), GreetingStatus::Reject { consumed: 3 });
    assert_eq!(
        parse_greeting(&[5, 2, 1, 2, 0xDE, 0xAD, 0xBE]),
        GreetingStatus::Reject { consumed: 4 }
    );
}

#[test]
fn request_v4_accepted() {
    let r = parse_request(&[5, 1, 0, 1, 93, 184, 216, 34, 0x01, 0xBB]);
    match r {
        RequestStatus::Accept { dest, consumed } => {
            assert_eq!(consumed, 10);
            assert_eq!(dest.port, 443);
            match dest.host {
                Address::Ip(ip) => assert_eq!(ip, IpAddress::V4(0x5DB8D822)),
                _ => panic!("expected an IPv4 destination"),
            }
        }
        _ => panic!("expected an accepted request"),
    }
}

#[test]
fn request_domain_accepted() {
    let mut input = vec![5, 1, 0, 3, 11];
    input.extend_from_slice(b"example.com");
    input.extend_from_slice(&[0x01, 0xBB]);
    match parse_request(&input) {
        RequestStatus::Accept { dest, consumed } => {
            assert_eq!(consumed, 18);
            assert_eq!(dest.port, 443);
            match dest.host {
                Address::Domain(d) => assert_eq!(d, b"example.com".to_vec()),
                _ => panic!("expected a domain destination"),
            }
        }
        _ => panic!("expected an accepted request"),
    }
}

#[test]
fn request_v6_accepted() {
    let mut input = vec![5, 1, 0, 4];
    input.extend_from_slice(&[0x20, 0x01, 0x0D, 0xB8, 0, 0, 0, 0, 0, 0, 0, 0, 0, 0, 0, 1]);
    input.extend_from_slice(&[0x1F, 0x90]);
    match parse_request(&input) {
        RequestStatus::Accept { dest, consumed } => {
            assert_eq!(consumed, 22);
            assert_eq!(dest.port, 8080);
            match dest.host {
                Address::Ip(ip) => {
                    assert_eq!(ip, IpAddress::V6(0x20010DB8_00000000_00000000_00000001))
                }
                _ => panic!("expected an IPv6 destination"),
            }
        }
        _ => panic!("expected an accepted request"),
    }
}

#[test]
fn request_needs_more() {
    assert!(matches!(parse_request(&[5, 1, 0]), RequestStatus::NeedMore { needed: 4 }));
    assert!(matches!(parse_request(&[5, 1, 0, 1, 9]), RequestStatus::NeedMore { needed: 10 }));
    assert!(matches!(parse_request(&[5, 1, 0, 3]), RequestStatus::NeedMore { needed: 5 }));
    assert!(matches!(parse_request(&[5, 1, 0, 3, 4, b'a']), RequestStatus::NeedMore {
        needed: 9
    }));
    // Domain bytes all present and valid, port still missing.
    assert!(matches!(parse_request(&[5, 1, 0, 3, 2, b'a', b'b']), RequestStatus::NeedMore {
        needed: 9
    }));
    assert!(matches!(parse_request(&[5, 1, 0, 4, 0]), RequestStatus::NeedMore { needed: 22 }));
}

#[test]
fn request_non_connect_rejected() {
    // BIND and UDP-associate commands are refused after the fixed header.
    assert!(matches!(parse_request(&[5, 2, 0, 1]), RequestStatus::Reject { consumed: 4 }));
    assert!(matches!(parse_request(&[5, 3, 0, 1]), RequestStatus::Reject { consumed: 4 }));
    // Wrong version in the request header.
    assert!(matches!(parse_request(&[4, 1, 0, 1]), RequestStatus::Reject { consumed: 4 }));
}

#[test]
fn request_unknown_address_type_rejected() {
    assert!(matches!(parse_request(&[5, 1, 0, 2, 0, 0]), RequestStatus::Reject { consumed: 4 }));
    assert!(matches!(parse_request(&[5, 1, 0, 9]), RequestStatus::Reject { consumed: 4 }));
}

#[test]
fn request_invalid_domain_utf8_rejected() {
    // The length byte and domain bytes are consumed, the port is not.
    let input = [5, 1, 0, 3, 2, 0xFF, 0xFE, 0x01, 0xBB];
    assert!(matches!(parse_request(&input), RequestStatus::Reject { consumed: 7 }));
}

#[test]
fn reply_bytes() {
    assert_eq!(method_reply(), vec![5, 0]);
    assert_eq!(request_success_reply(), vec![5, 0, 0, 1, 0, 0, 0, 0, 0, 0]);
}
