use overtls::address::{AddressError, Destination, Host};
use overtls::frame::{
    parse_frame, CloseKind, Frame, FrameError, Parsed, HEADER_LEN, MAX_PAYLOAD, PROTOCOL_VERSION,
};
use overtls::handshake::{ClientStep, Credentials, ServerStep, METHOD_SHARED_SECRET};
use overtls::wire::{append_slice, bytes_equal, copy_bytes, copy_range, push_be16, push_be32, read_be16, read_be32};

fn v6() -> [u8; 16] {
    [0x20, 0x01, 0x0d, 0xb8, 0, 0, 0, 0, 0, 0, 0, 0, 0, 0, 0, 1]
}

#[test]
fn big_endian_integers_are_written_most_significant_first() {
    let mut out = vec![0xaa];
    push_be16(&mut out, 0x1234);
    push_be32(&mut out, 0xdead_beef);
    assert_eq!(out, vec![0xaa, 0x12, 0x34, 0xde, 0xad, 0xbe, 0xef]);
    assert_eq!(read_be16(&out, 1), 0x1234);
    assert_eq!(read_be32(&out, 3), 0xdead_beef);
    let mut edge = Vec::new();
    push_be16(&mut edge, u16::MAX);
    push_be32(&mut edge, u32::MAX);
    push_be32(&mut edge, 0);
    assert_eq!(read_be16(&edge, 0), u16::MAX);
    assert_eq!(read_be32(&edge, 2), u32::MAX);
    assert_eq!(read_be32(&edge, 6), 0);
}

#[test]
fn byte_helpers_copy_and_compare() {
    let src = [1u8, 2, 3, 4, 5];
    assert_eq!(copy_range(&src, 1, 4), vec![2, 3, 4]);
    assert_eq!(copy_range(&src, 2, 2), Vec::<u8>::new());
    assert_eq!(copy_bytes(&src), src.to_vec());
    let mut out = vec![9u8];
    append_slice(&mut out, &src);
    assert_eq!(out, vec![9, 1, 2, 3, 4, 5]);
    assert!(bytes_equal(&src, &[1, 2, 3, 4, 5]));
    assert!(!bytes_equal(&src, &[1, 2, 3, 4, 6]));
    assert!(!bytes_equal(&src, &[0, 2, 3, 4, 5]));
    assert!(!bytes_equal(&src, &[1, 2, 3, 4]));
    assert!(bytes_equal(&[], &[]));
}

#[test]
fn ipv4_destination_has_the_documented_bytes() {
    let d = Destination::ipv4([1, 2, 3, 4], 80);
    assert_eq!(d.encode(), vec![0x01, 1, 2, 3, 4, 0, 80]);
    assert_eq!(d.port(), 80);
    assert_eq!(d.host(), &Host::Ipv4([1, 2, 3, 4]));
}

#[test]
fn domain_destination_has_the_documented_bytes() {
    let d = Destination::domain(b"example.com", 443).unwrap();
    let mut expected = vec![0x03, 11];
    expected.extend_from_slice(b"example.com");
    expected.extend_from_slice(&[0x01, 0xbb]);
    assert_eq!(d.encode(), expected);
}

#[test]
fn ipv6_destination_has_the_documented_bytes() {
    let d = Destination::ipv6(v6(), 0xfffe);
    let mut expected = vec![0x04];
    expected.extend_from_slice(&v6());
    expected.extend_from_slice(&[0xff, 0xfe]);
    assert_eq!(d.encode(), expected);
}

#[test]
fn destinations_round_trip_for_every_kind() {
    let all = vec![
        Destination::ipv4([127, 0, 0, 1], 0),
        Destination::ipv4([255, 255, 255, 255], 65535),
        Destination::ipv6(v6(), 8443),
        Destination::domain(b"a", 1).unwrap(),
        Destination::domain(&[b'x'; 255], 65535).unwrap(),
        Destination::domain(b"example.com", 80).unwrap(),
    ];
    for d in all {
        let bytes = d.encode();
        let (back, used) = Destination::decode(&bytes).unwrap();
        assert_eq!(back, d);
        assert_eq!(used, bytes.len());
        let mut longer = bytes.clone();
        longer.extend_from_slice(&[7, 7, 7]);
        let (again, used_again) = Destination::decode(&longer).unwrap();
        assert_eq!(again, d);
        assert_eq!(used_again, bytes.len());
        assert_eq!(d.duplicate(), d);
        assert_eq!(d.clone(), d);
    }
}

#[test]
fn destination_new_checks_the_domain_length() {
    assert_eq!(Destination::new(Host::Domain(vec![]), 1), Err(AddressError::EmptyDomain));
    assert_eq!(Destination::new(Host::Domain(vec![b'a'; 256]), 1), Err(AddressError::DomainTooLong));
    assert!(Destination::new(Host::Domain(vec![b'a'; 255]), 1).is_ok());
    assert_eq!(
        Destination::new(Host::Ipv4([9, 9, 9, 9]), 53).unwrap(),
        Destination::ipv4([9, 9, 9, 9], 53)
    );
    assert_eq!(Destination::domain(b"", 1), Err(AddressError::EmptyDomain));
    assert_eq!(Destination::domain(&[b'a'; 256], 1), Err(AddressError::DomainTooLong));
}

#[test]
fn destination_decode_reports_each_error() {
    assert_eq!(Destination::decode(&[]), Err(AddressError::Truncated));
    assert_eq!(Destination::decode(&[0x01, 1, 2, 3, 4, 0]), Err(AddressError::Truncated));
    assert_eq!(Destination::decode(&[0x03]), Err(AddressError::Truncated));
    assert_eq!(Destination::decode(&[0x03, 3, b'a', b'b', b'c', 0]), Err(AddressError::Truncated));
    assert_eq!(Destination::decode(&[0x04, 0, 0]), Err(AddressError::Truncated));
    assert_eq!(Destination::decode(&[0x03, 0, 0, 80]), Err(AddressError::EmptyDomain));
    assert_eq!(Destination::decode(&[0x02, 0, 0, 0, 0, 0, 0]), Err(AddressError::UnknownType));
    assert_eq!(Destination::decode(&[0x00]), Err(AddressError::UnknownType));
}

#[test]
fn data_frame_has_the_documented_bytes() {
    let f = Frame::Data { stream: 9, payload: vec![42] };
    assert_eq!(f.encode().unwrap(), vec![0x03, 0, 0, 0, 9, 0, 1, 42]);
    let empty = Frame::Data { stream: 0x0102_0304, payload: vec![] };
    assert_eq!(empty.encode().unwrap(), vec![0x03, 1, 2, 3, 4, 0, 0]);
}

#[test]
fn open_frame_has_the_documented_bytes() {
    let f = Frame::Open { stream: 1, dest: Destination::ipv4([1, 2, 3, 4], 80) };
    assert_eq!(f.encode().unwrap(), vec![0x02, 0, 0, 0, 1, 0, 7, 0x01, 1, 2, 3, 4, 0, 80]);
}

#[test]
fn close_frame_has_the_documented_bytes() {
    let both = Frame::Close { stream: 0x0a0b_0c0d, how: CloseKind::Both };
    assert_eq!(both.encode().unwrap(), vec![0x04, 0x0a, 0x0b, 0x0c, 0x0d, 0, 1, 3]);
    let read = Frame::Close { stream: 1, how: CloseKind::Read };
    assert_eq!(read.encode().unwrap(), vec![0x04, 0, 0, 0, 1, 0, 1, 1]);
    let write = Frame::Close { stream: 1, how: CloseKind::Write };
    assert_eq!(write.encode().unwrap(), vec![0x04, 0, 0, 0, 1, 0, 1, 2]);
}

#[test]
fn handshake_frame_has_the_documented_bytes() {
    let f = Frame::Handshake { version: 1, method: 1, credential: b"pw".to_vec() };
    assert_eq!(f.encode().unwrap(), vec![0x01, 0, 0, 0, 0, 0, 4, 1, 1, b'p', b'w']);
}

#[test]
fn close_kinds_map_to_their_codes_and_back() {
    assert_eq!(CloseKind::Read.code(), 1);
    assert_eq!(CloseKind::Write.code(), 2);
    assert_eq!(CloseKind::Both.code(), 3);
    assert_eq!(CloseKind::from_code(1), Some(CloseKind::Read));
    assert_eq!(CloseKind::from_code(2), Some(CloseKind::Write));
    assert_eq!(CloseKind::from_code(3), Some(CloseKind::Both));
    assert_eq!(CloseKind::from_code(0), None);
    assert_eq!(CloseKind::from_code(4), None);
    assert!(CloseKind::Read.is_read() && !CloseKind::Read.is_write());
    assert!(!CloseKind::Write.is_read() && CloseKind::Write.is_write());
    assert!(CloseKind::Both.is_read() && CloseKind::Both.is_write());
}

#[test]
fn frames_round_trip_for_every_kind() {
    let all = vec![
        Frame::Handshake { version: PROTOCOL_VERSION, method: 7, credential: vec![] },
        Frame::Handshake { version: 2, method: 0, credential: vec![1; MAX_PAYLOAD - 2] },
        Frame::Open { stream: 0, dest: Destination::ipv4([10, 0, 0, 1], 22) },
        Frame::Open { stream: u32::MAX, dest: Destination::ipv6(v6(), 443) },
        Frame::Open { stream: 77, dest: Destination::domain(&[b'd'; 255], 1).unwrap() },
        Frame::Data { stream: 5, payload: vec![] },
        Frame::Data { stream: 5, payload: vec![0xab; MAX_PAYLOAD] },
        Frame::Close { stream: 5, how: CloseKind::Read },
        Frame::Close { stream: 5, how: CloseKind::Write },
        Frame::Close { stream: 5, how: CloseKind::Both },
    ];
    for f in all {
        let bytes = f.encode().unwrap();
        assert_eq!(parse_frame(&bytes), Parsed::Frame(f.clone(), bytes.len()));
        let mut longer = bytes.clone();
        longer.extend_from_slice(&[0xff, 0xff]);
        assert_eq!(parse_frame(&longer), Parsed::Frame(f.clone(), bytes.len()));
        for cut in 0..bytes.len() {
            assert_eq!(parse_frame(&bytes[..cut]), Parsed::Incomplete);
        }
        let mut out = vec![0x55];
        assert_eq!(f.encode_into(&mut out), Ok(()));
        assert_eq!(out[0], 0x55);
        assert_eq!(&out[1..], &bytes[..]);
    }
}

#[test]
fn oversized_payloads_are_not_encoded() {
    let data = Frame::Data { stream: 1, payload: vec![0; MAX_PAYLOAD + 1] };
    assert_eq!(data.encode(), Err(FrameError::TooLong));
    let hello = Frame::Handshake { version: 1, method: 1, credential: vec![0; MAX_PAYLOAD - 1] };
    assert_eq!(hello.encode(), Err(FrameError::TooLong));
    let mut out = vec![1, 2, 3];
    assert_eq!(data.encode_into(&mut out), Err(FrameError::TooLong));
    assert_eq!(out, vec![1, 2, 3]);
}

#[test]
fn parser_reports_each_framing_error() {
    assert_eq!(parse_frame(&[0x00, 0, 0, 0, 0, 0, 0]), Parsed::Invalid(FrameError::UnknownType));
    assert_eq!(parse_frame(&[0x05, 0, 0, 0, 0, 0, 0]), Parsed::Invalid(FrameError::UnknownType));
    assert_eq!(parse_frame(&[0x03, 0, 0, 0, 1, 0x40, 0x01]), Parsed::Invalid(FrameError::TooLong));
    assert_eq!(parse_frame(&[0x03, 0, 0, 0, 1, 0xff, 0xff]), Parsed::Invalid(FrameError::TooLong));
    assert_eq!(parse_frame(&[0x03, 0, 0, 0, 1, 0x40, 0x00]), Parsed::Incomplete);
    assert_eq!(parse_frame(&[0x01, 0, 0, 0, 1, 0, 2, 1, 1]), Parsed::Invalid(FrameError::BadHandshake));
    assert_eq!(parse_frame(&[0x01, 0, 0, 0, 0, 0, 1, 1]), Parsed::Invalid(FrameError::BadHandshake));
    assert_eq!(parse_frame(&[0x01, 0, 0, 0, 0, 0, 0]), Parsed::Invalid(FrameError::BadHandshake));
    assert_eq!(
        parse_frame(&[0x02, 0, 0, 0, 1, 0, 8, 0x01, 1, 2, 3, 4, 0, 80, 0]),
        Parsed::Invalid(FrameError::BadAddress)
    );
    assert_eq!(
        parse_frame(&[0x02, 0, 0, 0, 1, 0, 6, 0x01, 1, 2, 3, 4, 0]),
        Parsed::Invalid(FrameError::BadAddress)
    );
    assert_eq!(
        parse_frame(&[0x02, 0, 0, 0, 1, 0, 7, 0x09, 1, 2, 3, 4, 0, 80]),
        Parsed::Invalid(FrameError::BadAddress)
    );
    assert_eq!(parse_frame(&[0x02, 0, 0, 0, 1, 0, 0]), Parsed::Invalid(FrameError::BadAddress));
    assert_eq!(parse_frame(&[0x04, 0, 0, 0, 1, 0, 1, 0]), Parsed::Invalid(FrameError::BadClose));
    assert_eq!(parse_frame(&[0x04, 0, 0, 0, 1, 0, 1, 4]), Parsed::Invalid(FrameError::BadClose));
    assert_eq!(parse_frame(&[0x04, 0, 0, 0, 1, 0, 2, 3, 3]), Parsed::Invalid(FrameError::BadClose));
    assert_eq!(parse_frame(&[0x04, 0, 0, 0, 1, 0, 0]), Parsed::Invalid(FrameError::BadClose));
    assert_eq!(parse_frame(&[]), Parsed::Incomplete);
    assert_eq!(parse_frame(&[0x09]), Parsed::Incomplete);
    assert_eq!(HEADER_LEN, 7);
    assert_eq!(MAX_PAYLOAD, 16384);
}

#[test]
fn matching_credentials_are_admitted() {
    let c = Credentials::new(METHOD_SHARED_SECRET, b"correct horse").unwrap();
    assert_eq!(c.method(), METHOD_SHARED_SECRET);
    let hello = c.hello();
    let mut expected = vec![0x01, 0, 0, 0, 0, 0, 15, PROTOCOL_VERSION, METHOD_SHARED_SECRET];
    expected.extend_from_slice(b"correct horse");
    assert_eq!(hello, expected);
    let step = c.server_step(&hello);
    let reply = vec![0x01, 0, 0, 0, 0, 0, 2, PROTOCOL_VERSION, METHOD_SHARED_SECRET];
    assert_eq!(step, ServerStep::Accept { reply: reply.clone(), consumed: hello.len() });
    assert_eq!(step.reply(), reply);
    assert_eq!(c.client_step(&reply), ClientStep::Established { consumed: reply.len() });
    let mut with_more = hello.clone();
    with_more.extend_from_slice(&[0x03, 0, 0]);
    assert_eq!(
        c.server_step(&with_more),
        ServerStep::Accept { reply, consumed: hello.len() }
    );
}

#[test]
fn invalid_credential_gets_no_byte_in_return() {
    let server = Credentials::new(METHOD_SHARED_SECRET, b"secret").unwrap();
    let wrong_secret = Credentials::new(METHOD_SHARED_SECRET, b"Secret").unwrap();
    let wrong_method = Credentials::new(2, b"secret").unwrap();
    let shorter = Credentials::new(METHOD_SHARED_SECRET, b"secre").unwrap();
    for client in [wrong_secret, wrong_method, shorter] {
        let step = server.server_step(&client.hello());
        assert_eq!(step, ServerStep::Reject);
        assert!(step.reply().is_empty());
    }
    let wrong_version = Frame::Handshake { version: 2, method: 1, credential: b"secret".to_vec() };
    assert_eq!(server.server_step(&wrong_version.encode().unwrap()), ServerStep::Reject);
    let not_a_hello = Frame::Data { stream: 0, payload: b"secret".to_vec() };
    assert_eq!(server.server_step(&not_a_hello.encode().unwrap()), ServerStep::Reject);
    let noise = [0x16u8, 0x03, 0x01, 0x02, 0x00, 0x01, 0x00];
    let step = server.server_step(&noise);
    assert_eq!(step, ServerStep::Reject);
    assert!(step.reply().is_empty());
}

#[test]
fn handshake_waits_for_a_whole_frame() {
    let c = Credentials::new(METHOD_SHARED_SECRET, b"secret").unwrap();
    let hello = c.hello();
    for cut in 0..hello.len() {
        let step = c.server_step(&hello[..cut]);
        assert_eq!(step, ServerStep::Wait);
        assert!(step.reply().is_empty());
    }
    let reply = c.server_step(&hello).reply();
    for cut in 0..reply.len() {
        assert_eq!(c.client_step(&reply[..cut]), ClientStep::Wait);
    }
}

#[test]
fn client_refuses_anything_but_the_acceptance() {
    let c = Credentials::new(METHOD_SHARED_SECRET, b"secret").unwrap();
    assert_eq!(c.client_step(&c.hello()), ClientStep::Refused);
    let other_method = Frame::Handshake { version: PROTOCOL_VERSION, method: 9, credential: vec![] };
    assert_eq!(c.client_step(&other_method.encode().unwrap()), ClientStep::Refused);
    let close = Frame::Close { stream: 1, how: CloseKind::Both };
    assert_eq!(c.client_step(&close.encode().unwrap()), ClientStep::Refused);
    assert_eq!(c.client_step(&[0xee, 0, 0, 0, 0, 0, 0]), ClientStep::Refused);
}

#[test]
fn credentials_must_fit_in_one_frame() {
    assert!(Credentials::new(1, &vec![0; MAX_PAYLOAD - 2]).is_some());
    assert!(Credentials::new(1, &vec![0; MAX_PAYLOAD - 1]).is_none());
    assert!(Credentials::new(1, &[]).is_some());
}
