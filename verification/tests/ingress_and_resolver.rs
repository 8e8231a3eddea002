use overtls::address::{Destination, Host};
use overtls::frame::Frame;
use overtls::resolver::{AddressCache, IpAddress, Lookup, ResolveError, DEFAULT_TTL, MAX_ENTRIES};
use overtls::session::{Event, Poll, Role, Session};
use overtls::socks::{
    connect_request, greeting_reply, parse_greeting, parse_request, reply, Greeting, Request,
    REP_ATYP_UNSUPPORTED, REP_COMMAND_UNSUPPORTED, REP_FAILURE, REP_OK, REP_UNREACHABLE,
};

#[test]
fn proxy_connect_for_a_domain_reaches_the_server_unchanged() {
    let greeting = [0x05u8, 0x01, 0x00];
    let g = parse_greeting(&greeting);
    assert_eq!(g, Greeting::Accepted { consumed: 3 });
    assert_eq!(greeting_reply(g), vec![0x05, 0x00]);

    let mut request = vec![0x05u8, 0x01, 0x00, 0x03, 11];
    request.extend_from_slice(b"example.com");
    request.extend_from_slice(&[0x00, 0x50]);
    let dest = match parse_request(&request) {
        Request::Connect { dest, consumed } => {
            assert_eq!(consumed, request.len());
            dest
        }
        other => panic!("{:?}", other),
    };
    assert_eq!(dest.host(), &Host::Domain(b"example.com".to_vec()));
    assert_eq!(dest.port(), 80);

    let mut client = Session::new(Role::Client);
    let mut server = Session::new(Role::Server);
    let (id, open) = client.open_stream(dest).unwrap();
    server.feed(&open);
    assert_eq!(server.poll(), Poll::Event(Event::Opened(id)));
    let (got, decoded) = server.accept_stream().unwrap();
    assert_eq!(got, id);
    assert_eq!(String::from_utf8(match decoded.host() {
        Host::Domain(n) => n.clone(),
        _ => Vec::new(),
    }).unwrap(), "example.com");
    assert_eq!(decoded.port(), 80);
    assert_eq!(reply(REP_OK), vec![0x05, 0x00, 0x00, 0x01, 0, 0, 0, 0, 0, 0]);
}

#[test]
fn greeting_is_read_byte_by_byte() {
    assert_eq!(parse_greeting(&[]), Greeting::Incomplete);
    assert_eq!(parse_greeting(&[0x05]), Greeting::Incomplete);
    assert_eq!(parse_greeting(&[0x05, 0x02, 0x01]), Greeting::Incomplete);
    assert_eq!(parse_greeting(&[0x05, 0x02, 0x01, 0x00]), Greeting::Accepted { consumed: 4 });
    assert_eq!(parse_greeting(&[0x05, 0x02, 0x01, 0x02]), Greeting::NoMethod { consumed: 4 });
    assert_eq!(parse_greeting(&[0x05, 0x00]), Greeting::NoMethod { consumed: 2 });
    assert_eq!(parse_greeting(&[0x05, 0x01, 0x00, 0x05, 0x01]), Greeting::Accepted { consumed: 3 });
    assert_eq!(parse_greeting(&[0x04, 0x01, 0x00]), Greeting::NotSocks);
    assert_eq!(parse_greeting(&[b'G', b'E', b'T']), Greeting::NotSocks);
    assert_eq!(greeting_reply(Greeting::NoMethod { consumed: 4 }), vec![0x05, 0xff]);
    assert_eq!(greeting_reply(Greeting::Incomplete), Vec::<u8>::new());
    assert_eq!(greeting_reply(Greeting::NotSocks), Vec::<u8>::new());
}

#[test]
fn requests_round_trip_for_every_kind_of_address() {
    let v6 = [0u8, 0, 0, 0, 0, 0, 0, 0, 0, 0, 0, 0, 0, 0, 0, 1];
    let all = vec![
        Destination::ipv4([8, 8, 8, 8], 53),
        Destination::ipv6(v6, 443),
        Destination::domain(b"example.com", 80).unwrap(),
    ];
    for d in all {
        let bytes = connect_request(&d);
        assert_eq!(&bytes[..3], &[0x05, 0x01, 0x00]);
        assert_eq!(&bytes[3..], &d.encode()[..]);
        assert_eq!(parse_request(&bytes), Request::Connect { dest: d.clone(), consumed: bytes.len() });
        let mut more = bytes.clone();
        more.extend_from_slice(b"GET / HTTP/1.1");
        assert_eq!(parse_request(&more), Request::Connect { dest: d.clone(), consumed: bytes.len() });
        for cut in 0..bytes.len() {
            assert_eq!(parse_request(&bytes[..cut]), Request::Incomplete);
        }
    }
}

#[test]
fn requests_are_refused_with_the_fitting_code() {
    assert_eq!(parse_request(&[0x04, 0x01, 0x00]), Request::Refused { code: REP_FAILURE });
    assert_eq!(
        parse_request(&[0x05, 0x02, 0x00, 0x01, 1, 2, 3, 4, 0, 80]),
        Request::Refused { code: REP_COMMAND_UNSUPPORTED }
    );
    assert_eq!(
        parse_request(&[0x05, 0x03, 0x00]),
        Request::Refused { code: REP_COMMAND_UNSUPPORTED }
    );
    assert_eq!(
        parse_request(&[0x05, 0x01, 0x00, 0x02, 1, 2, 3, 4, 0, 80]),
        Request::Refused { code: REP_ATYP_UNSUPPORTED }
    );
    assert_eq!(
        parse_request(&[0x05, 0x01, 0x00, 0x03, 0, 0, 80]),
        Request::Refused { code: REP_FAILURE }
    );
    assert_eq!(reply(REP_UNREACHABLE), vec![0x05, 0x04, 0x00, 0x01, 0, 0, 0, 0, 0, 0]);
    assert_eq!(reply(REP_COMMAND_UNSUPPORTED)[1], 0x07);
    assert_eq!(reply(REP_ATYP_UNSUPPORTED)[1], 0x08);
    assert_eq!(reply(REP_FAILURE)[1], 0x01);
}

#[test]
fn open_frame_of_a_parsed_request_is_byte_exact() {
    let d = match parse_request(&[0x05, 0x01, 0x00, 0x01, 192, 168, 1, 10, 0x1f, 0x90]) {
        Request::Connect { dest, .. } => dest,
        other => panic!("{:?}", other),
    };
    assert_eq!(d, Destination::ipv4([192, 168, 1, 10], 8080));
    let mut client = Session::new(Role::Client);
    let (id, bytes) = client.open_stream(d.clone()).unwrap();
    assert_eq!(id, 1);
    assert_eq!(bytes, vec![0x02, 0, 0, 0, 1, 0, 7, 0x01, 192, 168, 1, 10, 0x1f, 0x90]);
    assert_eq!(bytes, Frame::Open { stream: 1, dest: d }.encode().unwrap());
}

#[test]
fn cache_hits_until_the_entry_is_as_old_as_the_ttl() {
    let mut c = AddressCache::new(true, 30);
    let a = IpAddress::V4([93, 184, 216, 34]);
    assert_eq!(c.lookup(b"example.com", 100), None);
    c.store(b"example.com", a, 100);
    assert_eq!(c.len(), 1);
    assert_eq!(c.lookup(b"example.com", 100), Some(a));
    assert_eq!(c.lookup(b"example.com", 129), Some(a));
    assert_eq!(c.lookup(b"example.com", 130), None);
    assert_eq!(c.lookup(b"example.com", u64::MAX), None);
    assert_eq!(c.lookup(b"example.com", 99), None);
    assert_eq!(c.lookup(b"example.org", 100), None);
    assert_eq!(c.lookup(b"example.co", 100), None);
    assert_eq!(DEFAULT_TTL, 30);
}

#[test]
fn storing_again_replaces_the_address_and_the_time() {
    let mut c = AddressCache::new(true, 10);
    let old = IpAddress::V4([1, 1, 1, 1]);
    let new = IpAddress::V6([0x26, 0x06, 0x47, 0, 0x47, 0, 0, 0, 0, 0, 0, 0, 0, 0, 0x11, 0x11]);
    c.store(b"one.example", old, 0);
    c.store(b"two.example", old, 0);
    c.store(b"one.example", new, 8);
    assert_eq!(c.len(), 2);
    assert_eq!(c.lookup(b"one.example", 12), Some(new));
    assert_eq!(c.lookup(b"two.example", 9), Some(old));
    assert_eq!(c.lookup(b"two.example", 12), None);
    assert_eq!(c.lookup(b"one.example", 18), None);
}

#[test]
fn failed_lookup_is_not_cached() {
    let mut c = AddressCache::new(true, 30);
    let a = IpAddress::V4([10, 1, 2, 3]);
    assert_eq!(c.plan(&Host::Domain(b"db.internal".to_vec()), 5), Lookup::Needed);
    assert_eq!(c.complete(b"db.internal", None, 5), Err(ResolveError::NotFound));
    assert_eq!(c.len(), 0);
    assert_eq!(c.plan(&Host::Domain(b"db.internal".to_vec()), 6), Lookup::Needed);
    assert_eq!(c.complete(b"db.internal", Some(a), 6), Ok(a));
    assert_eq!(c.plan(&Host::Domain(b"db.internal".to_vec()), 7), Lookup::Known(a));
    assert_eq!(c.complete(b"db.internal", None, 8), Err(ResolveError::NotFound));
    assert_eq!(c.plan(&Host::Domain(b"db.internal".to_vec()), 9), Lookup::Known(a));
    assert_eq!(c.plan(&Host::Domain(b"db.internal".to_vec()), 36), Lookup::Needed);
}

#[test]
fn literal_addresses_need_no_lookup() {
    let c = AddressCache::new(false, 30);
    assert_eq!(c.plan(&Host::Ipv4([1, 2, 3, 4]), 0), Lookup::Known(IpAddress::V4([1, 2, 3, 4])));
    let v6 = [1u8; 16];
    assert_eq!(c.plan(&Host::Ipv6(v6), 0), Lookup::Known(IpAddress::V6(v6)));
}

#[test]
fn disabled_cache_remembers_nothing() {
    let mut c = AddressCache::new(false, 30);
    let a = IpAddress::V4([10, 1, 2, 3]);
    assert_eq!(c.complete(b"example.com", Some(a), 1), Ok(a));
    assert_eq!(c.len(), 0);
    assert_eq!(c.lookup(b"example.com", 1), None);
    assert_eq!(c.plan(&Host::Domain(b"example.com".to_vec()), 1), Lookup::Needed);
}

#[test]
fn zero_ttl_never_hits() {
    let mut c = AddressCache::new(true, 0);
    c.store(b"example.com", IpAddress::V4([1, 2, 3, 4]), 50);
    assert_eq!(c.lookup(b"example.com", 50), None);
}

#[test]
fn full_cache_starts_over_with_the_new_name() {
    let mut c = AddressCache::new(true, 1000);
    let a = IpAddress::V4([1, 2, 3, 4]);
    for i in 0..MAX_ENTRIES {
        let name = format!("host{}.example", i);
        c.store(name.as_bytes(), a, 1);
    }
    assert_eq!(c.len(), MAX_ENTRIES);
    c.store(b"host7.example", IpAddress::V4([7, 7, 7, 7]), 2);
    assert_eq!(c.len(), MAX_ENTRIES);
    assert_eq!(c.lookup(b"host7.example", 3), Some(IpAddress::V4([7, 7, 7, 7])));
    assert_eq!(c.lookup(b"host8.example", 3), Some(a));
    c.store(b"new.example", a, 3);
    assert_eq!(c.len(), 1);
    assert_eq!(c.lookup(b"new.example", 3), Some(a));
    assert_eq!(c.lookup(b"host8.example", 3), None);
}
