use overtls::address::Destination;
use overtls::engine::{abort, connect_failed, first_usable, local_read, stream_readable, Step};
use overtls::frame::{parse_frame, CloseKind, Frame, FrameError, Parsed, MAX_PAYLOAD};
use overtls::session::{
    encode_data, Event, Poll, Received, Role, Session, SessionError, Violation, HIGH_WATER,
    MAX_STREAMS, QUEUE_LIMIT,
};

fn dest(n: u8) -> Destination {
    Destination::ipv4([10, 0, 0, n], 8000 + n as u16)
}

fn step(to_peer: &[u8], to_local: &[u8], local_eof: bool, stop_reading: bool, done: bool) -> Step {
    Step { to_peer: to_peer.to_vec(), to_local: to_local.to_vec(), local_eof, stop_reading, done }
}

fn pump(s: &mut Session) -> Vec<Poll> {
    let mut seen = Vec::new();
    loop {
        let p = s.poll();
        match p {
            Poll::Event(_) => seen.push(p),
            _ => {
                seen.push(p);
                return seen;
            }
        }
    }
}

fn pair_with_stream(d: Destination) -> (Session, Session, u32) {
    let mut client = Session::new(Role::Client);
    let mut server = Session::new(Role::Server);
    let (id, open) = client.open_stream(d).unwrap();
    server.feed(&open);
    assert_eq!(server.poll(), Poll::Event(Event::Opened(id)));
    let (got, _) = server.accept_stream().unwrap();
    assert_eq!(got, id);
    (client, server, id)
}

#[test]
fn accepted_destination_is_what_the_client_encoded() {
    let v6 = [0xfe, 0x80, 0, 0, 0, 0, 0, 0, 0, 0, 0, 0, 0, 0, 0, 9];
    let all = vec![
        Destination::ipv4([93, 184, 216, 34], 80),
        Destination::ipv6(v6, 443),
        Destination::domain(b"example.com", 8080).unwrap(),
    ];
    let mut client = Session::new(Role::Client);
    let mut server = Session::new(Role::Server);
    let mut ids = Vec::new();
    for d in &all {
        let (id, bytes) = client.open_stream(d.clone()).unwrap();
        assert_eq!(bytes, Frame::Open { stream: id, dest: d.clone() }.encode().unwrap());
        ids.push(id);
        server.feed(&bytes);
    }
    assert_eq!(ids, vec![1, 2, 3]);
    assert_eq!(
        pump(&mut server),
        vec![
            Poll::Event(Event::Opened(1)),
            Poll::Event(Event::Opened(2)),
            Poll::Event(Event::Opened(3)),
            Poll::NeedInput
        ]
    );
    for (i, d) in all.iter().enumerate() {
        assert_eq!(server.accept_stream(), Some((ids[i], d.clone())));
    }
    assert_eq!(server.accept_stream(), None);
    assert_eq!(server.stream_count(), 3);
}

#[test]
fn bytes_arrive_whole_and_in_order() {
    let (client, mut server, id) = pair_with_stream(dest(1));
    let mut sent = Vec::new();
    for i in 0..40000u32 {
        sent.push((i % 251) as u8);
    }
    let wire = client.send(id, &sent).unwrap();
    assert_eq!(wire.len(), sent.len() + 3 * 7);
    assert_eq!(wire, encode_data(id, &sent));
    for piece in wire.chunks(1000) {
        server.feed(piece);
        loop {
            match server.poll() {
                Poll::Event(Event::Data(got)) => assert_eq!(got, id),
                Poll::NeedInput => break,
                other => panic!("{:?}", other),
            }
        }
    }
    assert_eq!(server.receive(id), Received::Bytes(sent));
    assert_eq!(server.receive(id), Received::Pending);
}

#[test]
fn send_cuts_the_bytes_into_full_frames_and_a_rest() {
    let (client, _server, id) = pair_with_stream(dest(1));
    assert_eq!(client.send(id, &[]).unwrap(), Vec::<u8>::new());
    assert_eq!(client.send(id, &[7, 8]).unwrap(), vec![0x03, 0, 0, 0, 1, 0, 2, 7, 8]);
    let exact = vec![5u8; MAX_PAYLOAD];
    let one = client.send(id, &exact).unwrap();
    assert_eq!(parse_frame(&one), Parsed::Frame(Frame::Data { stream: id, payload: exact }, 7 + MAX_PAYLOAD));
    let over = vec![6u8; MAX_PAYLOAD + 1];
    let two = client.send(id, &over).unwrap();
    assert_eq!(two.len(), MAX_PAYLOAD + 1 + 14);
    assert_eq!(
        parse_frame(&two),
        Parsed::Frame(Frame::Data { stream: id, payload: vec![6u8; MAX_PAYLOAD] }, 7 + MAX_PAYLOAD)
    );
    assert_eq!(
        parse_frame(&two[7 + MAX_PAYLOAD..]),
        Parsed::Frame(Frame::Data { stream: id, payload: vec![6u8] }, 8)
    );
}

#[test]
fn interleaved_streams_never_mix() {
    let mut client = Session::new(Role::Client);
    let mut server = Session::new(Role::Server);
    let (a, open_a) = client.open_stream(dest(1)).unwrap();
    let (b, open_b) = client.open_stream(dest(2)).unwrap();
    server.feed(&open_a);
    server.feed(&open_b);
    pump(&mut server);
    assert_eq!(server.accept_stream().unwrap().0, a);
    assert_eq!(server.accept_stream().unwrap().0, b);
    let mut for_a = Vec::new();
    let mut for_b = Vec::new();
    for round in 0..50u8 {
        let pa = vec![round; 3];
        let pb = vec![round ^ 0xff; 5];
        if round % 3 == 0 {
            server.feed(&client.send(b, &pb).unwrap());
            server.feed(&client.send(a, &pa).unwrap());
        } else {
            server.feed(&client.send(a, &pa).unwrap());
            server.feed(&client.send(b, &pb).unwrap());
        }
        for_a.extend_from_slice(&pa);
        for_b.extend_from_slice(&pb);
    }
    assert_eq!(*pump(&mut server).last().unwrap(), Poll::NeedInput);
    assert_eq!(server.receive(a), Received::Bytes(for_a));
    assert_eq!(server.receive(b), Received::Bytes(for_b));
}

#[test]
fn teardown_closes_every_stream() {
    let mut client = Session::new(Role::Client);
    let mut ids = Vec::new();
    for n in 0..20u8 {
        ids.push(client.open_stream(dest(n)).unwrap().0);
    }
    client.on_frame(Frame::Data { stream: ids[3], payload: vec![1, 2, 3] }).unwrap();
    for id in &ids {
        assert!(!client.is_stream_closed(*id));
    }
    assert_eq!(client.receive(ids[0]), Received::Pending);
    client.teardown();
    assert!(client.is_closed());
    assert!(!client.wants_read());
    for id in &ids {
        assert!(client.is_stream_closed(*id));
        assert_eq!(client.send(*id, &[1]), Err(SessionError::Closed));
        assert_eq!(client.close_stream(*id, CloseKind::Both), Err(SessionError::Closed));
    }
    assert_eq!(client.receive(ids[3]), Received::Bytes(vec![1, 2, 3]));
    for id in &ids {
        assert_eq!(client.receive(*id), Received::Eof);
    }
    assert_eq!(client.stream_count(), 0);
    assert_eq!(client.open_stream(dest(1)), Err(SessionError::Closed));
    assert_eq!(client.poll(), Poll::Closed);
    client.feed(&[3, 0, 0, 0, 1, 0, 0]);
    assert_eq!(client.poll(), Poll::Closed);
    assert_eq!(client.on_frame(Frame::Data { stream: 1, payload: vec![] }), Ok(Event::Dropped));
    client.teardown();
    assert!(client.is_closed());
}

#[test]
fn teardown_of_a_server_leaves_nothing_to_accept() {
    let mut server = Session::new(Role::Server);
    server.on_frame(Frame::Open { stream: 4, dest: dest(4) }).unwrap();
    server.on_frame(Frame::Open { stream: 5, dest: dest(5) }).unwrap();
    assert_eq!(server.accept_stream(), Some((4, dest(4))));
    server.teardown();
    assert_eq!(server.accept_stream(), None);
    assert_eq!(server.receive(5), Received::Eof);
    assert_eq!(server.receive(4), Received::Eof);
}

#[test]
fn failed_connect_closes_only_that_stream() {
    let mut client = Session::new(Role::Client);
    let mut server = Session::new(Role::Server);
    let (first, open_first) = client.open_stream(dest(1)).unwrap();
    server.feed(&open_first);
    server.feed(&client.send(first, b"early data").unwrap());
    assert_eq!(server.poll(), Poll::Event(Event::Opened(first)));
    assert_eq!(server.accept_stream(), Some((first, dest(1))));
    let close = connect_failed(&mut server, first);
    assert_eq!(close, Frame::Close { stream: first, how: CloseKind::Both }.encode().unwrap());
    assert!(!server.is_closed());
    assert_eq!(server.poll(), Poll::Event(Event::Dropped));
    client.feed(&close);
    assert_eq!(client.poll(), Poll::Event(Event::Closed(first)));
    assert_eq!(client.receive(first), Received::Eof);
    assert_eq!(client.send(first, b"more"), Err(SessionError::WriteClosed));

    let (second, open_second) = client.open_stream(dest(2)).unwrap();
    assert_ne!(second, first);
    server.feed(&open_second);
    assert_eq!(server.poll(), Poll::Event(Event::Opened(second)));
    assert_eq!(server.accept_stream(), Some((second, dest(2))));
    server.feed(&client.send(second, b"hello").unwrap());
    assert_eq!(server.poll(), Poll::Event(Event::Data(second)));
    assert_eq!(server.receive(second), Received::Bytes(b"hello".to_vec()));

    let ack = client.close_stream(first, CloseKind::Both).unwrap();
    assert_eq!(ack, Frame::Close { stream: first, how: CloseKind::Both }.encode().unwrap());
    assert_eq!(client.stream_count(), 1);
    server.feed(&ack);
    assert_eq!(server.poll(), Poll::Event(Event::Closed(first)));
    assert_eq!(server.stream_count(), 1);
    assert!(!server.is_closed() && !client.is_closed());
}

#[test]
fn half_close_lets_the_other_direction_go_on() {
    let (mut client, mut server, id) = pair_with_stream(dest(1));
    server.feed(&client.send(id, b"request").unwrap());
    let fin = client.close_stream(id, CloseKind::Write).unwrap();
    assert_eq!(fin, vec![0x04, 0, 0, 0, 1, 0, 1, 2]);
    assert_eq!(client.send(id, b"x"), Err(SessionError::WriteClosed));
    assert_eq!(client.close_stream(id, CloseKind::Write).unwrap(), Vec::<u8>::new());
    server.feed(&fin);
    assert_eq!(
        pump(&mut server),
        vec![Poll::Event(Event::Data(id)), Poll::Event(Event::Closed(id)), Poll::NeedInput]
    );
    assert_eq!(server.receive(id), Received::Bytes(b"request".to_vec()));
    assert_eq!(server.receive(id), Received::Eof);
    assert!(!server.is_stream_closed(id));
    client.feed(&server.send(id, b"response").unwrap());
    assert_eq!(client.poll(), Poll::Event(Event::Data(id)));
    assert_eq!(client.receive(id), Received::Bytes(b"response".to_vec()));
    let rest = server.close_stream(id, CloseKind::Both).unwrap();
    assert_eq!(rest, vec![0x04, 0, 0, 0, 1, 0, 1, 3]);
    assert!(server.is_stream_closed(id));
    assert_eq!(server.stream_count(), 1);
    client.feed(&rest);
    assert_eq!(client.poll(), Poll::Event(Event::Closed(id)));
    assert_eq!(client.receive(id), Received::Eof);
    let last = client.close_stream(id, CloseKind::Both).unwrap();
    assert_eq!(last, vec![0x04, 0, 0, 0, 1, 0, 1, 1]);
    assert_eq!(client.stream_count(), 0);
    server.feed(&last);
    assert_eq!(server.poll(), Poll::Event(Event::Closed(id)));
    assert_eq!(server.stream_count(), 0);
    assert_eq!(client.close_stream(id, CloseKind::Both), Err(SessionError::UnknownStream));
}

#[test]
fn closing_the_reading_discards_what_is_queued() {
    let (mut client, mut server, id) = pair_with_stream(dest(1));
    server.feed(&client.send(id, b"unwanted").unwrap());
    assert_eq!(server.poll(), Poll::Event(Event::Data(id)));
    assert_eq!(server.close_stream(id, CloseKind::Read).unwrap(), vec![0x04, 0, 0, 0, 1, 0, 1, 1]);
    assert_eq!(server.receive(id), Received::Eof);
    server.feed(&client.send(id, b"in flight").unwrap());
    assert_eq!(server.poll(), Poll::Event(Event::Dropped));
    assert_eq!(server.receive(id), Received::Eof);
    assert!(!server.is_closed());
}

#[test]
fn each_violation_tears_the_session_down() {
    let cases: Vec<(Role, Vec<Frame>, Frame, Violation)> = vec![
        (
            Role::Server,
            vec![],
            Frame::Handshake { version: 1, method: 1, credential: vec![] },
            Violation::UnexpectedHandshake,
        ),
        (Role::Client, vec![], Frame::Open { stream: 1, dest: dest(1) }, Violation::UnexpectedOpen),
        (
            Role::Server,
            vec![Frame::Open { stream: 1, dest: dest(1) }],
            Frame::Open { stream: 1, dest: dest(2) },
            Violation::DuplicateStream,
        ),
        (Role::Server, vec![], Frame::Data { stream: 1, payload: vec![1] }, Violation::UnknownStream),
        (
            Role::Server,
            vec![],
            Frame::Close { stream: 1, how: CloseKind::Both },
            Violation::UnknownStream,
        ),
        (
            Role::Server,
            vec![
                Frame::Open { stream: 1, dest: dest(1) },
                Frame::Close { stream: 1, how: CloseKind::Write },
            ],
            Frame::Data { stream: 1, payload: vec![1] },
            Violation::DataAfterClose,
        ),
    ];
    for (role, before, frame, expected) in cases {
        let mut s = Session::new(role);
        for f in before {
            assert!(s.on_frame(f).is_ok());
        }
        assert!(!s.is_closed());
        assert_eq!(s.on_frame(frame), Err(expected));
        assert!(s.is_closed());
    }
}

#[test]
fn too_many_streams_is_a_violation() {
    let mut server = Session::new(Role::Server);
    for id in 0..MAX_STREAMS as u32 {
        assert_eq!(server.on_frame(Frame::Open { stream: id, dest: dest(1) }), Ok(Event::Opened(id)));
    }
    assert_eq!(server.stream_count(), MAX_STREAMS);
    assert_eq!(
        server.on_frame(Frame::Open { stream: 5000, dest: dest(1) }),
        Err(Violation::TooManyStreams)
    );
    assert!(server.is_closed());
}

#[test]
fn queue_overflow_is_a_violation_when_frames_bypass_poll() {
    let mut server = Session::new(Role::Server);
    server.on_frame(Frame::Open { stream: 1, dest: dest(1) }).unwrap();
    for _ in 0..5 {
        assert_eq!(
            server.on_frame(Frame::Data { stream: 1, payload: vec![0; MAX_PAYLOAD] }),
            Ok(Event::Data(1))
        );
    }
    assert_eq!(QUEUE_LIMIT, 5 * MAX_PAYLOAD);
    assert_eq!(
        server.on_frame(Frame::Data { stream: 1, payload: vec![0; 1] }),
        Err(Violation::QueueOverflow)
    );
    assert!(server.is_closed());
}

#[test]
fn framing_errors_tear_the_session_down() {
    let mut s = Session::new(Role::Server);
    s.feed(&[0x09, 0, 0, 0, 0, 0, 0]);
    assert_eq!(s.poll(), Poll::Violation(Violation::Framing(FrameError::UnknownType)));
    assert!(s.is_closed());
    let mut t = Session::new(Role::Server);
    t.feed(&[0x03, 0, 0, 0, 1, 0x40, 0x01]);
    assert_eq!(t.poll(), Poll::Violation(Violation::Framing(FrameError::TooLong)));
    assert!(t.is_closed());
    let mut u = Session::new(Role::Client);
    u.feed(&[0x03, 0, 0, 0, 1, 0, 1, 9]);
    assert_eq!(u.poll(), Poll::Violation(Violation::UnknownStream));
    assert_eq!(u.poll(), Poll::Closed);
}

#[test]
fn a_slow_reader_pauses_the_session_and_loses_nothing() {
    let (client, mut server, id) = pair_with_stream(dest(1));
    let mut sent = Vec::new();
    for i in 0..200_000u32 {
        sent.push((i % 253) as u8);
    }
    server.feed(&client.send(id, &sent).unwrap());
    let mut got = Vec::new();
    let mut pauses = 0;
    loop {
        match server.poll() {
            Poll::Event(Event::Data(_)) => {}
            Poll::Paused => {
                pauses += 1;
                assert!(!server.wants_read());
                match server.receive(id) {
                    Received::Bytes(b) => {
                        assert!(b.len() > HIGH_WATER && b.len() <= QUEUE_LIMIT);
                        got.extend_from_slice(&b);
                    }
                    other => panic!("{:?}", other),
                }
                assert!(server.wants_read());
            }
            Poll::NeedInput => break,
            other => panic!("{:?}", other),
        }
    }
    if let Received::Bytes(b) = server.receive(id) {
        got.extend_from_slice(&b);
    }
    assert!(pauses >= 2);
    assert_eq!(got, sent);
}

#[test]
fn local_requests_report_each_error() {
    let mut server = Session::new(Role::Server);
    assert_eq!(server.open_stream(dest(1)), Err(SessionError::WrongRole));
    assert!(!server.is_usable());
    assert_eq!(server.role(), Role::Server);
    server.on_frame(Frame::Open { stream: 8, dest: dest(1) }).unwrap();
    assert_eq!(server.send(8, b"x"), Err(SessionError::UnknownStream));
    assert_eq!(server.close_stream(8, CloseKind::Both), Err(SessionError::UnknownStream));
    assert_eq!(server.receive(8), Received::Eof);
    assert_eq!(server.send(9, b"x"), Err(SessionError::UnknownStream));

    let mut client = Session::new(Role::Client);
    assert!(client.is_usable());
    assert_eq!(client.role(), Role::Client);
    let (id, _) = client.open_stream(dest(1)).unwrap();
    client.on_frame(Frame::Close { stream: id, how: CloseKind::Read }).unwrap();
    assert_eq!(client.send(id, b"x"), Err(SessionError::WriteClosed));
    assert_eq!(client.receive(id), Received::Pending);
    for n in 1..MAX_STREAMS {
        assert!(client.open_stream(dest((n % 200) as u8)).is_ok());
    }
    assert!(!client.is_usable());
    assert_eq!(client.open_stream(dest(1)), Err(SessionError::Exhausted));
    client.teardown();
    assert_eq!(client.open_stream(dest(1)), Err(SessionError::Closed));
    assert_eq!(client.send(id, b"x"), Err(SessionError::Closed));
}

#[test]
fn first_usable_session_is_reused() {
    assert_eq!(first_usable(&[]), None);
    assert_eq!(first_usable(&[false, false]), None);
    assert_eq!(first_usable(&[false, true, true]), Some(1));
    assert_eq!(first_usable(&[true]), Some(0));
}

#[test]
fn relay_steps_say_what_to_write_where() {
    let (mut client, mut server, id) = pair_with_stream(dest(1));
    let sent = local_read(&mut client, id, b"ping");
    assert_eq!(sent, step(&[0x03, 0, 0, 0, 1, 0, 4, b'p', b'i', b'n', b'g'], b"", false, false, false));
    server.feed(&sent.to_peer);
    assert_eq!(server.poll(), Poll::Event(Event::Data(id)));
    assert_eq!(stream_readable(&mut server, id), step(&[], b"ping", false, false, false));
    assert_eq!(stream_readable(&mut server, id), step(&[], b"", false, false, false));
    let eof = local_read(&mut client, id, &[]);
    assert_eq!(eof, step(&[0x04, 0, 0, 0, 1, 0, 1, 2], b"", false, true, false));
    server.feed(&eof.to_peer);
    assert_eq!(server.poll(), Poll::Event(Event::Closed(id)));
    assert_eq!(stream_readable(&mut server, id), step(&[], b"", true, false, false));
    let refused = local_read(&mut client, id, b"late");
    assert_eq!(refused, step(&[], b"", false, true, false));
    let stop = abort(&mut server, id);
    assert_eq!(stop, step(&[0x04, 0, 0, 0, 1, 0, 1, 3], b"", false, true, true));
    client.feed(&stop.to_peer);
    assert_eq!(client.poll(), Poll::Event(Event::Closed(id)));
    assert_eq!(client.stream_count(), 1);
    let end = stream_readable(&mut client, id);
    assert_eq!(end, step(&[0x04, 0, 0, 0, 1, 0, 1, 1], b"", true, false, true));
    assert_eq!(client.stream_count(), 0);
    assert_eq!(abort(&mut client, id), step(&[], b"", false, true, true));
    assert_eq!(local_read(&mut client, id, b"x"), step(&[], b"", false, true, true));
    assert_eq!(stream_readable(&mut client, id), step(&[], b"", true, false, true));
}

#[test]
fn relay_ends_when_the_session_is_torn_down() {
    let (_client, mut server, id) = pair_with_stream(dest(1));
    server.on_frame(Frame::Data { stream: id, payload: vec![1, 2] }).unwrap();
    server.teardown();
    assert_eq!(stream_readable(&mut server, id), step(&[], &[1, 2], false, false, false));
    assert_eq!(stream_readable(&mut server, id), step(&[], b"", true, false, true));
    assert_eq!(local_read(&mut server, id, b"x"), step(&[], b"", false, true, true));
}

#[test]
fn queued_bytes_are_written_after_a_teardown_whatever_the_socket_does() {
    for local in [&b"more"[..], &b""[..]] {
        let (_client, mut server, id) = pair_with_stream(dest(1));
        server.on_frame(Frame::Data { stream: id, payload: vec![7, 8, 9] }).unwrap();
        server.teardown();
        assert_eq!(local_read(&mut server, id, local), step(&[], b"", false, true, false));
        assert_eq!(local_read(&mut server, id, local), step(&[], b"", false, true, false));
        assert_eq!(server.stream_count(), 1);
        assert_eq!(stream_readable(&mut server, id), step(&[], &[7, 8, 9], false, false, false));
        assert_eq!(stream_readable(&mut server, id), step(&[], b"", true, false, true));
        assert_eq!(server.stream_count(), 0);
        assert_eq!(local_read(&mut server, id, local), step(&[], b"", false, true, true));
    }
}

#[test]
fn queued_bytes_are_written_when_the_socket_ends_after_the_peer() {
    for role in [Role::Client, Role::Server] {
        let (mut client, mut server, id) = pair_with_stream(dest(1));
        let (near, far) = if role == Role::Server {
            (&mut server, &mut client)
        } else {
            (&mut client, &mut server)
        };
        near.feed(&far.send(id, b"tail").unwrap());
        near.feed(&far.close_stream(id, CloseKind::Write).unwrap());
        assert_eq!(
            pump(near),
            vec![Poll::Event(Event::Data(id)), Poll::Event(Event::Closed(id)), Poll::NeedInput]
        );
        let eof = local_read(near, id, &[]);
        assert_eq!(eof, step(&[0x04, 0, 0, 0, 1, 0, 1, 2], b"", false, true, false));
        assert!(near.has_queued(id));
        assert_eq!(stream_readable(near, id), step(&[], b"tail", false, false, false));
        assert!(!near.has_queued(id));
        let end = stream_readable(near, id);
        assert_eq!(end, step(&[0x04, 0, 0, 0, 1, 0, 1, 1], b"", true, false, true));
        far.feed(&eof.to_peer);
        far.feed(&end.to_peer);
        pump(far);
        assert_eq!(stream_readable(far, id), step(&[0x04, 0, 0, 0, 1, 0, 1, 1], b"", true, false, true));
        near.feed(&[0x04, 0, 0, 0, 1, 0, 1, 1]);
        assert_eq!(near.poll(), Poll::Event(Event::Closed(id)));
        assert_eq!(near.stream_count(), 0);
        assert_eq!(far.stream_count(), 0);
    }
}

#[test]
fn a_refused_send_keeps_what_is_queued() {
    let (mut client, mut server, id) = pair_with_stream(dest(1));
    server.feed(&client.send(id, b"answer me").unwrap());
    server.feed(&client.close_stream(id, CloseKind::Both).unwrap());
    pump(&mut server);
    let refused = local_read(&mut server, id, b"too late");
    assert_eq!(refused, step(&[0x04, 0, 0, 0, 1, 0, 1, 2], b"", false, true, false));
    assert_eq!(stream_readable(&mut server, id), step(&[], b"answer me", false, false, false));
    assert_eq!(stream_readable(&mut server, id), step(&[0x04, 0, 0, 0, 1, 0, 1, 1], b"", true, false, true));
    assert_eq!(server.stream_count(), 0);
}

#[test]
fn a_relay_that_ends_in_the_ordinary_way_leaves_both_tables() {
    let (mut client, mut server, id) = pair_with_stream(dest(1));
    let client_eof = local_read(&mut client, id, &[]);
    assert_eq!(client_eof, step(&[0x04, 0, 0, 0, 1, 0, 1, 2], b"", false, true, false));
    server.feed(&client_eof.to_peer);
    assert_eq!(server.poll(), Poll::Event(Event::Closed(id)));
    assert_eq!(stream_readable(&mut server, id), step(&[], b"", true, false, false));
    let server_eof = local_read(&mut server, id, &[]);
    assert_eq!(
        server_eof,
        step(&[0x04, 0, 0, 0, 1, 0, 1, 2, 0x04, 0, 0, 0, 1, 0, 1, 1], b"", false, true, true)
    );
    assert_eq!(server.stream_count(), 1);
    client.feed(&server_eof.to_peer);
    assert_eq!(
        pump(&mut client),
        vec![Poll::Event(Event::Closed(id)), Poll::Event(Event::Closed(id)), Poll::NeedInput]
    );
    let client_end = stream_readable(&mut client, id);
    assert_eq!(client_end, step(&[0x04, 0, 0, 0, 1, 0, 1, 1], b"", true, false, true));
    assert_eq!(client.stream_count(), 0);
    server.feed(&client_end.to_peer);
    assert_eq!(server.poll(), Poll::Event(Event::Closed(id)));
    assert_eq!(server.stream_count(), 0);
    assert!(!client.is_closed() && !server.is_closed());
    assert!(client.is_usable());
}

#[test]
fn a_session_stays_usable_over_many_streams() {
    let mut client = Session::new(Role::Client);
    let mut server = Session::new(Role::Server);
    for round in 0..(2 * MAX_STREAMS) {
        let (id, open) = client.open_stream(dest((round % 250) as u8)).unwrap();
        server.feed(&open);
        assert_eq!(server.poll(), Poll::Event(Event::Opened(id)));
        assert_eq!(server.accept_stream().unwrap().0, id);
        server.feed(&local_read(&mut client, id, b"hi").to_peer);
        assert_eq!(server.poll(), Poll::Event(Event::Data(id)));
        assert_eq!(stream_readable(&mut server, id).to_local, b"hi".to_vec());
        server.feed(&local_read(&mut client, id, &[]).to_peer);
        assert_eq!(server.poll(), Poll::Event(Event::Closed(id)));
        assert!(stream_readable(&mut server, id).local_eof);
        let end = local_read(&mut server, id, &[]);
        assert!(end.done);
        client.feed(&end.to_peer);
        pump(&mut client);
        let last = stream_readable(&mut client, id);
        assert!(last.done && last.local_eof);
        server.feed(&last.to_peer);
        assert_eq!(server.poll(), Poll::Event(Event::Closed(id)));
        assert_eq!(client.stream_count(), 0);
        assert_eq!(server.stream_count(), 0);
    }
    assert!(client.is_usable());
}

#[test]
fn reads_between_frames_hand_out_every_byte_once() {
    let (client, mut server, id) = pair_with_stream(dest(1));
    let other = {
        server.on_frame(Frame::Open { stream: 77, dest: dest(2) }).unwrap();
        server.accept_stream().unwrap().0
    };
    let mut sent = Vec::new();
    let mut got = Vec::new();
    for round in 0..40u32 {
        let chunk: Vec<u8> = (0..(round * 997 % 5000)).map(|i| (i + round) as u8).collect();
        sent.extend_from_slice(&chunk);
        server.feed(&client.send(id, &chunk).unwrap());
        server.on_frame(Frame::Data { stream: other, payload: vec![0xee; 10] }).unwrap();
        while let Poll::Event(_) = server.poll() {}
        if round % 3 == 0 {
            if let Received::Bytes(b) = server.receive(id) {
                got.extend_from_slice(&b);
            }
        }
        if round == 20 {
            server.on_frame(Frame::Close { stream: id, how: CloseKind::Read }).unwrap();
        }
        if round % 7 == 0 {
            assert!(matches!(server.receive(other), Received::Bytes(_)));
        }
    }
    if let Received::Bytes(b) = server.receive(id) {
        got.extend_from_slice(&b);
    }
    assert_eq!(got, sent);
    assert_eq!(server.receive(id), Received::Pending);
}
