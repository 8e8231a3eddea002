//! The proxy request that a local connection starts with.
//!
//! The ingress speaks the connect part of SOCKS version 5: the local
//! program offers its authentication methods, is told that none is needed,
//! and then names the destination it wants to reach. The destination has
//! the same encoding as in a stream-open frame.

use vstd::prelude::*;
use vstd::slice::slice_subrange;
use crate::address::{
    law_destination_round_trip, spec_decode, spec_encode, AddressError, Destination,
    DestinationView,
};

verus! {

/// The protocol version that every message starts with.
pub const SOCKS_VERSION: u8 = 0x05;

/// The method "no authentication".
pub const METHOD_NONE: u8 = 0x00;

/// The answer "none of the offered methods is acceptable".
pub const METHOD_UNACCEPTABLE: u8 = 0xff;

/// The command "connect".
pub const CMD_CONNECT: u8 = 0x01;

/// Reply code: the request was granted.
pub const REP_OK: u8 = 0x00;

/// Reply code: general failure.
pub const REP_FAILURE: u8 = 0x01;

/// Reply code: the destination could not be reached.
pub const REP_UNREACHABLE: u8 = 0x04;

/// Reply code: the command is not supported.
pub const REP_COMMAND_UNSUPPORTED: u8 = 0x07;

/// Reply code: the address type is not supported.
pub const REP_ATYP_UNSUPPORTED: u8 = 0x08;

/// What the first bytes of a local connection hold.
#[derive(Debug, Clone, Copy, PartialEq, Eq, Structural)]
pub enum Greeting {
    /// Not yet a whole greeting: read on.
    Incomplete,
    /// A greeting of `consumed` bytes that offers "no authentication".
    Accepted { consumed: usize },
    /// A greeting of `consumed` bytes that does not offer it.
    NoMethod { consumed: usize },
    /// Not this protocol.
    NotSocks,
}

/// What the bytes after the greeting hold, as the contracts see it.
pub enum RequestView {
    /// Not yet a whole request: read on.
    Incomplete,
    /// A request to connect to `dest`, `consumed` bytes long.
    Connect { dest: DestinationView, consumed: nat },
    /// A request that is refused with reply code `code`.
    Refused { code: u8 },
}

/// What the bytes after the greeting hold.
#[derive(Debug, PartialEq, Eq)]
pub enum Request {
    /// Not yet a whole request: read on.
    Incomplete,
    /// A request to connect to `dest`, `consumed` bytes long.
    Connect { dest: Destination, consumed: usize },
    /// A request that is refused with reply code `code`.
    Refused { code: u8 },
}

impl View for Request {
    type V = RequestView;

    open spec fn view(&self) -> RequestView {
        match self {
            Request::Incomplete => RequestView::Incomplete,
            Request::Connect { dest, consumed } => RequestView::Connect {
                dest: dest@,
                consumed: *consumed as nat,
            },
            Request::Refused { code } => RequestView::Refused { code: *code },
        }
    }
}

/// What the start of `b` holds as a greeting: the version, a count, and
/// that many method bytes.
pub open spec fn spec_greeting(b: Seq<u8>) -> Greeting {
    if b.len() < 1 {
        Greeting::Incomplete
    } else if b[0] != SOCKS_VERSION {
        Greeting::NotSocks
    } else if b.len() < 2 || b.len() < 2 + b[1] {
        Greeting::Incomplete
    } else if b.subrange(2, 2 + b[1]).contains(METHOD_NONE) {
        Greeting::Accepted { consumed: (2 + b[1]) as usize }
    } else {
        Greeting::NoMethod { consumed: (2 + b[1]) as usize }
    }
}

/// The answer to a greeting: the chosen method, or none where there is no
/// whole greeting to answer.
pub open spec fn spec_greeting_reply(g: Greeting) -> Seq<u8> {
    match g {
        Greeting::Accepted { .. } => seq![SOCKS_VERSION, METHOD_NONE],
        Greeting::NoMethod { .. } => seq![SOCKS_VERSION, METHOD_UNACCEPTABLE],
        _ => Seq::<u8>::empty(),
    }
}

/// What the start of `b` holds as a request: the version, the command, a
/// reserved byte, and the destination.
pub open spec fn spec_request(b: Seq<u8>) -> RequestView {
    if b.len() < 1 {
        RequestView::Incomplete
    } else if b[0] != SOCKS_VERSION {
        RequestView::Refused { code: REP_FAILURE }
    } else if b.len() < 3 {
        RequestView::Incomplete
    } else if b[1] != CMD_CONNECT {
        RequestView::Refused { code: REP_COMMAND_UNSUPPORTED }
    } else {
        match spec_decode(b.skip(3)) {
            Ok((dest, n)) => RequestView::Connect { dest, consumed: 3 + n },
            Err(AddressError::Truncated) => RequestView::Incomplete,
            Err(AddressError::UnknownType) => RequestView::Refused { code: REP_ATYP_UNSUPPORTED },
            Err(_) => RequestView::Refused { code: REP_FAILURE },
        }
    }
}

/// The request to connect to `d`.
pub open spec fn spec_connect_request(d: DestinationView) -> Seq<u8> {
    seq![SOCKS_VERSION, CMD_CONNECT, 0u8] + spec_encode(d)
}

/// The reply with code `code`. The bound address in it is left zero.
pub open spec fn spec_reply(code: u8) -> Seq<u8> {
    seq![SOCKS_VERSION, code, 0u8, 0x01u8, 0u8, 0u8, 0u8, 0u8, 0u8, 0u8]
}

/// A request to connect is read as a request to connect to the same
/// destination, whatever follows it.
pub proof fn law_connect_request_round_trip(d: DestinationView, rest: Seq<u8>)
    requires
        d.wf(),
    ensures
        spec_request(spec_connect_request(d) + rest) == (RequestView::Connect {
            dest: d,
            consumed: spec_connect_request(d).len(),
        }),
{
    let b = spec_connect_request(d) + rest;
    assert(b.skip(3) =~= spec_encode(d) + rest);
    law_destination_round_trip(d, rest);
}

/// Reads the greeting at the start of `buf`.
pub fn parse_greeting(buf: &[u8]) -> (g: Greeting)
    ensures
        g == spec_greeting(buf@),
        g matches Greeting::Accepted { consumed } ==> consumed <= buf@.len(),
        g matches Greeting::NoMethod { consumed } ==> consumed <= buf@.len(),
{
    if buf.len() < 1 {
        return Greeting::Incomplete;
    }
    if buf[0] != SOCKS_VERSION {
        return Greeting::NotSocks;
    }
    if buf.len() < 2 {
        return Greeting::Incomplete;
    }
    let n: usize = buf[1] as usize;
    if buf.len() < 2 + n {
        return Greeting::Incomplete;
    }
    let ghost methods = buf@.subrange(2, 2 + n);
    let mut i: usize = 0;
    while i < n
        invariant
            i <= n <= 255,
            2 + n <= buf@.len(),
            buf@[0] == SOCKS_VERSION,
            buf@[1] == n,
            methods == buf@.subrange(2, 2 + n),
            forall|j: int| 0 <= j < i ==> methods[j] != METHOD_NONE,
        decreases n - i,
    {
        if buf[2 + i] == METHOD_NONE {
            assert(methods[i as int] == METHOD_NONE);
            assert(methods.contains(METHOD_NONE));
            return Greeting::Accepted { consumed: 2 + n };
        }
        i = i + 1;
    }
    assert(!methods.contains(METHOD_NONE));
    Greeting::NoMethod { consumed: 2 + n }
}

/// The bytes that answer a greeting.
pub fn greeting_reply(g: Greeting) -> (out: Vec<u8>)
    ensures
        out@ == spec_greeting_reply(g),
{
    let mut out: Vec<u8> = Vec::new();
    match g {
        Greeting::Accepted { .. } => {
            out.push(SOCKS_VERSION);
            out.push(METHOD_NONE);
        },
        Greeting::NoMethod { .. } => {
            out.push(SOCKS_VERSION);
            out.push(METHOD_UNACCEPTABLE);
        },
        _ => {},
    }
    assert(out@ =~= spec_greeting_reply(g));
    out
}

/// Reads the request at the start of `buf`.
pub fn parse_request(buf: &[u8]) -> (r: Request)
    ensures
        r@ == spec_request(buf@),
        r matches Request::Connect { consumed, .. } ==> consumed <= buf@.len(),
{
    if buf.len() < 1 {
        return Request::Incomplete;
    }
    if buf[0] != SOCKS_VERSION {
        return Request::Refused { code: REP_FAILURE };
    }
    if buf.len() < 3 {
        return Request::Incomplete;
    }
    if buf[1] != CMD_CONNECT {
        return Request::Refused { code: REP_COMMAND_UNSUPPORTED };
    }
    let tail: &[u8] = slice_subrange(buf, 3, buf.len());
    assert(tail@ =~= buf@.skip(3));
    match Destination::decode(tail) {
        Ok((dest, n)) => {
            assert(n <= tail@.len()) by {
                crate::address::lemma_decoded_within(tail@);
            }
            Request::Connect { dest, consumed: 3 + n }
        },
        Err(AddressError::Truncated) => Request::Incomplete,
        Err(AddressError::UnknownType) => Request::Refused { code: REP_ATYP_UNSUPPORTED },
        Err(_) => Request::Refused { code: REP_FAILURE },
    }
}

/// The request to connect to `dest`, as a local program sends it.
pub fn connect_request(dest: &Destination) -> (out: Vec<u8>)
    ensures
        out@ == spec_connect_request(dest@),
{
    let mut out: Vec<u8> = Vec::new();
    out.push(SOCKS_VERSION);
    out.push(CMD_CONNECT);
    out.push(0);
    dest.encode_into(&mut out);
    assert(out@ =~= spec_connect_request(dest@));
    out
}

/// The reply with code `code`.
pub fn reply(code: u8) -> (out: Vec<u8>)
    ensures
        out@ == spec_reply(code),
{
    let mut out: Vec<u8> = Vec::new();
    out.push(SOCKS_VERSION);
    out.push(code);
    out.push(0);
    out.push(0x01);
    out.push(0);
    out.push(0);
    out.push(0);
    out.push(0);
    out.push(0);
    out.push(0);
    assert(out@ =~= spec_reply(code));
    out
}

} // verus!
