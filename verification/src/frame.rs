//! Frames: the units exchanged inside the TLS byte stream.
//!
//! Every frame starts with the same seven bytes: a type tag, the stream id
//! as four bytes and the payload length as two, both in network byte order.
//! The payload follows. A handshake frame carries the protocol version, the
//! authentication method and the credential; a stream-open frame carries the
//! destination; a data frame carries bytes of the stream; a stream-close
//! frame carries one byte that says which directions end.

use vstd::prelude::*;
use vstd::slice::slice_subrange;
use crate::address::{
    law_destination_round_trip, lemma_encoded_len, spec_decode, spec_encode, Destination,
    DestinationView,
};
use crate::wire::{
    append_slice, be16, be32, copy_range, from_be16, from_be32, lemma_be16_round_trip,
    lemma_be32_round_trip, push_be16, push_be32, read_be16, read_be32,
};

verus! {

/// The version of the wire protocol that this library speaks.
pub const PROTOCOL_VERSION: u8 = 1;

/// Tag of a handshake frame.
pub const TAG_HANDSHAKE: u8 = 0x01;

/// Tag of a stream-open frame.
pub const TAG_OPEN: u8 = 0x02;

/// Tag of a data frame.
pub const TAG_DATA: u8 = 0x03;

/// Tag of a stream-close frame.
pub const TAG_CLOSE: u8 = 0x04;

/// Length of the header that every frame starts with.
pub const HEADER_LEN: usize = 7;

/// The longest payload that a frame may carry.
pub const MAX_PAYLOAD: usize = 16384;

/// Payload byte of a stream-close frame that ends the sender's reading.
pub const CLOSE_READ: u8 = 0x01;

/// Payload byte of a stream-close frame that ends the sender's writing.
pub const CLOSE_WRITE: u8 = 0x02;

/// Payload byte of a stream-close frame that ends both directions.
pub const CLOSE_BOTH: u8 = 0x03;

/// Which directions of a stream its sender ends.
#[derive(Debug, Clone, Copy, PartialEq, Eq, Structural)]
pub enum CloseKind {
    /// The sender reads no more: the receiver must stop sending data.
    Read,
    /// The sender writes no more: the receiver will see end of stream.
    Write,
    /// Both of the above.
    Both,
}

impl CloseKind {
    /// Whether this kind ends the sender's reading.
    pub open spec fn ends_read(self) -> bool {
        self != CloseKind::Write
    }

    /// Whether this kind ends the sender's writing.
    pub open spec fn ends_write(self) -> bool {
        self != CloseKind::Read
    }

    /// The payload byte that stands for this kind.
    pub open spec fn spec_code(self) -> u8 {
        match self {
            CloseKind::Read => CLOSE_READ,
            CloseKind::Write => CLOSE_WRITE,
            CloseKind::Both => CLOSE_BOTH,
        }
    }

    /// Whether this kind ends the sender's reading.
    pub fn is_read(self) -> (b: bool)
        ensures
            b == self.ends_read(),
    {
        match self {
            CloseKind::Write => false,
            _ => true,
        }
    }

    /// Whether this kind ends the sender's writing.
    pub fn is_write(self) -> (b: bool)
        ensures
            b == self.ends_write(),
    {
        match self {
            CloseKind::Read => false,
            _ => true,
        }
    }

    /// The payload byte that stands for this kind.
    pub fn code(self) -> (c: u8)
        ensures
            c == self.spec_code(),
    {
        match self {
            CloseKind::Read => CLOSE_READ,
            CloseKind::Write => CLOSE_WRITE,
            CloseKind::Both => CLOSE_BOTH,
        }
    }

    /// The kind that a payload byte stands for, if any.
    pub fn from_code(c: u8) -> (k: Option<CloseKind>)
        ensures
            match k {
                Some(kind) => kind.spec_code() == c,
                None => c != CLOSE_READ && c != CLOSE_WRITE && c != CLOSE_BOTH,
            },
    {
        if c == CLOSE_READ {
            Some(CloseKind::Read)
        } else if c == CLOSE_WRITE {
            Some(CloseKind::Write)
        } else if c == CLOSE_BOTH {
            Some(CloseKind::Both)
        } else {
            None
        }
    }
}

/// Why bytes are not a frame, or a frame cannot be written.
#[derive(Debug, Clone, Copy, PartialEq, Eq, Structural)]
pub enum FrameError {
    /// The tag is none of the four known ones.
    UnknownType,
    /// The payload is longer than `MAX_PAYLOAD`.
    TooLong,
    /// A handshake frame with a stream id, or without version and method.
    BadHandshake,
    /// A stream-open frame whose payload is not exactly one address.
    BadAddress,
    /// A stream-close frame whose payload is not one known byte.
    BadClose,
}

/// One unit of the wire protocol.
#[derive(Debug, Clone, PartialEq, Eq)]
pub enum Frame {
    Handshake { version: u8, method: u8, credential: Vec<u8> },
    Open { stream: u32, dest: Destination },
    Data { stream: u32, payload: Vec<u8> },
    Close { stream: u32, how: CloseKind },
}

/// A frame as the contracts see it.
pub enum FrameView {
    Handshake { version: u8, method: u8, credential: Seq<u8> },
    Open { stream: u32, dest: DestinationView },
    Data { stream: u32, payload: Seq<u8> },
    Close { stream: u32, how: CloseKind },
}

impl View for Frame {
    type V = FrameView;

    open spec fn view(&self) -> FrameView {
        match self {
            Frame::Handshake { version, method, credential } => FrameView::Handshake {
                version: *version,
                method: *method,
                credential: credential@,
            },
            Frame::Open { stream, dest } => FrameView::Open { stream: *stream, dest: dest@ },
            Frame::Data { stream, payload } => FrameView::Data {
                stream: *stream,
                payload: payload@,
            },
            Frame::Close { stream, how } => FrameView::Close { stream: *stream, how: *how },
        }
    }
}

impl FrameView {
    /// The frame can be written: its payload fits, its address is valid.
    pub open spec fn wf(self) -> bool {
        match self {
            FrameView::Handshake { credential, .. } => credential.len() + 2 <= MAX_PAYLOAD,
            FrameView::Open { dest, .. } => dest.wf(),
            FrameView::Data { payload, .. } => payload.len() <= MAX_PAYLOAD,
            FrameView::Close { .. } => true,
        }
    }

    /// The tag in the header.
    pub open spec fn tag(self) -> u8 {
        match self {
            FrameView::Handshake { .. } => TAG_HANDSHAKE,
            FrameView::Open { .. } => TAG_OPEN,
            FrameView::Data { .. } => TAG_DATA,
            FrameView::Close { .. } => TAG_CLOSE,
        }
    }

    /// The stream id in the header; a handshake belongs to no stream.
    pub open spec fn stream(self) -> u32 {
        match self {
            FrameView::Handshake { .. } => 0,
            FrameView::Open { stream, .. } => stream,
            FrameView::Data { stream, .. } => stream,
            FrameView::Close { stream, .. } => stream,
        }
    }

    /// The bytes after the header.
    pub open spec fn payload(self) -> Seq<u8> {
        match self {
            FrameView::Handshake { version, method, credential } => seq![version, method]
                + credential,
            FrameView::Open { dest, .. } => spec_encode(dest),
            FrameView::Data { payload, .. } => payload,
            FrameView::Close { how, .. } => seq![how.spec_code()],
        }
    }
}

/// The header of a frame with this tag, stream id and payload length.
pub open spec fn spec_header(tag: u8, stream: u32, len: u16) -> Seq<u8> {
    seq![tag] + be32(stream) + be16(len)
}

/// The bytes that stand for `f` on the wire.
pub open spec fn spec_encode_frame(f: FrameView) -> Seq<u8> {
    spec_header(f.tag(), f.stream(), f.payload().len() as u16) + f.payload()
}

/// What the start of a byte string holds.
pub enum ParseView {
    /// Not yet a whole frame: more bytes are needed.
    Incomplete,
    /// A frame, and the number of bytes it took.
    Frame(FrameView, nat),
    /// Bytes that no frame starts with.
    Invalid(FrameError),
}

/// The frame that a payload of the given tag and stream id stands for.
pub open spec fn spec_parse_payload(tag: u8, stream: u32, p: Seq<u8>) -> Result<
    FrameView,
    FrameError,
> {
    if tag == TAG_HANDSHAKE {
        if stream != 0 || p.len() < 2 {
            Err(FrameError::BadHandshake)
        } else {
            Ok(
                FrameView::Handshake {
                    version: p[0],
                    method: p[1],
                    credential: p.subrange(2, p.len() as int),
                },
            )
        }
    } else if tag == TAG_OPEN {
        match spec_decode(p) {
            Ok((dest, n)) => if n == p.len() {
                Ok(FrameView::Open { stream, dest })
            } else {
                Err(FrameError::BadAddress)
            },
            Err(_) => Err(FrameError::BadAddress),
        }
    } else if tag == TAG_DATA {
        Ok(FrameView::Data { stream, payload: p })
    } else if tag == TAG_CLOSE {
        if p.len() != 1 {
            Err(FrameError::BadClose)
        } else if p[0] == CLOSE_READ {
            Ok(FrameView::Close { stream, how: CloseKind::Read })
        } else if p[0] == CLOSE_WRITE {
            Ok(FrameView::Close { stream, how: CloseKind::Write })
        } else if p[0] == CLOSE_BOTH {
            Ok(FrameView::Close { stream, how: CloseKind::Both })
        } else {
            Err(FrameError::BadClose)
        }
    } else {
        Err(FrameError::UnknownType)
    }
}

/// What the start of `b` holds. The tag and the length are judged as soon
/// as the header is there, before the payload has arrived.
pub open spec fn spec_parse(b: Seq<u8>) -> ParseView {
    if b.len() < HEADER_LEN {
        ParseView::Incomplete
    } else {
        let tag = b[0];
        let stream = from_be32(b[1], b[2], b[3], b[4]);
        let len = from_be16(b[5], b[6]);
        if tag != TAG_HANDSHAKE && tag != TAG_OPEN && tag != TAG_DATA && tag != TAG_CLOSE {
            ParseView::Invalid(FrameError::UnknownType)
        } else if len > MAX_PAYLOAD {
            ParseView::Invalid(FrameError::TooLong)
        } else if b.len() < HEADER_LEN + len {
            ParseView::Incomplete
        } else {
            match spec_parse_payload(tag, stream, b.subrange(HEADER_LEN as int, HEADER_LEN + len)) {
                Ok(f) => ParseView::Frame(f, (HEADER_LEN + len) as nat),
                Err(e) => ParseView::Invalid(e),
            }
        }
    }
}

/// The length of a well-formed frame's encoding: header and payload, the
/// payload at most `MAX_PAYLOAD` bytes.
pub proof fn lemma_frame_len(f: FrameView)
    requires
        f.wf(),
    ensures
        f.payload().len() <= MAX_PAYLOAD,
        spec_encode_frame(f).len() == HEADER_LEN + f.payload().len(),
{
    if let FrameView::Open { dest, .. } = f {
        lemma_encoded_len(dest);
    }
    assert(be32(f.stream()).len() == 4);
    assert(be16(f.payload().len() as u16).len() == 2);
}

/// Parsing what was encoded gives the frame back, whatever follows it, and
/// says how many bytes the encoding took.
pub proof fn law_frame_round_trip(f: FrameView, rest: Seq<u8>)
    requires
        f.wf(),
    ensures
        spec_parse(spec_encode_frame(f) + rest) == ParseView::Frame(
            f,
            spec_encode_frame(f).len(),
        ),
{
    lemma_frame_len(f);
    let p = f.payload();
    let len = p.len() as u16;
    let b = spec_encode_frame(f) + rest;
    lemma_be32_round_trip(f.stream());
    lemma_be16_round_trip(len);
    assert(b[0] == f.tag());
    assert(b[1] == be32(f.stream())[0]);
    assert(b[2] == be32(f.stream())[1]);
    assert(b[3] == be32(f.stream())[2]);
    assert(b[4] == be32(f.stream())[3]);
    assert(b[5] == be16(len)[0]);
    assert(b[6] == be16(len)[1]);
    assert(b.subrange(HEADER_LEN as int, HEADER_LEN + len) =~= p);
    match f {
        FrameView::Handshake { version, method, credential } => {
            assert(p.subrange(2, p.len() as int) =~= credential);
        },
        FrameView::Open { stream, dest } => {
            law_destination_round_trip(dest, Seq::<u8>::empty());
            assert(spec_encode(dest) + Seq::<u8>::empty() =~= spec_encode(dest));
        },
        FrameView::Data { .. } => {},
        FrameView::Close { .. } => {},
    }
}

/// A frame that has arrived only in part is never mistaken for anything:
/// the parser asks for more bytes.
pub proof fn law_partial_frame_is_incomplete(f: FrameView, n: int)
    requires
        f.wf(),
        0 <= n < spec_encode_frame(f).len(),
    ensures
        spec_parse(spec_encode_frame(f).subrange(0, n)) == ParseView::Incomplete,
{
    lemma_frame_len(f);
    let p = f.payload();
    let len = p.len() as u16;
    let e = spec_encode_frame(f);
    let b = e.subrange(0, n);
    lemma_be16_round_trip(len);
    if n >= HEADER_LEN {
        assert(b[0] == f.tag());
        assert(b[5] == be16(len)[0]);
        assert(b[6] == be16(len)[1]);
    }
}

/// What `parse_frame` found at the start of its input.
#[derive(Debug, Clone, PartialEq, Eq)]
pub enum Parsed {
    /// Not yet a whole frame: more bytes are needed.
    Incomplete,
    /// A frame, and the number of bytes it took.
    Frame(Frame, usize),
    /// Bytes that no frame starts with.
    Invalid(FrameError),
}

impl View for Parsed {
    type V = ParseView;

    open spec fn view(&self) -> ParseView {
        match self {
            Parsed::Incomplete => ParseView::Incomplete,
            Parsed::Frame(f, n) => ParseView::Frame(f@, *n as nat),
            Parsed::Invalid(e) => ParseView::Invalid(*e),
        }
    }
}

impl Frame {
    /// Appends the encoding of this frame to `out`, unless its payload is
    /// longer than a frame can carry; `out` is then left as it was.
    pub fn encode_into(&self, out: &mut Vec<u8>) -> (r: Result<(), FrameError>)
        ensures
            match r {
                Ok(()) => self@.wf() && final(out)@ == old(out)@ + spec_encode_frame(self@),
                Err(e) => !self@.wf() && e == FrameError::TooLong && final(out)@ == old(out)@,
            },
    {
        match self {
            Frame::Handshake { version, method, credential } => {
                if credential.len() > MAX_PAYLOAD - 2 {
                    return Err(FrameError::TooLong);
                }
                out.push(TAG_HANDSHAKE);
                push_be32(out, 0);
                push_be16(out, (credential.len() + 2) as u16);
                out.push(*version);
                out.push(*method);
                append_slice(out, credential.as_slice());
                assert(out@ =~= old(out)@ + spec_encode_frame(self@));
            },
            Frame::Open { stream, dest } => {
                proof {
                    use_type_invariant(dest);
                    lemma_encoded_len(dest@);
                }
                let body = dest.encode();
                out.push(TAG_OPEN);
                push_be32(out, *stream);
                push_be16(out, body.len() as u16);
                append_slice(out, body.as_slice());
                assert(out@ =~= old(out)@ + spec_encode_frame(self@));
            },
            Frame::Data { stream, payload } => {
                if payload.len() > MAX_PAYLOAD {
                    return Err(FrameError::TooLong);
                }
                out.push(TAG_DATA);
                push_be32(out, *stream);
                push_be16(out, payload.len() as u16);
                append_slice(out, payload.as_slice());
                assert(out@ =~= old(out)@ + spec_encode_frame(self@));
            },
            Frame::Close { stream, how } => {
                out.push(TAG_CLOSE);
                push_be32(out, *stream);
                push_be16(out, 1);
                out.push(how.code());
                assert(out@ =~= old(out)@ + spec_encode_frame(self@));
            },
        }
        Ok(())
    }

    /// The encoding of this frame, unless its payload is longer than a
    /// frame can carry.
    pub fn encode(&self) -> (r: Result<Vec<u8>, FrameError>)
        ensures
            match r {
                Ok(out) => self@.wf() && out@ == spec_encode_frame(self@),
                Err(e) => !self@.wf() && e == FrameError::TooLong,
            },
    {
        let mut out: Vec<u8> = Vec::new();
        match self.encode_into(&mut out) {
            Ok(()) => {
                assert(out@ =~= spec_encode_frame(self@));
                Ok(out)
            },
            Err(e) => Err(e),
        }
    }
}

/// Reads the frame at the start of `buf`, if a whole one is there.
pub fn parse_frame(buf: &[u8]) -> (r: Parsed)
    ensures
        r@ == spec_parse(buf@),
        r matches Parsed::Frame(_, n) ==> HEADER_LEN <= n <= buf@.len() && n <= HEADER_LEN
            + MAX_PAYLOAD,
{
    if buf.len() < HEADER_LEN {
        return Parsed::Incomplete;
    }
    let tag: u8 = buf[0];
    let stream: u32 = read_be32(buf, 1);
    let len: usize = read_be16(buf, 5) as usize;
    if tag != TAG_HANDSHAKE && tag != TAG_OPEN && tag != TAG_DATA && tag != TAG_CLOSE {
        return Parsed::Invalid(FrameError::UnknownType);
    }
    if len > MAX_PAYLOAD {
        return Parsed::Invalid(FrameError::TooLong);
    }
    if buf.len() < HEADER_LEN + len {
        return Parsed::Incomplete;
    }
    let total: usize = HEADER_LEN + len;
    let p: &[u8] = slice_subrange(buf, HEADER_LEN, total);
    if tag == TAG_HANDSHAKE {
        if stream != 0 || len < 2 {
            return Parsed::Invalid(FrameError::BadHandshake);
        }
        let credential = copy_range(p, 2, len);
        Parsed::Frame(Frame::Handshake { version: p[0], method: p[1], credential }, total)
    } else if tag == TAG_OPEN {
        match Destination::decode(p) {
            Ok((dest, n)) => {
                if n == len {
                    Parsed::Frame(Frame::Open { stream, dest }, total)
                } else {
                    Parsed::Invalid(FrameError::BadAddress)
                }
            },
            Err(_) => Parsed::Invalid(FrameError::BadAddress),
        }
    } else if tag == TAG_DATA {
        let payload = copy_range(p, 0, len);
        assert(p@.subrange(0, len as int) =~= p@);
        Parsed::Frame(Frame::Data { stream, payload }, total)
    } else {
        if len != 1 {
            return Parsed::Invalid(FrameError::BadClose);
        }
        match CloseKind::from_code(p[0]) {
            Some(how) => Parsed::Frame(Frame::Close { stream, how }, total),
            None => Parsed::Invalid(FrameError::BadClose),
        }
    }
}

} // verus!
