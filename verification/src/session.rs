//! The relay session: one connection that carries many logical streams.
//!
//! A session is a state machine. Bytes that arrive from the peer are fed in
//! and come out as events; what the local side wants to send comes out as
//! frame bytes for the caller to write, in the order of the calls. The
//! session never touches a socket.
//!
//! Each end of a stream announces with stream-close frames which of its two
//! directions it has ended. A stream leaves the table when both ends have
//! ended both directions; until then frames that are still in flight for it
//! find it there. When any inbound queue rises above `HIGH_WATER` the
//! session stops taking frames from its input until the queue is read: one
//! slow reader holds back every stream of the session.

use vstd::prelude::*;
use crate::address::{Destination, DestinationView};
use crate::frame::{
    parse_frame, spec_encode_frame, spec_parse, CloseKind, Frame, FrameError, FrameView,
    ParseView, Parsed, MAX_PAYLOAD,
};
use crate::table;
use crate::wire::{append_slice, copy_range};

verus! {

/// The most streams that a session holds at one time.
pub const MAX_STREAMS: usize = 1024;

/// The queue length above which the session stops taking frames.
pub const HIGH_WATER: usize = 65536;

/// The most bytes that one inbound queue ever holds: `HIGH_WATER` and one
/// full frame.
pub const QUEUE_LIMIT: usize = 81920;

/// Which end of the tunnel a session is.
#[derive(Debug, Clone, Copy, PartialEq, Eq, Structural)]
pub enum Role {
    /// The end that opens streams.
    Client,
    /// The end that accepts them.
    Server,
}

/// What the peer did that the protocol forbids. Each of these ends the
/// whole session.
#[derive(Debug, Clone, Copy, PartialEq, Eq, Structural)]
pub enum Violation {
    /// Bytes that are no frame.
    Framing(FrameError),
    /// A handshake frame after the handshake.
    UnexpectedHandshake,
    /// A stream-open frame sent to the client.
    UnexpectedOpen,
    /// A stream-open frame for a stream that is open.
    DuplicateStream,
    /// A stream-open frame beyond `MAX_STREAMS`.
    TooManyStreams,
    /// A data or stream-close frame for a stream that is not open.
    UnknownStream,
    /// A data frame after the peer has ended its writing.
    DataAfterClose,
    /// A data frame that the inbound queue has no room for.
    QueueOverflow,
}

/// Why a local request was not carried out.
#[derive(Debug, Clone, Copy, PartialEq, Eq, Structural)]
pub enum SessionError {
    /// The session has been torn down.
    Closed,
    /// Only a client opens streams.
    WrongRole,
    /// The session holds `MAX_STREAMS` streams, or has used up its ids.
    Exhausted,
    /// No such stream is open.
    UnknownStream,
    /// The stream's outbound direction has ended.
    WriteClosed,
}

/// What a frame from the peer brought about.
#[derive(Debug, Clone, Copy, PartialEq, Eq, Structural)]
pub enum Event {
    /// The peer opened this stream; it waits to be accepted.
    Opened(u32),
    /// Bytes were queued for this stream.
    Data(u32),
    /// The peer ended one or both directions of this stream.
    Closed(u32),
    /// The frame was in order, but nobody reads that stream any more.
    Dropped,
}

/// What the session found in its input.
#[derive(Debug, Clone, Copy, PartialEq, Eq, Structural)]
pub enum Poll {
    /// The session has been torn down.
    Closed,
    /// An inbound queue is above `HIGH_WATER`: read it first.
    Paused,
    /// No whole frame is there: feed more bytes.
    NeedInput,
    /// One frame was taken and applied.
    Event(Event),
    /// The peer broke the protocol and the session was torn down.
    Violation(Violation),
}

/// What a read from a stream gave.
#[derive(Debug, PartialEq, Eq)]
pub enum Received {
    /// The bytes that were queued, all of them.
    Bytes(Vec<u8>),
    /// Nothing is queued, and more may come.
    Pending,
    /// Nothing is queued, and nothing will come.
    Eof,
}

/// The result of a read as the contracts see it.
pub enum ReceivedView {
    Bytes(Seq<u8>),
    Pending,
    Eof,
}

impl View for Received {
    type V = ReceivedView;

    open spec fn view(&self) -> ReceivedView {
        match self {
            Received::Bytes(b) => ReceivedView::Bytes(b@),
            Received::Pending => ReceivedView::Pending,
            Received::Eof => ReceivedView::Eof,
        }
    }
}

/// One stream as the contracts see it.
pub struct StreamView {
    /// Where the stream goes.
    pub dest: DestinationView,
    /// Bytes from the peer that have not been read.
    pub inbound: Seq<u8>,
    /// Whether the local side knows of the stream: a stream that the peer
    /// opened is hidden until it is accepted.
    pub accepted: bool,
    /// The local side has announced that it reads no more.
    pub sent_read: bool,
    /// The local side has announced that it writes no more.
    pub sent_write: bool,
    /// The peer has announced that it reads no more.
    pub got_read: bool,
    /// The peer has announced that it writes no more.
    pub got_write: bool,
}

impl StreamView {
    /// A stream on which nothing has happened yet.
    pub open spec fn fresh(dest: DestinationView, accepted: bool) -> StreamView {
        StreamView {
            dest,
            inbound: Seq::<u8>::empty(),
            accepted,
            sent_read: false,
            sent_write: false,
            got_read: false,
            got_write: false,
        }
    }

    /// No more bytes will be queued.
    pub open spec fn read_closed(self) -> bool {
        self.sent_read || self.got_write
    }

    /// No more bytes may be sent.
    pub open spec fn write_closed(self) -> bool {
        self.sent_write || self.got_read
    }

    /// Both ends have ended both directions.
    pub open spec fn finished(self) -> bool {
        self.sent_read && self.sent_write && self.got_read && self.got_write
    }
}

/// A session as the contracts see it.
pub struct SessionView {
    pub role: Role,
    /// Whether the session has been torn down.
    pub closed: bool,
    /// The streams in the table, by id.
    pub streams: Map<u32, StreamView>,
    /// Streams that the peer opened and that wait to be accepted, oldest
    /// first.
    pub pending: Seq<u32>,
    /// The id that the next stream opened here will get.
    pub next_id: u32,
    /// Input that has not been parsed yet.
    pub rx: Seq<u8>,
}

/// The data frames that carry `bytes` on stream `id`: each but the last is
/// full.
pub open spec fn data_frames(id: u32, bytes: Seq<u8>) -> Seq<FrameView>
    decreases bytes.len(),
{
    if bytes.len() == 0 {
        Seq::<FrameView>::empty()
    } else {
        let n: int = if bytes.len() <= MAX_PAYLOAD {
            bytes.len() as int
        } else {
            MAX_PAYLOAD as int
        };
        seq![FrameView::Data { stream: id, payload: bytes.take(n) }] + data_frames(
            id,
            bytes.skip(n),
        )
    }
}

/// The encodings of `frames`, one after the other.
pub open spec fn encode_frames(frames: Seq<FrameView>) -> Seq<u8>
    decreases frames.len(),
{
    if frames.len() == 0 {
        Seq::<u8>::empty()
    } else {
        spec_encode_frame(frames[0]) + encode_frames(frames.drop_first())
    }
}

impl SessionView {
    /// A session on which nothing has happened yet.
    pub open spec fn init(role: Role) -> SessionView {
        SessionView {
            role,
            closed: false,
            streams: Map::<u32, StreamView>::empty(),
            pending: Seq::<u32>::empty(),
            next_id: 1,
            rx: Seq::<u8>::empty(),
        }
    }

    /// What holds of every session.
    pub open spec fn wf(self) -> bool {
        &&& self.streams.dom().finite()
        &&& self.streams.dom().len() <= MAX_STREAMS
        &&& forall|id: u32| #[trigger]
            self.streams.contains_key(id) ==> {
                &&& self.streams[id].inbound.len() <= QUEUE_LIMIT
                &&& self.streams[id].sent_read ==> self.streams[id].inbound.len() == 0
                &&& !self.streams[id].accepted ==> !self.streams[id].sent_read
                    && !self.streams[id].sent_write
                &&& self.role == Role::Client ==> id < self.next_id
            }
        &&& forall|i: int|
            0 <= i < self.pending.len() ==> self.streams.contains_key(#[trigger] self.pending[i])
                && !self.streams[self.pending[i]].accepted
        &&& forall|i: int, j: int|
            0 <= i < j < self.pending.len() ==> #[trigger] self.pending[i]
                != #[trigger] self.pending[j]
        &&& self.closed ==> self.pending.len() == 0 && self.rx.len() == 0
    }

    /// The session can take one more stream that is opened here: it is an
    /// open client session with room in its table and an id to give.
    pub open spec fn usable(self) -> bool {
        !self.closed && self.role == Role::Client && self.streams.dom().len() < MAX_STREAMS
            && self.next_id < u32::MAX
    }

    /// The stream is in the table and the local side knows of it.
    pub open spec fn is_open(self, id: u32) -> bool {
        self.streams.contains_key(id) && self.streams[id].accepted
    }

    /// No more can happen on the stream than reading what is queued.
    pub open spec fn stream_closed(self, id: u32) -> bool {
        self.closed || !self.streams.contains_key(id) || (self.streams[id].read_closed()
            && self.streams[id].write_closed())
    }

    /// Some inbound queue is above `HIGH_WATER`.
    pub open spec fn paused(self) -> bool {
        exists|id: u32| #[trigger]
            self.streams.contains_key(id) && self.streams[id].inbound.len() > HIGH_WATER
    }

    /// The session after it has been torn down: closed, with no input and
    /// nothing to accept. The queues stay, to be read once.
    pub open spec fn teardown(self) -> SessionView {
        SessionView {
            closed: true,
            pending: Seq::<u32>::empty(),
            rx: Seq::<u8>::empty(),
            ..self
        }
    }

    /// The session after a request to open a stream to `dest`, and the id
    /// of the stream.
    pub open spec fn open(self, dest: DestinationView) -> (SessionView, Result<u32, SessionError>) {
        if self.closed {
            (self, Err(SessionError::Closed))
        } else if self.role != Role::Client {
            (self, Err(SessionError::WrongRole))
        } else if self.streams.dom().len() >= MAX_STREAMS || self.next_id == u32::MAX {
            (self, Err(SessionError::Exhausted))
        } else {
            (
                SessionView {
                    streams: self.streams.insert(self.next_id, StreamView::fresh(dest, true)),
                    next_id: (self.next_id + 1) as u32,
                    ..self
                },
                Ok(self.next_id),
            )
        }
    }

    /// The session after the oldest waiting stream has been handed out, and
    /// that stream.
    pub open spec fn accept(self) -> (SessionView, Option<(u32, DestinationView)>) {
        if self.closed || self.pending.len() == 0 {
            (self, None)
        } else {
            let id = self.pending[0];
            let s = self.streams[id];
            (
                SessionView {
                    streams: self.streams.insert(id, StreamView { accepted: true, ..s }),
                    pending: self.pending.skip(1),
                    ..self
                },
                Some((id, s.dest)),
            )
        }
    }

    /// What a request to send `bytes` on stream `id` gives: the frames to
    /// write, or why there are none.
    pub open spec fn send(self, id: u32, bytes: Seq<u8>) -> Result<Seq<u8>, SessionError> {
        if self.closed {
            Err(SessionError::Closed)
        } else if !self.is_open(id) {
            Err(SessionError::UnknownStream)
        } else if self.streams[id].write_closed() {
            Err(SessionError::WriteClosed)
        } else {
            Ok(encode_frames(data_frames(id, bytes)))
        }
    }

    /// The session after a read from stream `id`, and what was read. A
    /// stream of a closed session leaves the table once its queue is empty.
    pub open spec fn receive(self, id: u32) -> (SessionView, ReceivedView) {
        if !self.is_open(id) {
            (self, ReceivedView::Eof)
        } else {
            let s = self.streams[id];
            if s.inbound.len() > 0 {
                (
                    SessionView {
                        streams: self.streams.insert(
                            id,
                            StreamView { inbound: Seq::<u8>::empty(), ..s },
                        ),
                        ..self
                    },
                    ReceivedView::Bytes(s.inbound),
                )
            } else if self.closed {
                (SessionView { streams: self.streams.remove(id), ..self }, ReceivedView::Eof)
            } else if s.read_closed() {
                (self, ReceivedView::Eof)
            } else {
                (self, ReceivedView::Pending)
            }
        }
    }

    /// The session after the local side has ended directions of stream
    /// `id`, and what is to be announced to the peer: the directions that
    /// had not been ended before, if any.
    pub open spec fn close(self, id: u32, how: CloseKind) -> (
        SessionView,
        Result<Option<CloseKind>, SessionError>,
    ) {
        if self.closed {
            (self, Err(SessionError::Closed))
        } else if !self.is_open(id) {
            (self, Err(SessionError::UnknownStream))
        } else {
            let s = self.streams[id];
            let new_read = how.ends_read() && !s.sent_read;
            let new_write = how.ends_write() && !s.sent_write;
            let after = StreamView {
                sent_read: s.sent_read || how.ends_read(),
                sent_write: s.sent_write || how.ends_write(),
                inbound: if how.ends_read() {
                    Seq::<u8>::empty()
                } else {
                    s.inbound
                },
                ..s
            };
            let announce = if new_read && new_write {
                Some(CloseKind::Both)
            } else if new_read {
                Some(CloseKind::Read)
            } else if new_write {
                Some(CloseKind::Write)
            } else {
                None
            };
            (
                SessionView {
                    streams: if after.finished() {
                        self.streams.remove(id)
                    } else {
                        self.streams.insert(id, after)
                    },
                    ..self
                },
                Ok(announce),
            )
        }
    }

    /// The session after a violation: torn down.
    pub open spec fn violate(self, v: Violation) -> (SessionView, Result<Event, Violation>) {
        (self.teardown(), Err(v))
    }

    /// The session after a frame from the peer, and what the frame brought
    /// about.
    pub open spec fn apply(self, f: FrameView) -> (SessionView, Result<Event, Violation>) {
        if self.closed {
            (self, Ok(Event::Dropped))
        } else {
            match f {
                FrameView::Handshake { .. } => self.violate(Violation::UnexpectedHandshake),
                FrameView::Open { stream, dest } => {
                    if self.role == Role::Client {
                        self.violate(Violation::UnexpectedOpen)
                    } else if self.streams.contains_key(stream) {
                        self.violate(Violation::DuplicateStream)
                    } else if self.streams.dom().len() >= MAX_STREAMS {
                        self.violate(Violation::TooManyStreams)
                    } else {
                        (
                            SessionView {
                                streams: self.streams.insert(
                                    stream,
                                    StreamView::fresh(dest, false),
                                ),
                                pending: self.pending.push(stream),
                                ..self
                            },
                            Ok(Event::Opened(stream)),
                        )
                    }
                },
                FrameView::Data { stream, payload } => {
                    if !self.streams.contains_key(stream) {
                        self.violate(Violation::UnknownStream)
                    } else {
                        let s = self.streams[stream];
                        if s.got_write {
                            self.violate(Violation::DataAfterClose)
                        } else if s.sent_read {
                            (self, Ok(Event::Dropped))
                        } else if s.inbound.len() + payload.len() > QUEUE_LIMIT {
                            self.violate(Violation::QueueOverflow)
                        } else {
                            (
                                SessionView {
                                    streams: self.streams.insert(
                                        stream,
                                        StreamView { inbound: s.inbound + payload, ..s },
                                    ),
                                    ..self
                                },
                                Ok(Event::Data(stream)),
                            )
                        }
                    }
                },
                FrameView::Close { stream, how } => {
                    if !self.streams.contains_key(stream) {
                        self.violate(Violation::UnknownStream)
                    } else {
                        let s = self.streams[stream];
                        let after = StreamView {
                            got_read: s.got_read || how.ends_read(),
                            got_write: s.got_write || how.ends_write(),
                            ..s
                        };
                        (
                            SessionView {
                                streams: if after.finished() {
                                    self.streams.remove(stream)
                                } else {
                                    self.streams.insert(stream, after)
                                },
                                ..self
                            },
                            Ok(Event::Closed(stream)),
                        )
                    }
                },
            }
        }
    }

    /// The session after `bytes` have arrived from the peer.
    pub open spec fn feed(self, bytes: Seq<u8>) -> SessionView {
        if self.closed {
            self
        } else {
            SessionView { rx: self.rx + bytes, ..self }
        }
    }

    /// The session after it has looked at its input once, and what it
    /// found.
    pub open spec fn poll(self) -> (SessionView, Poll) {
        if self.closed {
            (self, Poll::Closed)
        } else if self.paused() {
            (self, Poll::Paused)
        } else {
            match spec_parse(self.rx) {
                ParseView::Incomplete => (self, Poll::NeedInput),
                ParseView::Invalid(e) => (self.teardown(), Poll::Violation(Violation::Framing(e))),
                ParseView::Frame(f, n) => {
                    let (next, r) = (SessionView { rx: self.rx.skip(n as int), ..self }).apply(f);
                    (
                        next,
                        match r {
                            Ok(e) => Poll::Event(e),
                            Err(v) => Poll::Violation(v),
                        },
                    )
                },
            }
        }
    }
}

/// A frame leaves a well-formed session well formed.
pub proof fn lemma_apply_wf(s: SessionView, f: FrameView)
    requires
        s.wf(),
    ensures
        s.apply(f).0.wf(),
{
    let t = s.apply(f).0;
    if s.closed {
    } else {
        match f {
            FrameView::Handshake { .. } => {},
            FrameView::Open { stream, dest } => {
                if t.closed {
                } else {
                    assert forall|i: int| 0 <= i < t.pending.len() implies t.streams.contains_key(
                        #[trigger] t.pending[i],
                    ) && !t.streams[t.pending[i]].accepted by {
                        if i < s.pending.len() {
                            assert(t.pending[i] == s.pending[i]);
                        }
                    }
                    assert forall|i: int, j: int| 0 <= i < j < t.pending.len() implies #[trigger] t.pending[i]
                        != #[trigger] t.pending[j] by {
                        assert(t.pending[i] == s.pending[i]);
                        if j < s.pending.len() {
                            assert(t.pending[j] == s.pending[j]);
                        }
                    }
                }
            },
            FrameView::Data { stream, payload } => {
                if !t.closed && t.streams != s.streams {
                    assert(t.streams.dom() =~= s.streams.dom());
                }
            },
            FrameView::Close { stream, how } => {
                if s.streams.contains_key(stream) {
                    if t.streams.contains_key(stream) {
                        assert(t.streams.dom() =~= s.streams.dom());
                    }
                    assert forall|i: int| 0 <= i < t.pending.len() implies t.streams.contains_key(
                        #[trigger] t.pending[i],
                    ) && !t.streams[t.pending[i]].accepted by {
                        assert(s.streams.contains_key(s.pending[i]));
                    }
                }
            },
        }
    }
}

/// Handing out a stream leaves a well-formed session well formed.
pub proof fn lemma_accept_wf(s: SessionView)
    requires
        s.wf(),
    ensures
        s.accept().0.wf(),
{
    let t = s.accept().0;
    if !(s.closed || s.pending.len() == 0) {
        let id = s.pending[0];
        assert(s.streams.contains_key(id));
        assert(t.streams.dom() =~= s.streams.dom());
        assert forall|i: int| 0 <= i < t.pending.len() implies t.streams.contains_key(
            #[trigger] t.pending[i],
        ) && !t.streams[t.pending[i]].accepted by {
            assert(t.pending[i] == s.pending[i + 1]);
            assert(s.pending[0] != s.pending[i + 1]);
        }
        assert forall|i: int, j: int| 0 <= i < j < t.pending.len() implies #[trigger] t.pending[i]
            != #[trigger] t.pending[j] by {
            assert(t.pending[i] == s.pending[i + 1]);
            assert(t.pending[j] == s.pending[j + 1]);
        }
    }
}

/// Ending directions of a stream leaves a well-formed session well
/// formed.
pub proof fn lemma_close_wf(s: SessionView, id: u32, how: CloseKind)
    requires
        s.wf(),
    ensures
        s.close(id, how).0.wf(),
{
    let t = s.close(id, how).0;
    if !s.closed && s.is_open(id) {
        if t.streams.contains_key(id) {
            assert(t.streams.dom() =~= s.streams.dom());
        }
        assert forall|i: int| 0 <= i < t.pending.len() implies t.streams.contains_key(
            #[trigger] t.pending[i],
        ) && !t.streams[t.pending[i]].accepted by {
            assert(s.streams.contains_key(s.pending[i]));
        }
    }
}

/// One stream of the table.
struct Stream {
    id: u32,
    dest: Destination,
    inbound: Vec<u8>,
    accepted: bool,
    sent_read: bool,
    sent_write: bool,
    got_read: bool,
    got_write: bool,
}

/// One connection's worth of streams.
pub struct Session {
    role: Role,
    closed: bool,
    streams: Vec<Stream>,
    pending: Vec<u32>,
    next_id: u32,
    rx: Vec<u8>,
}

spec fn view_of(s: Stream) -> StreamView {
    StreamView {
        dest: s.dest@,
        inbound: s.inbound@,
        accepted: s.accepted,
        sent_read: s.sent_read,
        sent_write: s.sent_write,
        got_read: s.got_read,
        got_write: s.got_write,
    }
}

spec fn id_of() -> spec_fn(Stream) -> u32 {
    |s: Stream| s.id
}

spec fn view_fn() -> spec_fn(Stream) -> StreamView {
    |s: Stream| view_of(s)
}

spec fn has_id(streams: Seq<Stream>, id: u32) -> bool {
    table::has_key(streams, id_of(), id)
}

spec fn index_of(streams: Seq<Stream>, id: u32) -> int {
    table::index_of(streams, id_of(), id)
}

spec fn unique_ids(streams: Seq<Stream>) -> bool {
    table::unique(streams, id_of())
}

spec fn map_of(streams: Seq<Stream>) -> Map<u32, StreamView> {
    table::table(streams, id_of(), view_fn())
}

proof fn lemma_at(streams: Seq<Stream>, i: int)
    requires
        unique_ids(streams),
        0 <= i < streams.len(),
    ensures
        has_id(streams, streams[i].id),
        index_of(streams, streams[i].id) == i,
        map_of(streams).contains_key(streams[i].id),
        map_of(streams)[streams[i].id] == view_of(streams[i]),
{
    table::lemma_at(streams, id_of(), view_fn(), i);
}

proof fn lemma_has(streams: Seq<Stream>, id: u32)
    requires
        unique_ids(streams),
        map_of(streams).contains_key(id),
    ensures
        0 <= index_of(streams, id) < streams.len(),
        streams[index_of(streams, id)].id == id,
        map_of(streams)[id] == view_of(streams[index_of(streams, id)]),
{
    table::lemma_has(streams, id_of(), view_fn(), id);
}

proof fn lemma_push(streams: Seq<Stream>, s: Stream)
    requires
        unique_ids(streams),
        !has_id(streams, s.id),
    ensures
        unique_ids(streams.push(s)),
        map_of(streams.push(s)) == map_of(streams).insert(s.id, view_of(s)),
{
    table::lemma_push(streams, id_of(), view_fn(), s);
}

proof fn lemma_update(streams: Seq<Stream>, i: int, s: Stream)
    requires
        unique_ids(streams),
        0 <= i < streams.len(),
        s.id == streams[i].id,
    ensures
        unique_ids(streams.update(i, s)),
        map_of(streams.update(i, s)) == map_of(streams).insert(s.id, view_of(s)),
{
    table::lemma_update(streams, id_of(), view_fn(), i, s);
}

proof fn lemma_remove(streams: Seq<Stream>, i: int)
    requires
        unique_ids(streams),
        0 <= i < streams.len(),
    ensures
        unique_ids(streams.remove(i)),
        map_of(streams.remove(i)) == map_of(streams).remove(streams[i].id),
{
    table::lemma_remove(streams, id_of(), view_fn(), i);
}

proof fn lemma_len(streams: Seq<Stream>)
    requires
        unique_ids(streams),
    ensures
        map_of(streams).dom().finite(),
        map_of(streams).dom().len() == streams.len(),
{
    table::lemma_len(streams, id_of(), view_fn());
}

impl View for Session {
    type V = SessionView;

    closed spec fn view(&self) -> SessionView {
        SessionView {
            role: self.role,
            closed: self.closed,
            streams: map_of(self.streams@),
            pending: self.pending@,
            next_id: self.next_id,
            rx: self.rx@,
        }
    }
}

/// The frames that carry `bytes` on stream `id`, encoded.
pub fn encode_data(id: u32, bytes: &[u8]) -> (out: Vec<u8>)
    ensures
        out@ == encode_frames(data_frames(id, bytes@)),
{
    let mut out: Vec<u8> = Vec::new();
    let n: usize = bytes.len();
    let mut i: usize = 0;
    assert(bytes@.skip(0) =~= bytes@);
    assert(out@ + encode_frames(data_frames(id, bytes@)) =~= encode_frames(
        data_frames(id, bytes@),
    ));
    while i < n
        invariant
            n == bytes@.len(),
            i <= n,
            encode_frames(data_frames(id, bytes@)) == out@ + encode_frames(
                data_frames(id, bytes@.skip(i as int)),
            ),
        decreases n - i,
    {
        let chunk: usize = if n - i <= MAX_PAYLOAD {
            n - i
        } else {
            MAX_PAYLOAD
        };
        let f = Frame::Data { stream: id, payload: copy_range(bytes, i, i + chunk) };
        let ghost before = out@;
        proof {
            let rest = bytes@.skip(i as int);
            let tail = data_frames(id, rest.skip(chunk as int));
            assert(rest.take(chunk as int) =~= bytes@.subrange(i as int, i + chunk));
            assert(rest.skip(chunk as int) =~= bytes@.skip(i + chunk));
            assert(data_frames(id, rest) == seq![f@] + tail);
            assert((seq![f@] + tail)[0] == f@);
            assert((seq![f@] + tail).drop_first() =~= tail);
            assert(encode_frames(data_frames(id, rest)) == spec_encode_frame(f@) + encode_frames(
                tail,
            ));
        }
        match f.encode_into(&mut out) {
            Ok(()) => {},
            Err(_) => {
                proof {
                    assert(false);
                }
            },
        }
        i = i + chunk;
        assert(out@ + encode_frames(data_frames(id, bytes@.skip(i as int))) =~= before + (
        spec_encode_frame(f@) + encode_frames(data_frames(id, bytes@.skip(i as int)))));
    }
    assert(bytes@.skip(n as int) =~= Seq::<u8>::empty());
    assert(out@ + Seq::<u8>::empty() =~= out@);
    out
}

impl Session {
    /// What holds of every session: its view is well formed.
    pub closed spec fn wf(&self) -> bool {
        unique_ids(self.streams@) && self@.wf()
    }

    /// A well-formed session has a well-formed view.
    pub proof fn lemma_view_wf(&self)
        requires
            self.wf(),
        ensures
            self@.wf(),
    {
    }

    /// A session on which nothing has happened yet.
    pub fn new(role: Role) -> (s: Session)
        ensures
            s.wf(),
            s@ == SessionView::init(role),
    {
        let s = Session {
            role,
            closed: false,
            streams: Vec::new(),
            pending: Vec::new(),
            next_id: 1,
            rx: Vec::new(),
        };
        proof {
            lemma_len(s.streams@);
            assert(map_of(s.streams@) =~= Map::<u32, StreamView>::empty());
            assert(s.pending@ =~= Seq::<u32>::empty());
            assert(s.rx@ =~= Seq::<u8>::empty());
        }
        s
    }

    /// Which end of the tunnel this is.
    pub fn role(&self) -> (r: Role)
        ensures
            r == self@.role,
    {
        self.role
    }

    /// Whether the session has been torn down.
    pub fn is_closed(&self) -> (b: bool)
        ensures
            b == self@.closed,
    {
        self.closed
    }

    /// The number of streams in the table.
    pub fn stream_count(&self) -> (n: usize)
        requires
            self.wf(),
        ensures
            n == self@.streams.dom().len(),
            n <= MAX_STREAMS,
    {
        proof {
            lemma_len(self.streams@);
        }
        self.streams.len()
    }

    /// Whether a request to open a stream would be met now. A client
    /// engine reuses a session for as long as this holds, and makes a new
    /// connection when it holds of none.
    pub fn is_usable(&self) -> (b: bool)
        requires
            self.wf(),
        ensures
            b == self@.usable(),
    {
        proof {
            lemma_len(self.streams@);
        }
        !self.closed && self.role == Role::Client && self.streams.len() < MAX_STREAMS
            && self.next_id < u32::MAX
    }

    fn find(&self, id: u32) -> (r: Option<usize>)
        requires
            unique_ids(self.streams@),
        ensures
            match r {
                Some(i) => i < self.streams@.len() && self.streams@[i as int].id == id
                    && self@.streams.contains_key(id) && self@.streams[id] == view_of(
                    self.streams@[i as int],
                ),
                None => !self@.streams.contains_key(id) && !has_id(self.streams@, id),
            },
    {
        let n: usize = self.streams.len();
        let mut i: usize = 0;
        while i < n
            invariant
                n == self.streams@.len(),
                i <= n,
                unique_ids(self.streams@),
                forall|j: int| 0 <= j < i ==> (#[trigger] self.streams@[j]).id != id,
            decreases n - i,
        {
            if self.streams[i].id == id {
                proof {
                    lemma_at(self.streams@, i as int);
                }
                return Some(i);
            }
            i = i + 1;
        }
        proof {
            if has_id(self.streams@, id) {
                let k = index_of(self.streams@, id);
                assert(self.streams@[k].id == id);
            }
        }
        None
    }

    fn is_paused(&self) -> (b: bool)
        requires
            unique_ids(self.streams@),
        ensures
            b == self@.paused(),
    {
        let n: usize = self.streams.len();
        let mut i: usize = 0;
        while i < n
            invariant
                n == self.streams@.len(),
                i <= n,
                unique_ids(self.streams@),
                forall|j: int| 0 <= j < i ==> (#[trigger] self.streams@[j]).inbound@.len() <= HIGH_WATER,
            decreases n - i,
        {
            if self.streams[i].inbound.len() > HIGH_WATER {
                proof {
                    lemma_at(self.streams@, i as int);
                    assert(self@.streams.contains_key(self.streams@[i as int].id));
                }
                return true;
            }
            i = i + 1;
        }
        proof {
            if self@.paused() {
                let id = choose|id: u32| #[trigger]
                    self@.streams.contains_key(id) && self@.streams[id].inbound.len() > HIGH_WATER;
                lemma_has(self.streams@, id);
                let k = index_of(self.streams@, id);
                assert(self.streams@[k].inbound@.len() <= HIGH_WATER);
            }
        }
        false
    }

    /// Whether nothing more can happen on stream `id` than reading what is
    /// queued: the session is closed, the stream has left the table, or
    /// both of its directions have ended.
    pub fn is_stream_closed(&self, id: u32) -> (b: bool)
        requires
            self.wf(),
        ensures
            b == self@.stream_closed(id),
    {
        if self.closed {
            return true;
        }
        match self.find(id) {
            None => true,
            Some(i) => {
                let s = &self.streams[i];
                (s.sent_read || s.got_write) && (s.sent_write || s.got_read)
            },
        }
    }

    /// Whether the local side can still read bytes from stream `id`: it is
    /// open and its queue is not empty.
    pub fn has_queued(&self, id: u32) -> (b: bool)
        requires
            self.wf(),
        ensures
            b == (self@.is_open(id) && self@.streams[id].inbound.len() > 0),
    {
        match self.find(id) {
            None => false,
            Some(i) => self.streams[i].accepted && self.streams[i].inbound.len() > 0,
        }
    }

    /// Whether the session takes input now: it is open and no inbound queue
    /// is above `HIGH_WATER`.
    pub fn wants_read(&self) -> (b: bool)
        requires
            self.wf(),
        ensures
            b == (!self@.closed && !self@.paused()),
    {
        !self.closed && !self.is_paused()
    }

    /// Tears the session down: after an I/O error, a violation, or when
    /// shutdown was asked for. What is queued stays to be read once.
    pub fn teardown(&mut self)
        requires
            old(self).wf(),
        ensures
            final(self).wf(),
            final(self)@ == old(self)@.teardown(),
    {
        self.closed = true;
        self.pending = Vec::new();
        self.rx = Vec::new();
        proof {
            assert(self.pending@ =~= Seq::<u32>::empty());
            assert(self.rx@ =~= Seq::<u8>::empty());
        }
    }

    /// Opens a stream to `dest`. On success the result holds the stream's
    /// id and the stream-open frame to write to the peer.
    pub fn open_stream(&mut self, dest: Destination) -> (r: Result<(u32, Vec<u8>), SessionError>)
        requires
            old(self).wf(),
        ensures
            final(self).wf(),
            final(self)@ == old(self)@.open(dest@).0,
            match r {
                Ok((id, bytes)) => old(self)@.open(dest@).1 == Ok::<u32, SessionError>(id)
                    && bytes@ == spec_encode_frame(FrameView::Open { stream: id, dest: dest@ }),
                Err(e) => old(self)@.open(dest@).1 == Err::<u32, SessionError>(e),
            },
    {
        proof {
            lemma_len(self.streams@);
            use_type_invariant(&dest);
        }
        if self.closed {
            return Err(SessionError::Closed);
        }
        if self.role != Role::Client {
            return Err(SessionError::WrongRole);
        }
        if self.streams.len() >= MAX_STREAMS || self.next_id == u32::MAX {
            return Err(SessionError::Exhausted);
        }
        let id: u32 = self.next_id;
        let frame = Frame::Open { stream: id, dest: dest.duplicate() };
        let bytes = match frame.encode() {
            Ok(bytes) => bytes,
            Err(_) => {
                proof {
                    assert(false);
                }
                Vec::new()
            },
        };
        let s = Stream {
            id,
            dest,
            inbound: Vec::new(),
            accepted: true,
            sent_read: false,
            sent_write: false,
            got_read: false,
            got_write: false,
        };
        proof {
            if has_id(self.streams@, id) {
                assert(self@.streams.contains_key(id));
            }
            lemma_push(self.streams@, s);
            assert(s.inbound@ =~= Seq::<u8>::empty());
        }
        self.streams.push(s);
        self.next_id = id + 1;
        proof {
            lemma_len(self.streams@);
        }
        Ok((id, bytes))
    }

    /// Hands out the oldest stream that the peer opened and that has not
    /// been handed out yet, with its destination. There is none once the
    /// session is closed.
    pub fn accept_stream(&mut self) -> (r: Option<(u32, Destination)>)
        requires
            old(self).wf(),
        ensures
            final(self).wf(),
            final(self)@ == old(self)@.accept().0,
            match r {
                Some((id, dest)) => old(self)@.accept().1 == Some((id, dest@)),
                None => old(self)@.accept().1.is_none(),
            },
    {
        if self.closed || self.pending.len() == 0 {
            return None;
        }
        let id: u32 = self.pending[0];
        match self.find(id) {
            None => {
                proof {
                    assert(self@.streams.contains_key(self@.pending[0]));
                    assert(false);
                }
                None
            },
            Some(i) => {
                let ghost before = self.streams@;
                let ghost waiting = self.pending@;
                let dest = self.streams[i].dest.duplicate();
                self.streams[i].accepted = true;
                self.pending.remove(0);
                proof {
                    assert(self.streams@ =~= before.update(i as int, self.streams@[i as int]));
                    lemma_update(before, i as int, self.streams@[i as int]);
                    lemma_len(self.streams@);
                    assert(self.pending@ =~= waiting.skip(1));
                    assert(view_of(self.streams@[i as int]) == (StreamView {
                        accepted: true,
                        ..view_of(before[i as int])
                    }));
                    assert(self@ == old(self)@.accept().0);
                    lemma_accept_wf(old(self)@);
                }
                Some((id, dest))
            },
        }
    }

    /// The frames to write to the peer so that `bytes` travel on stream
    /// `id`: none for no bytes, else data frames that are full but for the
    /// last. Frames go out in the order of the calls. A caller that hands
    /// over at most `MAX_PAYLOAD` bytes per call lets the streams of a
    /// session take their turns frame by frame.
    pub fn send(&self, id: u32, bytes: &[u8]) -> (r: Result<Vec<u8>, SessionError>)
        requires
            self.wf(),
        ensures
            match r {
                Ok(out) => self@.send(id, bytes@) == Ok::<Seq<u8>, SessionError>(out@),
                Err(e) => self@.send(id, bytes@) == Err::<Seq<u8>, SessionError>(e),
            },
    {
        if self.closed {
            return Err(SessionError::Closed);
        }
        match self.find(id) {
            None => Err(SessionError::UnknownStream),
            Some(i) => {
                if !self.streams[i].accepted {
                    return Err(SessionError::UnknownStream);
                }
                if self.streams[i].sent_write || self.streams[i].got_read {
                    return Err(SessionError::WriteClosed);
                }
                Ok(encode_data(id, bytes))
            },
        }
    }

    /// Reads what is queued on stream `id`.
    pub fn receive(&mut self, id: u32) -> (r: Received)
        requires
            old(self).wf(),
        ensures
            final(self).wf(),
            final(self)@ == old(self)@.receive(id).0,
            r@ == old(self)@.receive(id).1,
    {
        match self.find(id) {
            None => Received::Eof,
            Some(i) => {
                if !self.streams[i].accepted {
                    return Received::Eof;
                }
                let ghost before = self.streams@;
                if self.streams[i].inbound.len() > 0 {
                    let mut taken: Vec<u8> = Vec::new();
                    std::mem::swap(&mut self.streams[i].inbound, &mut taken);
                    proof {
                        assert(self.streams@ =~= before.update(i as int, self.streams@[i as int]));
                        lemma_update(before, i as int, self.streams@[i as int]);
                        lemma_len(self.streams@);
                        assert(self.streams@[i as int].inbound@ =~= Seq::<u8>::empty());
                        assert(view_of(self.streams@[i as int]) == (StreamView {
                            inbound: Seq::<u8>::empty(),
                            ..view_of(before[i as int])
                        }));
                    }
                    Received::Bytes(taken)
                } else if self.closed {
                    self.streams.remove(i);
                    proof {
                        lemma_remove(before, i as int);
                        lemma_len(self.streams@);
                    }
                    Received::Eof
                } else if self.streams[i].sent_read || self.streams[i].got_write {
                    Received::Eof
                } else {
                    Received::Pending
                }
            },
        }
    }

    /// Ends directions of stream `id` on the local side. The result is the
    /// stream-close frame to write to the peer; it is empty when `how` ends
    /// nothing that had not been ended before. Ending the reading discards
    /// what is queued.
    pub fn close_stream(&mut self, id: u32, how: CloseKind) -> (r: Result<Vec<u8>, SessionError>)
        requires
            old(self).wf(),
        ensures
            final(self).wf(),
            final(self)@ == old(self)@.close(id, how).0,
            match r {
                Ok(bytes) => match old(self)@.close(id, how).1 {
                    Ok(Some(kind)) => bytes@ == spec_encode_frame(
                        FrameView::Close { stream: id, how: kind },
                    ),
                    Ok(None) => bytes@.len() == 0,
                    Err(_) => false,
                },
                Err(e) => old(self)@.close(id, how).1 == Err::<Option<CloseKind>, SessionError>(e),
            },
    {
        if self.closed {
            return Err(SessionError::Closed);
        }
        match self.find(id) {
            None => Err(SessionError::UnknownStream),
            Some(i) => {
                if !self.streams[i].accepted {
                    return Err(SessionError::UnknownStream);
                }
                let ghost before = self.streams@;
                let new_read: bool = how.is_read() && !self.streams[i].sent_read;
                let new_write: bool = how.is_write() && !self.streams[i].sent_write;
                if how.is_read() {
                    self.streams[i].sent_read = true;
                    self.streams[i].inbound = Vec::new();
                }
                if how.is_write() {
                    self.streams[i].sent_write = true;
                }
                proof {
                    assert(self.streams@ =~= before.update(i as int, self.streams@[i as int]));
                    lemma_update(before, i as int, self.streams@[i as int]);
                    if how.ends_read() {
                        assert(self.streams@[i as int].inbound@ =~= Seq::<u8>::empty());
                    }
                }
                let ghost updated = self.streams@;
                let s = &self.streams[i];
                if s.sent_read && s.sent_write && s.got_read && s.got_write {
                    self.streams.remove(i);
                    proof {
                        lemma_remove(updated, i as int);
                        assert(map_of(self.streams@) =~= map_of(before).remove(id));
                    }
                }
                proof {
                    lemma_len(self.streams@);
                }
                let announce: Option<CloseKind> = if new_read && new_write {
                    Some(CloseKind::Both)
                } else if new_read {
                    Some(CloseKind::Read)
                } else if new_write {
                    Some(CloseKind::Write)
                } else {
                    None
                };
                match announce {
                    None => Ok(Vec::new()),
                    Some(kind) => {
                        let frame = Frame::Close { stream: id, how: kind };
                        match frame.encode() {
                            Ok(bytes) => Ok(bytes),
                            Err(_) => {
                                proof {
                                    assert(false);
                                }
                                Ok(Vec::new())
                            },
                        }
                    },
                }
            },
        }
    }

    /// Applies one frame from the peer. A frame that breaks the protocol
    /// tears the session down.
    pub fn on_frame(&mut self, frame: Frame) -> (r: Result<Event, Violation>)
        requires
            old(self).wf(),
        ensures
            final(self).wf(),
            final(self)@ == old(self)@.apply(frame@).0,
            r == old(self)@.apply(frame@).1,
    {
        if self.closed {
            return Ok(Event::Dropped);
        }
        proof {
            lemma_len(self.streams@);
        }
        let ghost before = self.streams@;
        let ghost arrived = frame@;
        match frame {
            Frame::Handshake { .. } => {
                self.teardown();
                Err(Violation::UnexpectedHandshake)
            },
            Frame::Open { stream, dest } => {
                if self.role == Role::Client {
                    self.teardown();
                    return Err(Violation::UnexpectedOpen);
                }
                match self.find(stream) {
                    Some(_) => {
                        self.teardown();
                        Err(Violation::DuplicateStream)
                    },
                    None => {
                        if self.streams.len() >= MAX_STREAMS {
                            self.teardown();
                            return Err(Violation::TooManyStreams);
                        }
                        let s = Stream {
                            id: stream,
                            dest,
                            inbound: Vec::new(),
                            accepted: false,
                            sent_read: false,
                            sent_write: false,
                            got_read: false,
                            got_write: false,
                        };
                        proof {
                            lemma_push(self.streams@, s);
                            assert(s.inbound@ =~= Seq::<u8>::empty());
                        }
                        self.streams.push(s);
                        self.pending.push(stream);
                        proof {
                            lemma_len(self.streams@);
                            assert(self@ == old(self)@.apply(arrived).0);
                            lemma_apply_wf(old(self)@, arrived);
                        }
                        Ok(Event::Opened(stream))
                    },
                }
            },
            Frame::Data { stream, payload } => {
                match self.find(stream) {
                    None => {
                        self.teardown();
                        Err(Violation::UnknownStream)
                    },
                    Some(i) => {
                        if self.streams[i].got_write {
                            self.teardown();
                            return Err(Violation::DataAfterClose);
                        }
                        if self.streams[i].sent_read {
                            return Ok(Event::Dropped);
                        }
                        if payload.len() > QUEUE_LIMIT - self.streams[i].inbound.len() {
                            self.teardown();
                            return Err(Violation::QueueOverflow);
                        }
                        append_slice(&mut self.streams[i].inbound, payload.as_slice());
                        proof {
                            assert(self.streams@ =~= before.update(i as int, self.streams@[i as int]));
                            lemma_update(before, i as int, self.streams@[i as int]);
                            lemma_len(self.streams@);
                            assert(view_of(self.streams@[i as int]) == (StreamView {
                                inbound: view_of(before[i as int]).inbound + payload@,
                                ..view_of(before[i as int])
                            }));
                        }
                        Ok(Event::Data(stream))
                    },
                }
            },
            Frame::Close { stream, how } => {
                match self.find(stream) {
                    None => {
                        self.teardown();
                        Err(Violation::UnknownStream)
                    },
                    Some(i) => {
                        if how.is_read() {
                            self.streams[i].got_read = true;
                        }
                        if how.is_write() {
                            self.streams[i].got_write = true;
                        }
                        proof {
                            assert(self.streams@ =~= before.update(i as int, self.streams@[i as int]));
                            lemma_update(before, i as int, self.streams@[i as int]);
                        }
                        let ghost updated = self.streams@;
                        let s = &self.streams[i];
                        if s.sent_read && s.sent_write && s.got_read && s.got_write {
                            self.streams.remove(i);
                            proof {
                                lemma_remove(updated, i as int);
                                assert(map_of(self.streams@) =~= map_of(before).remove(stream));
                            }
                        }
                        proof {
                            lemma_len(self.streams@);
                        }
                        Ok(Event::Closed(stream))
                    },
                }
            },
        }
    }

    /// Takes in bytes that arrived from the peer. A closed session takes
    /// none.
    pub fn feed(&mut self, bytes: &[u8])
        requires
            old(self).wf(),
        ensures
            final(self).wf(),
            final(self)@ == old(self)@.feed(bytes@),
    {
        if !self.closed {
            append_slice(&mut self.rx, bytes);
        }
    }

    /// Looks at the input once: takes one frame from it and applies it, if
    /// a whole frame is there and no queue is above `HIGH_WATER`.
    pub fn poll(&mut self) -> (p: Poll)
        requires
            old(self).wf(),
        ensures
            final(self).wf(),
            final(self)@ == old(self)@.poll().0,
            p == old(self)@.poll().1,
    {
        if self.closed {
            return Poll::Closed;
        }
        if self.is_paused() {
            return Poll::Paused;
        }
        match parse_frame(self.rx.as_slice()) {
            Parsed::Incomplete => Poll::NeedInput,
            Parsed::Invalid(e) => {
                self.teardown();
                Poll::Violation(Violation::Framing(e))
            },
            Parsed::Frame(f, n) => {
                let ghost input = self.rx@;
                let rest = copy_range(self.rx.as_slice(), n, self.rx.len());
                self.rx = rest;
                proof {
                    assert(self.rx@ =~= input.skip(n as int));
                    assert(self@ == (SessionView { rx: input.skip(n as int), ..old(self)@ }));
                }
                match self.on_frame(f) {
                    Ok(e) => Poll::Event(e),
                    Err(v) => Poll::Violation(v),
                }
            },
        }
    }
}

} // verus!
