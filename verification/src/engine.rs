//! What the two engines decide around a session.
//!
//! The client engine maps each local connection to a stream of a session
//! that can still take one. The server engine connects each accepted stream
//! to its destination. Both then copy bytes between a socket and a stream
//! until one side ends or shutdown is asked for. The sockets are the
//! caller's; each function here takes what happened on one and says what to
//! write where.

use vstd::prelude::*;
use crate::frame::{spec_encode_frame, CloseKind, FrameView};
use crate::session::{Received, ReceivedView, Session, SessionError, SessionView};
use crate::wire::append_slice;

verus! {

/// What one step of a relay asks of the caller.
#[derive(Debug, PartialEq, Eq)]
pub struct Step {
    /// Bytes to write to the peer, under the session's write lock.
    pub to_peer: Vec<u8>,
    /// Bytes to write to the local socket.
    pub to_local: Vec<u8>,
    /// The stream has ended: shut down writing on the local socket once
    /// `to_local` is written.
    pub local_eof: bool,
    /// Nothing more can be sent: read no more from the local socket.
    pub stop_reading: bool,
    /// The relay is over: drop the local socket.
    pub done: bool,
}

/// A step as the contracts see it.
pub struct StepView {
    pub to_peer: Seq<u8>,
    pub to_local: Seq<u8>,
    pub local_eof: bool,
    pub stop_reading: bool,
    pub done: bool,
}

impl View for Step {
    type V = StepView;

    open spec fn view(&self) -> StepView {
        StepView {
            to_peer: self.to_peer@,
            to_local: self.to_local@,
            local_eof: self.local_eof,
            stop_reading: self.stop_reading,
            done: self.done,
        }
    }
}

/// The place of the first session that can take one more stream, if there
/// is one. Where there is none, a new connection has to be made.
pub fn first_usable(usable: &[bool]) -> (r: Option<usize>)
    ensures
        match r {
            Some(i) => i < usable@.len() && usable@[i as int] && forall|j: int|
                0 <= j < i ==> !usable@[j],
            None => forall|j: int| 0 <= j < usable@.len() ==> !usable@[j],
        },
{
    let n: usize = usable.len();
    let mut i: usize = 0;
    while i < n
        invariant
            n == usable@.len(),
            i <= n,
            forall|j: int| 0 <= j < i ==> !usable@[j],
        decreases n - i,
    {
        if usable[i] {
            return Some(i);
        }
        i = i + 1;
    }
    None
}

/// Ending directions of one stream touches no other stream, and leaves the
/// session open: the other streams are in the table afterwards exactly if
/// they were before, with the same queue and the same state.
pub proof fn law_close_is_isolated(s: SessionView, id: u32, how: CloseKind, other: u32)
    requires
        other != id,
    ensures
        s.close(id, how).0.closed == s.closed,
        s.close(id, how).0.pending == s.pending,
        s.close(id, how).0.streams.contains_key(other) == s.streams.contains_key(other),
        s.streams.contains_key(other) ==> s.close(id, how).0.streams[other] == s.streams[other],
{
}

/// The bytes that announce `how` for stream `id`, or none.
pub open spec fn spec_announcement(id: u32, how: Option<CloseKind>) -> Seq<u8> {
    match how {
        Some(kind) => spec_encode_frame(FrameView::Close { stream: id, how: kind }),
        None => Seq::<u8>::empty(),
    }
}

/// What to write to the peer after a request to end directions of a
/// stream: the announcement where the request was met, nothing where it was
/// refused.
pub open spec fn spec_close_bytes(s: SessionView, id: u32, how: CloseKind) -> Seq<u8> {
    match s.close(id, how).1 {
        Ok(announce) => spec_announcement(id, announce),
        Err(_) => Seq::<u8>::empty(),
    }
}

fn close_bytes(session: &mut Session, id: u32, how: CloseKind) -> (out: Vec<u8>)
    requires
        old(session).wf(),
    ensures
        final(session).wf(),
        final(session)@ == old(session)@.close(id, how).0,
        out@ == spec_close_bytes(old(session)@, id, how),
{
    match session.close_stream(id, how) {
        Ok(bytes) => {
            assert(bytes@ =~= spec_close_bytes(old(session)@, id, how));
            bytes
        },
        Err(_) => {
            let out: Vec<u8> = Vec::new();
            assert(out@ =~= spec_close_bytes(old(session)@, id, how));
            out
        },
    }
}

/// The destination of stream `id` could not be resolved or reached. Both
/// directions of that stream are ended and the peer is told; the session
/// and its other streams go on.
pub fn connect_failed(session: &mut Session, id: u32) -> (to_peer: Vec<u8>)
    requires
        old(session).wf(),
    ensures
        final(session).wf(),
        final(session)@ == old(session)@.close(id, CloseKind::Both).0,
        final(session)@.closed == old(session)@.closed,
        to_peer@ == spec_close_bytes(old(session)@, id, CloseKind::Both),
{
    close_bytes(session, id, CloseKind::Both)
}

/// Nothing is left for the local side to read from stream `id`: its queue
/// is empty, or the stream is not open to the local side.
pub open spec fn drained(s: SessionView, id: u32) -> bool {
    !s.is_open(id) || s.streams[id].inbound.len() == 0
}

/// The relay of stream `id` is over: nothing more can happen on the
/// stream, and everything that arrived has been read.
pub open spec fn retires(s: SessionView, id: u32) -> bool {
    s.stream_closed(id) && drained(s, id)
}

/// The session and the bytes for the peer after the relay of stream `id`
/// has looked whether it is over. If it is, the local side ends what it
/// had not ended yet and announces it, so that the stream can leave the
/// table as soon as the peer has done the same. Otherwise nothing changes:
/// as long as bytes are queued the stream stays as it is, to be read.
pub open spec fn spec_retire(s: SessionView, id: u32) -> (SessionView, Seq<u8>) {
    if retires(s, id) {
        (s.close(id, CloseKind::Both).0, spec_close_bytes(s, id, CloseKind::Both))
    } else {
        (s, Seq::<u8>::empty())
    }
}

/// The session and the step after the local side can send no more on
/// stream `id`: its outbound direction is ended and announced, and the
/// relay is over if it then retires.
pub open spec fn spec_end_writing(s: SessionView, id: u32) -> (SessionView, StepView) {
    let ended = s.close(id, CloseKind::Write).0;
    (
        spec_retire(ended, id).0,
        StepView {
            to_peer: spec_close_bytes(s, id, CloseKind::Write) + spec_retire(ended, id).1,
            to_local: Seq::<u8>::empty(),
            local_eof: false,
            stop_reading: true,
            done: retires(ended, id),
        },
    )
}

/// The session and the step after the local socket gave `bytes`; none
/// means that it reached its end.
pub open spec fn spec_local_read(s: SessionView, id: u32, bytes: Seq<u8>) -> (
    SessionView,
    StepView,
) {
    if bytes.len() == 0 {
        spec_end_writing(s, id)
    } else {
        match s.send(id, bytes) {
            Ok(frames) => (
                s,
                StepView {
                    to_peer: frames,
                    to_local: Seq::<u8>::empty(),
                    local_eof: false,
                    stop_reading: false,
                    done: false,
                },
            ),
            Err(_) => spec_end_writing(s, id),
        }
    }
}

/// The session and the step after the relay has looked for bytes to read
/// from stream `id`.
pub open spec fn spec_stream_readable(s: SessionView, id: u32) -> (SessionView, StepView) {
    let read = s.receive(id).0;
    match s.receive(id).1 {
        ReceivedView::Bytes(b) => (
            read,
            StepView {
                to_peer: Seq::<u8>::empty(),
                to_local: b,
                local_eof: false,
                stop_reading: false,
                done: false,
            },
        ),
        ReceivedView::Pending => (
            read,
            StepView {
                to_peer: Seq::<u8>::empty(),
                to_local: Seq::<u8>::empty(),
                local_eof: false,
                stop_reading: false,
                done: false,
            },
        ),
        ReceivedView::Eof => (
            spec_retire(read, id).0,
            StepView {
                to_peer: spec_retire(read, id).1,
                to_local: Seq::<u8>::empty(),
                local_eof: true,
                stop_reading: false,
                done: retires(read, id),
            },
        ),
    }
}

/// The session and the step after the relay of stream `id` is broken off.
pub open spec fn spec_abort(s: SessionView, id: u32) -> (SessionView, StepView) {
    (
        s.close(id, CloseKind::Both).0,
        StepView {
            to_peer: spec_close_bytes(s, id, CloseKind::Both),
            to_local: Seq::<u8>::empty(),
            local_eof: false,
            stop_reading: true,
            done: true,
        },
    )
}

fn retire(session: &mut Session, id: u32) -> (r: (bool, Vec<u8>))
    requires
        old(session).wf(),
    ensures
        final(session).wf(),
        r.0 == retires(old(session)@, id),
        final(session)@ == spec_retire(old(session)@, id).0,
        r.1@ == spec_retire(old(session)@, id).1,
{
    if session.is_stream_closed(id) && !session.has_queued(id) {
        (true, close_bytes(session, id, CloseKind::Both))
    } else {
        (false, Vec::new())
    }
}

fn end_writing(session: &mut Session, id: u32) -> (step: Step)
    requires
        old(session).wf(),
    ensures
        final(session).wf(),
        final(session)@ == spec_end_writing(old(session)@, id).0,
        step@ == spec_end_writing(old(session)@, id).1,
{
    let mut to_peer = close_bytes(session, id, CloseKind::Write);
    let (done, rest) = retire(session, id);
    append_slice(&mut to_peer, rest.as_slice());
    Step { to_peer, to_local: Vec::new(), local_eof: false, stop_reading: true, done }
}

/// The local socket gave `bytes`; none means that it reached its end.
/// Bytes are sent on the stream. At the end of the socket, and where the
/// stream takes no more bytes, the stream's outbound direction is ended
/// and announced, and the local socket is to be read no more. The relay is
/// over only if the other direction has ended too and nothing is queued:
/// bytes that have arrived are never given up here, they stay to be read.
pub fn local_read(session: &mut Session, id: u32, bytes: &[u8]) -> (step: Step)
    requires
        old(session).wf(),
    ensures
        final(session).wf(),
        final(session)@ == spec_local_read(old(session)@, id, bytes@).0,
        step@ == spec_local_read(old(session)@, id, bytes@).1,
        step.to_local@.len() == 0,
        step.done ==> drained(old(session)@, id) && drained(final(session)@, id),
{
    proof {
        session.lemma_view_wf();
    }
    if bytes.len() > 0 {
        match session.send(id, bytes) {
            Ok(frames) => Step {
                to_peer: frames,
                to_local: Vec::new(),
                local_eof: false,
                stop_reading: false,
                done: false,
            },
            Err(_) => end_writing(session, id),
        }
    } else {
        end_writing(session, id)
    }
}

/// The stream may have something to read. What is queued goes to the local
/// socket. At the end of the stream the local socket is to be shut down
/// for writing; if the other direction has ended too, the relay is over and
/// the stream is retired.
pub fn stream_readable(session: &mut Session, id: u32) -> (step: Step)
    requires
        old(session).wf(),
    ensures
        final(session).wf(),
        final(session)@ == spec_stream_readable(old(session)@, id).0,
        step@ == spec_stream_readable(old(session)@, id).1,
        step.done ==> drained(final(session)@, id),
        step.done ==> step.to_local@.len() == 0,
{
    match session.receive(id) {
        Received::Bytes(b) => Step {
            to_peer: Vec::new(),
            to_local: b,
            local_eof: false,
            stop_reading: false,
            done: false,
        },
        Received::Pending => Step {
            to_peer: Vec::new(),
            to_local: Vec::new(),
            local_eof: false,
            stop_reading: false,
            done: false,
        },
        Received::Eof => {
            let (done, to_peer) = retire(session, id);
            Step { to_peer, to_local: Vec::new(), local_eof: true, stop_reading: false, done }
        },
    }
}

/// A relay that is over leaves nothing behind. It retires its stream only
/// when nothing is queued. On an open session the local side has then ended
/// both directions; the stream leaves the table at once if the peer had
/// ended both of its directions before, and otherwise with the stream-close
/// frame that completes what the peer has to announce.
pub proof fn law_retired_stream_leaves_the_table(s: SessionView, id: u32, how: CloseKind)
    requires
        !s.closed,
        s.is_open(id),
        retires(s, id),
    ensures
        s.streams[id].inbound.len() == 0,
        s.streams[id].got_read && s.streams[id].got_write ==> !spec_retire(
            s,
            id,
        ).0.streams.contains_key(id),
        spec_retire(s, id).0.streams.contains_key(id) ==> spec_retire(s, id).0.streams[id].sent_read
            && spec_retire(s, id).0.streams[id].sent_write,
        (s.streams[id].got_read || how.ends_read()) && (s.streams[id].got_write
            || how.ends_write()) ==> !spec_retire(s, id).0.apply(
            FrameView::Close { stream: id, how },
        ).0.streams.contains_key(id),
{
}

/// Shutdown was asked for, or the local socket failed. Both directions of
/// the stream are ended, the peer is told, and the relay is over. This is
/// the one step that gives up what is queued.
pub fn abort(session: &mut Session, id: u32) -> (step: Step)
    requires
        old(session).wf(),
    ensures
        final(session).wf(),
        final(session)@ == spec_abort(old(session)@, id).0,
        step@ == spec_abort(old(session)@, id).1,
{
    let to_peer = close_bytes(session, id, CloseKind::Both);
    Step { to_peer, to_local: Vec::new(), local_eof: false, stop_reading: true, done: true }
}

/// After a stream's connection attempt has failed, a stream that the peer
/// opens next on the same session is taken like any other: the failure
/// costs the session nothing but the place of the failed stream.
pub proof fn law_session_survives_failed_connect(
    s: SessionView,
    failed: u32,
    next: u32,
    dest: crate::address::DestinationView,
)
    requires
        s.wf(),
        !s.closed,
        s.role == crate::session::Role::Server,
        s.is_open(failed),
        next != failed,
        !s.streams.contains_key(next),
        s.streams.dom().len() < crate::session::MAX_STREAMS,
    ensures
        !s.close(failed, CloseKind::Both).0.closed,
        s.close(failed, CloseKind::Both).1 is Ok,
        s.close(failed, CloseKind::Both).0.apply(FrameView::Open { stream: next, dest }).1 == Ok::<
            crate::session::Event,
            crate::session::Violation,
        >(crate::session::Event::Opened(next)),
{
    let t = s.close(failed, CloseKind::Both).0;
    if t.streams.contains_key(failed) {
        assert(t.streams.dom() =~= s.streams.dom());
    } else {
        assert(t.streams.dom() =~= s.streams.dom().remove(failed));
    }
}

} // verus!
