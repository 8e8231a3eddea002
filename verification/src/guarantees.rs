//! What the session guarantees, stated over its model and proved.
//!
//! The functions of `session` say what one call does. The laws here say
//! what follows for runs of calls: that bytes sent on a stream arrive on
//! that stream and no other, whole and in order, however the frames of
//! different streams are interleaved; that a stream which the peer opened
//! is handed out with the destination that the peer encoded; and that
//! tearing a session down ends all of its streams.

use vstd::prelude::*;
use crate::address::DestinationView;
use crate::engine::{drained, retires, spec_local_read, spec_stream_readable};
use crate::frame::{
    law_frame_round_trip, spec_encode_frame, spec_parse, FrameView, ParseView, MAX_PAYLOAD,
};
use crate::session::{
    lemma_accept_wf, lemma_apply_wf, lemma_close_wf,
    data_frames, encode_frames, Event, Poll, ReceivedView, Role, SessionError, SessionView,
    Violation, HIGH_WATER, MAX_STREAMS, QUEUE_LIMIT,
};

verus! {

/// The session after the frames of `fs` have been applied in order.
pub open spec fn apply_all(s: SessionView, fs: Seq<FrameView>) -> SessionView
    decreases fs.len(),
{
    if fs.len() == 0 {
        s
    } else {
        apply_all(s.apply(fs[0]).0, fs.drop_first())
    }
}

/// None of the frames of `fs`, applied in order, is a violation.
pub open spec fn all_ok(s: SessionView, fs: Seq<FrameView>) -> bool
    decreases fs.len(),
{
    if fs.len() == 0 {
        true
    } else {
        s.apply(fs[0]).1 is Ok && all_ok(s.apply(fs[0]).0, fs.drop_first())
    }
}

/// The payloads of the data frames of `fs` that belong to stream `id`, in
/// order, as one byte string.
pub open spec fn payloads_for(fs: Seq<FrameView>, id: u32) -> Seq<u8>
    decreases fs.len(),
{
    if fs.len() == 0 {
        Seq::<u8>::empty()
    } else {
        let first = match fs[0] {
            FrameView::Data { stream, payload } => if stream == id {
                payload
            } else {
                Seq::<u8>::empty()
            },
            _ => Seq::<u8>::empty(),
        };
        first + payloads_for(fs.drop_first(), id)
    }
}

/// `b` is made of the encodings of the frames of `fs`, one after the other
/// and nothing else: a parser that takes frame after frame from `b` gets
/// exactly `fs`.
pub open spec fn parses_to(b: Seq<u8>, fs: Seq<FrameView>) -> bool
    decreases fs.len(),
{
    if fs.len() == 0 {
        b.len() == 0
    } else {
        match spec_parse(b) {
            ParseView::Frame(f, n) => f == fs[0] && n <= b.len() && parses_to(
                b.skip(n as int),
                fs.drop_first(),
            ),
            _ => false,
        }
    }
}

/// The session after `n` streams have been accepted.
pub open spec fn accept_times(s: SessionView, n: nat) -> SessionView
    decreases n,
{
    if n == 0 {
        s
    } else {
        accept_times(s.accept().0, (n - 1) as nat)
    }
}

/// Every operation keeps a well-formed session well formed.
pub proof fn law_wf_is_kept(s: SessionView, f: FrameView, dest: DestinationView, id: u32, how: crate::frame::CloseKind, bytes: Seq<u8>)
    requires
        s.wf(),
    ensures
        s.teardown().wf(),
        s.apply(f).0.wf(),
        s.open(dest).0.wf(),
        s.accept().0.wf(),
        s.receive(id).0.wf(),
        s.close(id, how).0.wf(),
        s.feed(bytes).wf(),
{
    lemma_apply_wf(s, f);
    lemma_accept_wf(s);
    lemma_close_wf(s, id, how);
    let r = s.receive(id).0;
    assert(r.wf()) by {
        if r.streams != s.streams {
            if s.streams[id].inbound.len() > 0 {
                assert(r.streams.dom() =~= s.streams.dom());
            }
        }
    }
    let o = s.open(dest).0;
    assert(o.wf()) by {
        if o != s {
            assert(!s.streams.contains_key(s.next_id));
        }
    }
}

/// A frame never touches a stream other than its own: whatever the frame
/// is, and whether or not it breaks the protocol, every other stream is in
/// the table afterwards exactly if it was before, with the same queue and
/// the same state.
pub proof fn law_streams_are_isolated(s: SessionView, f: FrameView, other: u32)
    requires
        f is Handshake || f.stream() != other,
    ensures
        s.apply(f).0.streams.contains_key(other) == s.streams.contains_key(other),
        s.streams.contains_key(other) ==> s.apply(f).0.streams[other] == s.streams[other],
{
}

/// A data frame for an open stream that is being read, with room in the
/// queue, adds its payload at the end of that stream's queue and changes
/// nothing else of the stream.
pub proof fn law_data_is_appended(s: SessionView, id: u32, payload: Seq<u8>)
    requires
        !s.closed,
        s.streams.contains_key(id),
        !s.streams[id].got_write,
        !s.streams[id].sent_read,
        s.streams[id].inbound.len() + payload.len() <= QUEUE_LIMIT,
    ensures
        s.apply(FrameView::Data { stream: id, payload }).1 == Ok::<Event, Violation>(
            Event::Data(id),
        ),
        s.apply(FrameView::Data { stream: id, payload }).0.streams[id] == (crate::session::StreamView {
            inbound: s.streams[id].inbound + payload,
            ..s.streams[id]
        }),
{
}

/// Byte-stream fidelity under interleaving. Take any run of frames that the
/// session accepts, for any mix of streams, that holds no stream-close
/// frame for stream `id`. Afterwards the queue of `id` holds what it held
/// before, followed by the payloads of the data frames for `id` in the
/// order of their arrival: nothing lost, nothing doubled, nothing from
/// another stream.
pub proof fn law_interleaved_delivery(s: SessionView, fs: Seq<FrameView>, id: u32)
    requires
        !s.closed,
        s.streams.contains_key(id),
        !s.streams[id].sent_read,
        all_ok(s, fs),
        forall|i: int|
            0 <= i < fs.len() ==> !(#[trigger] fs[i] matches FrameView::Close { stream, .. }
                && stream == id),
    ensures
        !apply_all(s, fs).closed,
        apply_all(s, fs).streams.contains_key(id),
        apply_all(s, fs).streams[id].inbound == s.streams[id].inbound + payloads_for(fs, id),
        apply_all(s, fs).streams[id].dest == s.streams[id].dest,
    decreases fs.len(),
{
    if fs.len() == 0 {
        assert(s.streams[id].inbound + Seq::<u8>::empty() =~= s.streams[id].inbound);
    } else {
        let f = fs[0];
        let t = s.apply(f).0;
        let rest = fs.drop_first();
        assert(!(f matches FrameView::Close { stream, .. } && stream == id));
        assert forall|i: int| 0 <= i < rest.len() implies !(#[trigger] rest[i] matches FrameView::Close {
            stream,
            ..
        } && stream == id) by {
            assert(rest[i] == fs[i + 1]);
        }
        law_interleaved_delivery(t, rest, id);
        let first = match f {
            FrameView::Data { stream, payload } => if stream == id {
                payload
            } else {
                Seq::<u8>::empty()
            },
            _ => Seq::<u8>::empty(),
        };
        assert(t.streams[id].inbound =~= s.streams[id].inbound + first);
        assert((s.streams[id].inbound + first) + payloads_for(rest, id) =~= s.streams[id].inbound
            + (first + payloads_for(rest, id)));
    }
}

/// The data frames that carry a byte string are well formed, belong to the
/// stream they were made for, and hold the byte string in order.
pub proof fn law_data_frames_carry_bytes(id: u32, bytes: Seq<u8>)
    ensures
        forall|i: int|
            0 <= i < data_frames(id, bytes).len() ==> (#[trigger] data_frames(id, bytes)[i]).wf()
                && data_frames(id, bytes)[i] is Data && data_frames(id, bytes)[i].stream() == id,
        payloads_for(data_frames(id, bytes), id) == bytes,
    decreases bytes.len(),
{
    if bytes.len() == 0 {
        assert(payloads_for(data_frames(id, bytes), id) =~= bytes);
    } else {
        let n: int = if bytes.len() <= MAX_PAYLOAD {
            bytes.len() as int
        } else {
            MAX_PAYLOAD as int
        };
        let head = FrameView::Data { stream: id, payload: bytes.take(n) };
        let tail = data_frames(id, bytes.skip(n));
        let all = data_frames(id, bytes);
        law_data_frames_carry_bytes(id, bytes.skip(n));
        assert(all == seq![head] + tail);
        assert(all[0] == head);
        assert(all.drop_first() =~= tail);
        assert forall|i: int| 0 <= i < all.len() implies (#[trigger] all[i]).wf() && all[i] is Data
            && all[i].stream() == id by {
            if i > 0 {
                assert(all[i] == tail[i - 1]);
            }
        }
        assert(bytes.take(n) + bytes.skip(n) =~= bytes);
    }
}

/// What `send` hands out parses back, frame by frame, into the data frames
/// that it was made of, and into nothing else.
pub proof fn law_encoded_frames_parse_back(fs: Seq<FrameView>)
    requires
        forall|i: int| 0 <= i < fs.len() ==> (#[trigger] fs[i]).wf(),
    ensures
        parses_to(encode_frames(fs), fs),
    decreases fs.len(),
{
    if fs.len() > 0 {
        let rest = fs.drop_first();
        assert forall|i: int| 0 <= i < rest.len() implies (#[trigger] rest[i]).wf() by {
            assert(rest[i] == fs[i + 1]);
        }
        law_encoded_frames_parse_back(rest);
        law_frame_round_trip(fs[0], encode_frames(rest));
        let b = encode_frames(fs);
        let n = spec_encode_frame(fs[0]).len();
        assert(b.skip(n as int) =~= encode_frames(rest));
    }
}

/// Byte-stream fidelity from end to end. The frames that one end makes for
/// `bytes` on a stream, applied at the other end where that stream is open,
/// is being read and has room for them, are all accepted and leave the
/// queue holding what it held before followed by exactly `bytes`.
pub proof fn law_sent_bytes_arrive(receiver: SessionView, id: u32, bytes: Seq<u8>)
    requires
        !receiver.closed,
        receiver.streams.contains_key(id),
        !receiver.streams[id].got_write,
        !receiver.streams[id].sent_read,
        receiver.streams[id].inbound.len() + bytes.len() <= QUEUE_LIMIT,
    ensures
        parses_to(encode_frames(data_frames(id, bytes)), data_frames(id, bytes)),
        all_ok(receiver, data_frames(id, bytes)),
        apply_all(receiver, data_frames(id, bytes)).streams.contains_key(id),
        apply_all(receiver, data_frames(id, bytes)).streams[id].inbound
            == receiver.streams[id].inbound + bytes,
{
    law_data_frames_carry_bytes(id, bytes);
    law_encoded_frames_parse_back(data_frames(id, bytes));
    lemma_data_frames_accepted(receiver, id, bytes);
    law_interleaved_delivery(receiver, data_frames(id, bytes), id);
}

proof fn lemma_data_frames_accepted(s: SessionView, id: u32, bytes: Seq<u8>)
    requires
        !s.closed,
        s.streams.contains_key(id),
        !s.streams[id].got_write,
        !s.streams[id].sent_read,
        s.streams[id].inbound.len() + bytes.len() <= QUEUE_LIMIT,
    ensures
        all_ok(s, data_frames(id, bytes)),
    decreases bytes.len(),
{
    if bytes.len() > 0 {
        let n: int = if bytes.len() <= MAX_PAYLOAD {
            bytes.len() as int
        } else {
            MAX_PAYLOAD as int
        };
        let head = FrameView::Data { stream: id, payload: bytes.take(n) };
        let tail = data_frames(id, bytes.skip(n));
        let all = data_frames(id, bytes);
        assert(all == seq![head] + tail);
        assert(all[0] == head);
        assert(all.drop_first() =~= tail);
        law_data_is_appended(s, id, bytes.take(n));
        lemma_data_frames_accepted(s.apply(head).0, id, bytes.skip(n));
    }
}

/// A stream-open frame travels without loss. Its encoding parses back into
/// the same frame, whatever follows it. A server with room for the stream
/// puts it last in the line of streams that wait to be accepted, with the
/// destination that was encoded.
pub proof fn law_open_frame_is_queued(s: SessionView, id: u32, dest: DestinationView, rest: Seq<u8>)
    requires
        s.wf(),
        dest.wf(),
        !s.closed,
        s.role == Role::Server,
        !s.streams.contains_key(id),
        s.streams.dom().len() < MAX_STREAMS,
    ensures
        spec_parse(spec_encode_frame(FrameView::Open { stream: id, dest }) + rest)
            == ParseView::Frame(
            FrameView::Open { stream: id, dest },
            spec_encode_frame(FrameView::Open { stream: id, dest }).len(),
        ),
        s.apply(FrameView::Open { stream: id, dest }).1 == Ok::<Event, Violation>(
            Event::Opened(id),
        ),
        s.apply(FrameView::Open { stream: id, dest }).0.wf(),
        s.apply(FrameView::Open { stream: id, dest }).0.pending == s.pending.push(id),
        s.apply(FrameView::Open { stream: id, dest }).0.streams[id].dest == dest,
{
    law_frame_round_trip(FrameView::Open { stream: id, dest }, rest);
    lemma_apply_wf(s, FrameView::Open { stream: id, dest });
}

/// Streams are accepted in the order in which the peer opened them, each
/// with the destination that it was opened with: the stream at place `k` of
/// the line is what the call after `k` earlier ones hands out.
pub proof fn law_accept_in_order(s: SessionView, k: nat)
    requires
        s.wf(),
        !s.closed,
        k < s.pending.len(),
    ensures
        accept_times(s, k).accept().1 == Some((s.pending[k as int], s.streams[s.pending[k as int]].dest)),
    decreases k,
{
    if k > 0 {
        let t = s.accept().0;
        lemma_accept_wf(s);
        assert(t.pending == s.pending.skip(1));
        assert(t.pending[k - 1] == s.pending[k as int]);
        assert(s.pending[0] != s.pending[k as int]);
        law_accept_in_order(t, (k - 1) as nat);
    }
}

/// A server that is sent a stream-open frame hands the stream out, after
/// the streams that were waiting before it, with exactly the destination
/// that the client encoded.
pub proof fn law_opened_stream_is_accepted(s: SessionView, id: u32, dest: DestinationView)
    requires
        s.wf(),
        dest.wf(),
        !s.closed,
        s.role == Role::Server,
        !s.streams.contains_key(id),
        s.streams.dom().len() < MAX_STREAMS,
    ensures
        accept_times(
            s.apply(FrameView::Open { stream: id, dest }).0,
            s.pending.len(),
        ).accept().1 == Some((id, dest)),
{
    let t = s.apply(FrameView::Open { stream: id, dest }).0;
    law_open_frame_is_queued(s, id, dest, Seq::<u8>::empty());
    law_accept_in_order(t, s.pending.len());
}

/// A session is usable exactly when a request to open a stream on it is
/// met, whatever the destination.
pub proof fn law_usable_session_opens(s: SessionView, dest: DestinationView)
    ensures
        s.usable() <==> s.open(dest).1 is Ok,
{
}

/// Tearing a session down ends every stream at once. No read waits any
/// more, nothing is left to accept, nothing can be sent or opened, and the
/// session takes no more input.
pub proof fn law_teardown_ends_every_stream(s: SessionView, id: u32, bytes: Seq<u8>, dest: DestinationView)
    ensures
        s.teardown().closed,
        s.teardown().stream_closed(id),
        s.teardown().receive(id).1 != ReceivedView::Pending,
        s.teardown().accept().1.is_none(),
        s.teardown().send(id, bytes) == Err::<Seq<u8>, SessionError>(SessionError::Closed),
        s.teardown().open(dest).1 == Err::<u32, SessionError>(SessionError::Closed),
        s.teardown().poll() == (s.teardown(), Poll::Closed),
        s.teardown().feed(bytes) == s.teardown(),
{
}

/// What was queued when a session was torn down can still be read, once:
/// the first read of a stream gives all of it, the next one reports the end,
/// and the stream is gone from the table.
pub proof fn law_queued_bytes_survive_teardown(s: SessionView, id: u32)
    requires
        s.is_open(id),
        s.streams[id].inbound.len() > 0,
    ensures
        s.teardown().receive(id).1 == ReceivedView::Bytes(s.streams[id].inbound),
        s.teardown().receive(id).0.receive(id).1 == ReceivedView::Eof,
        !s.teardown().receive(id).0.receive(id).0.streams.contains_key(id),
{
}

/// Tearing down twice is tearing down once.
pub proof fn law_teardown_is_idempotent(s: SessionView)
    ensures
        s.teardown().teardown() == s.teardown(),
{
}

/// A session that is open and not paused, and whose input starts with the
/// encoding of a frame, takes exactly that frame when it next looks at its
/// input: the frame is applied, and what followed it stays as input.
pub proof fn law_poll_takes_the_next_frame(s: SessionView, f: FrameView, rest: Seq<u8>)
    requires
        f.wf(),
        !s.closed,
        !s.paused(),
        s.rx == spec_encode_frame(f) + rest,
    ensures
        s.poll().0 == (SessionView { rx: rest, ..s }).apply(f).0,
        s.poll().1 == (match (SessionView { rx: rest, ..s }).apply(f).1 {
            Ok(e) => Poll::Event(e),
            Err(v) => Poll::Violation(v),
        }),
{
    law_frame_round_trip(f, rest);
    assert(s.rx.skip(spec_encode_frame(f).len() as int) =~= rest);
}

/// A session that takes its frames through `poll` never overruns a queue:
/// it stops above `HIGH_WATER`, and one frame more always fits below
/// `QUEUE_LIMIT`.
pub proof fn law_poll_never_overruns(s: SessionView)
    requires
        s.wf(),
    ensures
        s.poll().1 != Poll::Violation(Violation::QueueOverflow),
{
    if !s.closed && !s.paused() {
        match spec_parse(s.rx) {
            ParseView::Frame(f, n) => {
                if let FrameView::Data { stream, payload } = f {
                    assert(payload.len() <= MAX_PAYLOAD);
                    if s.streams.contains_key(stream) {
                        assert(s.streams[stream].inbound.len() <= HIGH_WATER);
                    }
                }
            },
            _ => {},
        }
    }
}


/// One thing that happens at the receiving end of a session: a frame
/// arrives from the peer, or the local side reads from a stream.
pub enum Move {
    Arrives(FrameView),
    Reads(u32),
}

/// The session after one move.
pub open spec fn after_move(s: SessionView, m: Move) -> SessionView {
    match m {
        Move::Arrives(f) => s.apply(f).0,
        Move::Reads(id) => s.receive(id).0,
    }
}

/// The move is in order: a frame that arrives is accepted.
pub open spec fn move_ok(s: SessionView, m: Move) -> bool {
    match m {
        Move::Arrives(f) => s.apply(f).1 is Ok,
        Move::Reads(_) => true,
    }
}

/// The bytes that the move hands to the reader of stream `id`.
pub open spec fn handed_by(s: SessionView, m: Move, id: u32) -> Seq<u8> {
    match m {
        Move::Reads(r) => if r == id {
            match s.receive(r).1 {
                ReceivedView::Bytes(b) => b,
                _ => Seq::<u8>::empty(),
            }
        } else {
            Seq::<u8>::empty()
        },
        Move::Arrives(_) => Seq::<u8>::empty(),
    }
}

/// The bytes that the move brings for stream `id`: the payload of a data
/// frame for it.
pub open spec fn brought_by(m: Move, id: u32) -> Seq<u8> {
    match m {
        Move::Arrives(FrameView::Data { stream, payload }) => if stream == id {
            payload
        } else {
            Seq::<u8>::empty()
        },
        _ => Seq::<u8>::empty(),
    }
}

/// The session after the moves of `ms`, in order.
pub open spec fn after_run(s: SessionView, ms: Seq<Move>) -> SessionView
    decreases ms.len(),
{
    if ms.len() == 0 {
        s
    } else {
        after_run(after_move(s, ms[0]), ms.drop_first())
    }
}

/// Every move of `ms`, made in order, is in order.
pub open spec fn run_ok(s: SessionView, ms: Seq<Move>) -> bool
    decreases ms.len(),
{
    if ms.len() == 0 {
        true
    } else {
        move_ok(s, ms[0]) && run_ok(after_move(s, ms[0]), ms.drop_first())
    }
}

/// All that the reads of stream `id` in `ms` hand out, in order.
pub open spec fn handed_out(s: SessionView, ms: Seq<Move>, id: u32) -> Seq<u8>
    decreases ms.len(),
{
    if ms.len() == 0 {
        Seq::<u8>::empty()
    } else {
        handed_by(s, ms[0], id) + handed_out(after_move(s, ms[0]), ms.drop_first(), id)
    }
}

/// All that the data frames of `ms` bring for stream `id`, in order.
pub open spec fn brought(ms: Seq<Move>, id: u32) -> Seq<u8>
    decreases ms.len(),
{
    if ms.len() == 0 {
        Seq::<u8>::empty()
    } else {
        brought_by(ms[0], id) + brought(ms.drop_first(), id)
    }
}

/// Byte-stream fidelity over any run. Let frames arrive and reads be made
/// in any order, for any mix of streams, stream-close frames included, and
/// let every frame be accepted. Then what the reads of stream `id` hand
/// out, followed by what is still queued at the end, is what was queued at
/// the start followed by the payloads of the data frames for `id`, in the
/// order of their arrival. No byte is lost, doubled, added or moved, also
/// across the boundaries of frames and of reads.
pub proof fn law_delivery_over_any_run(s: SessionView, ms: Seq<Move>, id: u32)
    requires
        !s.closed,
        s.streams.contains_key(id),
        !s.streams[id].sent_read,
        run_ok(s, ms),
    ensures
        !after_run(s, ms).closed,
        after_run(s, ms).streams.contains_key(id),
        handed_out(s, ms, id) + after_run(s, ms).streams[id].inbound == s.streams[id].inbound
            + brought(ms, id),
    decreases ms.len(),
{
    if ms.len() == 0 {
        assert(handed_out(s, ms, id) + s.streams[id].inbound =~= s.streams[id].inbound + brought(
            ms,
            id,
        ));
    } else {
        let m = ms[0];
        let t = after_move(s, m);
        let rest = ms.drop_first();
        assert(!t.closed);
        assert(t.streams.contains_key(id));
        assert(!t.streams[id].sent_read);
        assert(handed_by(s, m, id) + t.streams[id].inbound =~= s.streams[id].inbound + brought_by(
            m,
            id,
        ));
        law_delivery_over_any_run(t, rest, id);
        let end = after_run(t, rest).streams[id].inbound;
        assert((handed_by(s, m, id) + handed_out(t, rest, id)) + end =~= handed_by(s, m, id) + (
        handed_out(t, rest, id) + end));
        assert(handed_by(s, m, id) + (t.streams[id].inbound + brought(rest, id)) =~= (handed_by(
            s,
            m,
            id,
        ) + t.streams[id].inbound) + brought(rest, id));
        assert((s.streams[id].inbound + brought_by(m, id)) + brought(rest, id)
            =~= s.streams[id].inbound + (brought_by(m, id) + brought(rest, id)));
    }
}

/// Stream `b` is the same in both sessions: in both tables or in neither,
/// with the same queue and the same state.
pub open spec fn same_stream(s1: SessionView, s2: SessionView, b: u32) -> bool {
    s1.streams.contains_key(b) == s2.streams.contains_key(b) && (s1.streams.contains_key(b)
        ==> s1.streams[b] == s2.streams[b])
}

/// The two moves are the same, or both are data frames for stream `a`.
pub open spec fn same_but_for(m1: Move, m2: Move, a: u32) -> bool {
    m1 == m2 || (is_data_for(m1, a) && is_data_for(m2, a))
}

/// The move is the arrival of a data frame for stream `a`.
pub open spec fn is_data_for(m: Move, a: u32) -> bool {
    match m {
        Move::Arrives(FrameView::Data { stream, .. }) => stream == a,
        _ => false,
    }
}

proof fn lemma_two_runs(
    s1: SessionView,
    s2: SessionView,
    ms1: Seq<Move>,
    ms2: Seq<Move>,
    a: u32,
    b: u32,
)
    requires
        a != b,
        !s1.closed,
        !s2.closed,
        same_stream(s1, s2, b),
        ms1.len() == ms2.len(),
        run_ok(s1, ms1),
        run_ok(s2, ms2),
        forall|i: int| 0 <= i < ms1.len() ==> same_but_for(#[trigger] ms1[i], ms2[i], a),
    ensures
        handed_out(s1, ms1, b) == handed_out(s2, ms2, b),
        same_stream(after_run(s1, ms1), after_run(s2, ms2), b),
    decreases ms1.len(),
{
    if ms1.len() > 0 {
        let m1 = ms1[0];
        let m2 = ms2[0];
        let t1 = after_move(s1, m1);
        let t2 = after_move(s2, m2);
        let r1 = ms1.drop_first();
        let r2 = ms2.drop_first();
        assert(same_but_for(m1, m2, a));
        assert(!t1.closed && !t2.closed);
        assert(same_stream(t1, t2, b));
        assert(handed_by(s1, m1, b) == handed_by(s2, m2, b));
        assert forall|i: int| 0 <= i < r1.len() implies same_but_for(#[trigger] r1[i], r2[i], a) by {
            assert(r1[i] == ms1[i + 1]);
            assert(r2[i] == ms2[i + 1]);
            assert(same_but_for(ms1[i + 1], ms2[i + 1], a));
        }
        lemma_two_runs(t1, t2, r1, r2, a, b);
    }
}

/// Non-interference between two whole runs. Take two runs from the same
/// session that differ only in the payloads of the data frames for stream
/// `a`, with every frame accepted in both. Then every other stream `b`
/// fares the same in both: its reads hand out the same bytes, and at the
/// end it has the same queue and the same state. By
/// `law_delivery_over_any_run` those bytes are the payloads of the frames
/// for `b` alone; no byte of a frame for `a` reaches `b`.
pub proof fn law_other_streams_do_not_interfere(
    s: SessionView,
    ms1: Seq<Move>,
    ms2: Seq<Move>,
    a: u32,
    b: u32,
)
    requires
        a != b,
        !s.closed,
        ms1.len() == ms2.len(),
        run_ok(s, ms1),
        run_ok(s, ms2),
        forall|i: int| 0 <= i < ms1.len() ==> same_but_for(#[trigger] ms1[i], ms2[i], a),
    ensures
        handed_out(s, ms1, b) == handed_out(s, ms2, b),
        same_stream(after_run(s, ms1), after_run(s, ms2), b),
        brought(ms1, b) == brought(ms2, b),
{
    lemma_two_runs(s, s, ms1, ms2, a, b);
    lemma_same_brought(ms1, ms2, a, b);
}

proof fn lemma_same_brought(ms1: Seq<Move>, ms2: Seq<Move>, a: u32, b: u32)
    requires
        a != b,
        ms1.len() == ms2.len(),
        forall|i: int| 0 <= i < ms1.len() ==> same_but_for(#[trigger] ms1[i], ms2[i], a),
    ensures
        brought(ms1, b) == brought(ms2, b),
    decreases ms1.len(),
{
    if ms1.len() > 0 {
        let r1 = ms1.drop_first();
        let r2 = ms2.drop_first();
        assert(same_but_for(ms1[0], ms2[0], a));
        assert forall|i: int| 0 <= i < r1.len() implies same_but_for(#[trigger] r1[i], r2[i], a) by {
            assert(r1[i] == ms1[i + 1]);
            assert(r2[i] == ms2[i + 1]);
            assert(same_but_for(ms1[i + 1], ms2[i + 1], a));
        }
        lemma_same_brought(r1, r2, a, b);
    }
}

/// The byte strings of `chunks`, one after the other.
pub open spec fn joined(chunks: Seq<Seq<u8>>) -> Seq<u8>
    decreases chunks.len(),
{
    if chunks.len() == 0 {
        Seq::<u8>::empty()
    } else {
        chunks[0] + joined(chunks.drop_first())
    }
}

/// The data frames that successive calls of `send` on stream `id` make for
/// the byte strings of `chunks`.
pub open spec fn sent_frames(id: u32, chunks: Seq<Seq<u8>>) -> Seq<FrameView>
    decreases chunks.len(),
{
    if chunks.len() == 0 {
        Seq::<FrameView>::empty()
    } else {
        data_frames(id, chunks[0]) + sent_frames(id, chunks.drop_first())
    }
}

proof fn lemma_payloads_of_two(fs1: Seq<FrameView>, fs2: Seq<FrameView>, id: u32)
    ensures
        payloads_for(fs1 + fs2, id) == payloads_for(fs1, id) + payloads_for(fs2, id),
    decreases fs1.len(),
{
    if fs1.len() == 0 {
        assert(fs1 + fs2 =~= fs2);
        assert(payloads_for(fs1, id) + payloads_for(fs2, id) =~= payloads_for(fs2, id));
    } else {
        let all = fs1 + fs2;
        assert(all[0] == fs1[0]);
        assert(all.drop_first() =~= fs1.drop_first() + fs2);
        lemma_payloads_of_two(fs1.drop_first(), fs2, id);
        let first = match fs1[0] {
            FrameView::Data { stream, payload } => if stream == id {
                payload
            } else {
                Seq::<u8>::empty()
            },
            _ => Seq::<u8>::empty(),
        };
        assert(first + (payloads_for(fs1.drop_first(), id) + payloads_for(fs2, id)) =~= (first
            + payloads_for(fs1.drop_first(), id)) + payloads_for(fs2, id));
    }
}

/// What is sent on a stream in several calls travels as what was handed
/// over, in order: the payloads of all the frames made, one after the
/// other, are the byte strings of the calls, one after the other. Every
/// frame is a whole data frame of the stream with at most `MAX_PAYLOAD`
/// bytes.
pub proof fn law_sent_chunks_carry_bytes(id: u32, chunks: Seq<Seq<u8>>)
    ensures
        payloads_for(sent_frames(id, chunks), id) == joined(chunks),
        forall|i: int|
            0 <= i < sent_frames(id, chunks).len() ==> (#[trigger] sent_frames(id, chunks)[i]).wf()
                && sent_frames(id, chunks)[i] is Data && sent_frames(id, chunks)[i].stream() == id
                && sent_frames(id, chunks)[i].payload().len() <= MAX_PAYLOAD,
    decreases chunks.len(),
{
    if chunks.len() > 0 {
        let head = data_frames(id, chunks[0]);
        let tail = sent_frames(id, chunks.drop_first());
        law_data_frames_carry_bytes(id, chunks[0]);
        law_sent_chunks_carry_bytes(id, chunks.drop_first());
        lemma_payloads_of_two(head, tail, id);
        let all = sent_frames(id, chunks);
        assert forall|i: int| 0 <= i < all.len() implies (#[trigger] all[i]).wf() && all[i] is Data
            && all[i].stream() == id && all[i].payload().len() <= MAX_PAYLOAD by {
            if i < head.len() {
                assert(all[i] == head[i]);
            } else {
                assert(all[i] == tail[i - head.len()]);
            }
        }
    }
}


/// One thing that happens to a session while relays run on it: a frame
/// arrives from the peer, the local socket of a stream gives bytes (none at
/// its end), or the relay of a stream looks for bytes to read.
pub enum RelayMove {
    Arrives(FrameView),
    Local(u32, Seq<u8>),
    Readable(u32),
}

/// The session after one move of a relay.
pub open spec fn relay_after(s: SessionView, m: RelayMove) -> SessionView {
    match m {
        RelayMove::Arrives(f) => s.apply(f).0,
        RelayMove::Local(id, bytes) => spec_local_read(s, id, bytes).0,
        RelayMove::Readable(id) => spec_stream_readable(s, id).0,
    }
}

/// The move is in order: a frame that arrives is accepted.
pub open spec fn relay_ok(s: SessionView, m: RelayMove) -> bool {
    match m {
        RelayMove::Arrives(f) => s.apply(f).1 is Ok,
        _ => true,
    }
}

/// The bytes that the move has written to the local socket of stream `id`.
pub open spec fn relay_writes(s: SessionView, m: RelayMove, id: u32) -> Seq<u8> {
    match m {
        RelayMove::Arrives(_) => Seq::<u8>::empty(),
        RelayMove::Local(r, bytes) => if r == id {
            spec_local_read(s, r, bytes).1.to_local
        } else {
            Seq::<u8>::empty()
        },
        RelayMove::Readable(r) => if r == id {
            spec_stream_readable(s, r).1.to_local
        } else {
            Seq::<u8>::empty()
        },
    }
}

/// The move is a step of the relay of stream `id` that says the relay is
/// over.
pub open spec fn relay_done(s: SessionView, m: RelayMove, id: u32) -> bool {
    match m {
        RelayMove::Arrives(_) => false,
        RelayMove::Local(r, bytes) => r == id && spec_local_read(s, r, bytes).1.done,
        RelayMove::Readable(r) => r == id && spec_stream_readable(s, r).1.done,
    }
}

/// The bytes that the move brings for stream `id`.
pub open spec fn relay_brings(m: RelayMove, id: u32) -> Seq<u8> {
    match m {
        RelayMove::Arrives(FrameView::Data { stream, payload }) => if stream == id {
            payload
        } else {
            Seq::<u8>::empty()
        },
        _ => Seq::<u8>::empty(),
    }
}

/// The move opens stream `id` anew.
pub open spec fn relay_opens(m: RelayMove, id: u32) -> bool {
    match m {
        RelayMove::Arrives(FrameView::Open { stream, .. }) => stream == id,
        _ => false,
    }
}

/// The session after the moves of `ms`, in order.
pub open spec fn relay_run(s: SessionView, ms: Seq<RelayMove>) -> SessionView
    decreases ms.len(),
{
    if ms.len() == 0 {
        s
    } else {
        relay_run(relay_after(s, ms[0]), ms.drop_first())
    }
}

/// Every move of `ms`, made in order, is in order.
pub open spec fn relay_run_ok(s: SessionView, ms: Seq<RelayMove>) -> bool
    decreases ms.len(),
{
    if ms.len() == 0 {
        true
    } else {
        relay_ok(s, ms[0]) && relay_run_ok(relay_after(s, ms[0]), ms.drop_first())
    }
}

/// All that the moves of `ms` write to the local socket of stream `id`.
pub open spec fn relay_written(s: SessionView, ms: Seq<RelayMove>, id: u32) -> Seq<u8>
    decreases ms.len(),
{
    if ms.len() == 0 {
        Seq::<u8>::empty()
    } else {
        relay_writes(s, ms[0], id) + relay_written(relay_after(s, ms[0]), ms.drop_first(), id)
    }
}

/// All that the data frames of `ms` bring for stream `id`.
pub open spec fn relay_brought(ms: Seq<RelayMove>, id: u32) -> Seq<u8>
    decreases ms.len(),
{
    if ms.len() == 0 {
        Seq::<u8>::empty()
    } else {
        relay_brings(ms[0], id) + relay_brought(ms.drop_first(), id)
    }
}

/// What is queued for stream `id`: nothing if it is not in the table.
pub open spec fn queued(s: SessionView, id: u32) -> Seq<u8> {
    if s.streams.contains_key(id) {
        s.streams[id].inbound
    } else {
        Seq::<u8>::empty()
    }
}

/// The session is open, and stream `id`, if it is in the table, has not
/// ended its reading unless the peer has ended its writing and nothing is
/// queued. Every session that is led by the relay steps is like this.
pub open spec fn relayed(s: SessionView, id: u32) -> bool {
    !s.closed && (s.streams.contains_key(id) && s.streams[id].sent_read
        ==> s.streams[id].got_write && s.streams[id].inbound.len() == 0)
}

/// Stream `id` is accepted if it is in the table.
pub open spec fn known(s: SessionView, id: u32) -> bool {
    s.streams.contains_key(id) ==> s.streams[id].accepted
}

proof fn lemma_close_of_other(s: SessionView, r: u32, how: crate::frame::CloseKind, id: u32)
    requires
        r != id,
    ensures
        same_stream(s.close(r, how).0, s, id),
        s.close(r, how).0.closed == s.closed,
{
}

proof fn lemma_close_write(s: SessionView, id: u32)
    requires
        relayed(s, id),
    ensures
        relayed(s.close(id, crate::frame::CloseKind::Write).0, id),
        queued(s.close(id, crate::frame::CloseKind::Write).0, id) == queued(s, id),
        known(s, id) ==> known(s.close(id, crate::frame::CloseKind::Write).0, id),
{
    let t = s.close(id, crate::frame::CloseKind::Write).0;
    assert(queued(t, id) =~= queued(s, id));
}

proof fn lemma_retire(s: SessionView, r: u32, id: u32)
    requires
        relayed(s, id),
    ensures
        relayed(crate::engine::spec_retire(s, r).0, id),
        queued(crate::engine::spec_retire(s, r).0, id) == queued(s, id),
        known(s, id) ==> known(crate::engine::spec_retire(s, r).0, id),
{
    let t = crate::engine::spec_retire(s, r).0;
    if r != id {
        lemma_close_of_other(s, r, crate::frame::CloseKind::Both, id);
    }
    assert(queued(t, id) =~= queued(s, id));
}

proof fn lemma_end_writing(s: SessionView, r: u32, id: u32)
    requires
        relayed(s, id),
    ensures
        relayed(crate::engine::spec_end_writing(s, r).0, id),
        queued(crate::engine::spec_end_writing(s, r).0, id) == queued(s, id),
        known(s, id) ==> known(crate::engine::spec_end_writing(s, r).0, id),
        crate::engine::spec_end_writing(s, r).1.to_local.len() == 0,
{
    let ended = s.close(r, crate::frame::CloseKind::Write).0;
    if r == id {
        lemma_close_write(s, id);
    } else {
        lemma_close_of_other(s, r, crate::frame::CloseKind::Write, id);
        assert(queued(ended, id) =~= queued(s, id));
    }
    lemma_retire(ended, r, id);
}

proof fn lemma_local(s: SessionView, r: u32, bytes: Seq<u8>, id: u32)
    requires
        relayed(s, id),
    ensures
        relayed(spec_local_read(s, r, bytes).0, id),
        queued(spec_local_read(s, r, bytes).0, id) == queued(s, id),
        known(s, id) ==> known(spec_local_read(s, r, bytes).0, id),
        spec_local_read(s, r, bytes).1.to_local.len() == 0,
{
    lemma_end_writing(s, r, id);
}

proof fn lemma_readable(s: SessionView, r: u32, id: u32)
    requires
        relayed(s, id),
    ensures
        relayed(spec_stream_readable(s, r).0, id),
        r == id ==> spec_stream_readable(s, r).1.to_local + queued(
            spec_stream_readable(s, r).0,
            id,
        ) == queued(s, id),
        r != id ==> queued(spec_stream_readable(s, r).0, id) == queued(s, id),
        known(s, id) ==> known(spec_stream_readable(s, r).0, id),
{
    let read = s.receive(r).0;
    assert(relayed(read, id));
    assert(known(s, id) ==> known(read, id));
    lemma_retire(read, r, id);
    let t = spec_stream_readable(s, r).0;
    if r == id {
        assert(spec_stream_readable(s, r).1.to_local + queued(t, id) =~= queued(s, id));
    } else {
        assert(queued(read, id) =~= queued(s, id));
    }
}

proof fn lemma_arrives(s: SessionView, f: FrameView, id: u32)
    requires
        relayed(s, id),
        s.apply(f).1 is Ok,
    ensures
        relayed(s.apply(f).0, id),
        queued(s.apply(f).0, id) == queued(s, id) + relay_brings(RelayMove::Arrives(f), id),
        known(s, id) && !relay_opens(RelayMove::Arrives(f), id) ==> known(s.apply(f).0, id),
{
    let t = s.apply(f).0;
    assert(queued(t, id) =~= queued(s, id) + relay_brings(RelayMove::Arrives(f), id));
}

proof fn lemma_relay_move(s: SessionView, m: RelayMove, id: u32)
    requires
        relayed(s, id),
        relay_ok(s, m),
    ensures
        relayed(relay_after(s, m), id),
        relay_writes(s, m, id) + queued(relay_after(s, m), id) == queued(s, id) + relay_brings(
            m,
            id,
        ),
        known(s, id) && !relay_opens(m, id) ==> known(relay_after(s, m), id),
{
    let t = relay_after(s, m);
    match m {
        RelayMove::Arrives(f) => {
            lemma_arrives(s, f, id);
        },
        RelayMove::Local(r, bytes) => {
            lemma_local(s, r, bytes, id);
        },
        RelayMove::Readable(r) => {
            lemma_readable(s, r, id);
        },
    }
    assert(relay_writes(s, m, id) + queued(t, id) =~= queued(s, id) + relay_brings(m, id));
}

/// Byte-stream fidelity of the relay. Let frames arrive, local sockets
/// give bytes or reach their end, and relays look for bytes to read, in any
/// order and for any mix of streams, with every frame accepted. Then what
/// has been written to the local socket of stream `id`, followed by what
/// is still queued for it, is what was queued at the start followed by the
/// payloads of the data frames for `id` in the order of their arrival. No
/// step of a relay gives up a byte that has arrived.
pub proof fn law_relay_conserves_bytes(s: SessionView, ms: Seq<RelayMove>, id: u32)
    requires
        relayed(s, id),
        relay_run_ok(s, ms),
    ensures
        relayed(relay_run(s, ms), id),
        relay_written(s, ms, id) + queued(relay_run(s, ms), id) == queued(s, id) + relay_brought(
            ms,
            id,
        ),
    decreases ms.len(),
{
    if ms.len() == 0 {
        assert(relay_written(s, ms, id) + queued(s, id) =~= queued(s, id) + relay_brought(ms, id));
    } else {
        let m = ms[0];
        let t = relay_after(s, m);
        let rest = ms.drop_first();
        lemma_relay_move(s, m, id);
        law_relay_conserves_bytes(t, rest, id);
        let end = queued(relay_run(t, rest), id);
        assert((relay_writes(s, m, id) + relay_written(t, rest, id)) + end =~= relay_writes(s, m, id)
            + (relay_written(t, rest, id) + end));
        assert(relay_writes(s, m, id) + (queued(t, id) + relay_brought(rest, id)) =~= (
        relay_writes(s, m, id) + queued(t, id)) + relay_brought(rest, id));
        assert((queued(s, id) + relay_brings(m, id)) + relay_brought(rest, id) =~= queued(s, id) + (
        relay_brings(m, id) + relay_brought(rest, id)));
    }
}

proof fn lemma_relay_stays_accepted(s: SessionView, ms: Seq<RelayMove>, id: u32)
    requires
        relayed(s, id),
        relay_run_ok(s, ms),
        known(s, id),
        forall|i: int| 0 <= i < ms.len() ==> !relay_opens(#[trigger] ms[i], id),
    ensures
        known(relay_run(s, ms), id),
    decreases ms.len(),
{
    if ms.len() > 0 {
        let rest = ms.drop_first();
        assert(!relay_opens(ms[0], id));
        lemma_relay_move(s, ms[0], id);
        assert forall|i: int| 0 <= i < rest.len() implies !relay_opens(#[trigger] rest[i], id) by {
            assert(rest[i] == ms[i + 1]);
        }
        lemma_relay_stays_accepted(relay_after(s, ms[0]), rest, id);
    }
}

/// When a relay says that it is over, everything has been handed out. Take
/// a stream that is open to the local side, and any run of moves as in
/// `law_relay_conserves_bytes` in which the stream is not opened anew. If
/// the step of the relay that follows the run says `done`, then all that
/// the relay has written to the local socket, this step included, is what
/// was queued at the start followed by every payload that the data frames
/// brought for the stream: the queue is empty when the socket is dropped.
pub proof fn law_done_means_all_handed_out(
    s: SessionView,
    ms: Seq<RelayMove>,
    last: RelayMove,
    id: u32,
)
    requires
        relayed(s, id),
        s.is_open(id),
        relay_run_ok(s, ms),
        forall|i: int| 0 <= i < ms.len() ==> !relay_opens(#[trigger] ms[i], id),
        relay_done(relay_run(s, ms), last, id),
    ensures
        relay_written(s, ms, id) + relay_writes(relay_run(s, ms), last, id) == queued(s, id)
            + relay_brought(ms, id),
        queued(relay_after(relay_run(s, ms), last), id).len() == 0,
{
    let mid = relay_run(s, ms);
    law_relay_conserves_bytes(s, ms, id);
    lemma_relay_stays_accepted(s, ms, id);
    lemma_relay_move(mid, last, id);
    assert(queued(mid, id).len() == 0);
    assert(relay_writes(mid, last, id).len() == 0);
    assert(relay_written(s, ms, id) + relay_writes(mid, last, id) =~= relay_written(s, ms, id)
        + queued(mid, id));
}

/// What is queued when a session fails is still written. After a teardown
/// with bytes queued on a stream, a step for the local socket changes
/// nothing and does not end the relay; the next look for bytes hands out
/// the whole queue; and the look after that brings the end of the stream
/// and ends the relay, with the stream gone from the table.
pub proof fn law_queue_is_written_after_teardown(s: SessionView, id: u32, bytes: Seq<u8>)
    requires
        s.is_open(id),
        s.streams[id].inbound.len() > 0,
    ensures
        spec_local_read(s.teardown(), id, bytes).0 == s.teardown(),
        !spec_local_read(s.teardown(), id, bytes).1.done,
        spec_local_read(s.teardown(), id, bytes).1.to_peer.len() == 0,
        spec_stream_readable(s.teardown(), id).1.to_local == s.streams[id].inbound,
        !spec_stream_readable(s.teardown(), id).1.done,
        !spec_stream_readable(s.teardown(), id).1.local_eof,
        spec_stream_readable(spec_stream_readable(s.teardown(), id).0, id).1.local_eof,
        spec_stream_readable(spec_stream_readable(s.teardown(), id).0, id).1.done,
        spec_stream_readable(spec_stream_readable(s.teardown(), id).0, id).1.to_local.len() == 0,
        !spec_stream_readable(spec_stream_readable(s.teardown(), id).0, id).0.streams.contains_key(
            id,
        ),
{
}

} // verus!
