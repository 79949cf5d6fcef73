//! What holds of the frames on the send path and the receive path together.
use vstd::prelude::*;

use crate::codec::{receive, Received};
use crate::delimited::{delimit, Delimited};
use crate::endian::{
    be_bytes, be_value, le_bytes, lemma_be_round_trip, lemma_le_round_trip, word,
};
use crate::error::{frame_error_kind, ErrorKind, FrameError};
use crate::sink::{
    close_action, flush_action, flush_state, start_frame, CloseAction, FlushEvent, InFlight,
};
use crate::zerocopy::{
    body_bytes, encode_outcome, frame_payload, split_payload, wire_frame, MAX_FRAME_LEN,
};

verus! {

/// The body that arrives when `body` is sent: an empty body arrives as none.
pub open spec fn delivered(body: Option<Seq<u8>>) -> Option<Seq<u8>> {
    if body_bytes(body).len() > 0 {
        body
    } else {
        None
    }
}

/// Taking a frame apart gives back the envelope and the body that it was made
/// of, as long as the body's length fits its 32-bit suffix.
pub proof fn frame_splits_into_its_parts(envelope: Seq<u8>, body: Option<Seq<u8>>)
    requires
        body_bytes(body).len() < word(),
    ensures
        split_payload(frame_payload(envelope, body)) == Ok::<
            (Seq<u8>, Option<Seq<u8>>),
            FrameError,
        >((envelope, delivered(body))),
{
    let frame = frame_payload(envelope, body);
    let n = body_bytes(body).len();
    let rest = frame.take(frame.len() - 4);
    assert(rest =~= envelope + body_bytes(body));
    assert(frame.skip(frame.len() - 4) =~= le_bytes(n) + Seq::<u8>::empty());
    lemma_le_round_trip(n, Seq::empty());
    assert(rest.take(rest.len() - n) =~= envelope);
    assert(rest.skip(rest.len() - n) =~= body_bytes(body));
}

/// The length prefix of a frame on the wire counts everything behind it: the
/// envelope, the body and the four bytes of the body's length.
pub proof fn length_prefix_counts_the_payload(envelope: Seq<u8>, body: Option<Seq<u8>>)
    requires
        envelope.len() + body_bytes(body).len() + 4 < word(),
    ensures
        be_value(wire_frame(envelope, body)) == envelope.len() + body_bytes(body).len() + 4,
        wire_frame(envelope, body).len() == 4 + be_value(wire_frame(envelope, body)),
{
    let payload = frame_payload(envelope, body);
    lemma_be_round_trip(payload.len(), payload);
}

/// A payload behind its length is delimited as itself.
proof fn lemma_payload_is_delimited(payload: Seq<u8>, rest: Seq<u8>)
    requires
        payload.len() <= MAX_FRAME_LEN,
    ensures
        delimit(MAX_FRAME_LEN, None, be_bytes(payload.len()) + payload + rest) == (
        Delimited::Frame { frame: payload, rest }),
{
    let prefix = be_bytes(payload.len());
    let behind = payload + rest;
    let input = prefix + payload + rest;
    lemma_be_round_trip(payload.len(), behind);
    assert(input =~= prefix + behind);
    assert(input.skip(4) =~= behind);
    assert(behind.take(payload.len() as int) =~= payload);
    assert(behind.skip(payload.len() as int) =~= rest);
}

/// A frame on the wire is received as the envelope and the body that were
/// sent, and nothing behind it is touched.
pub proof fn sent_frame_is_received(envelope: Seq<u8>, body: Option<Seq<u8>>, rest: Seq<u8>)
    requires
        frame_payload(envelope, body).len() <= MAX_FRAME_LEN,
    ensures
        receive(None, wire_frame(envelope, body) + rest) == (Received {
            frame: Ok(Some((envelope, delivered(body)))),
            awaited: None,
            rest,
        }),
{
    lemma_payload_is_delimited(frame_payload(envelope, body), rest);
    frame_splits_into_its_parts(envelope, body);
}

/// A step that waits loses nothing: going on with more input gives the answer
/// that all of the input would have given at once.
pub proof fn waiting_loses_no_input(awaited: Option<usize>, input: Seq<u8>, more: Seq<u8>)
    requires
        receive(awaited, input).frame == Ok::<
            Option<(Seq<u8>, Option<Seq<u8>>)>,
            FrameError,
        >(None),
    ensures
        receive(receive(awaited, input).awaited, receive(awaited, input).rest + more) == receive(
            awaited,
            input + more,
        ),
{
    if awaited is None && input.len() >= 4 {
        assert((input + more).skip(4) =~= input.skip(4) + more);
    }
}

/// An answer does not depend on input behind the frame it is about: that input
/// is left for the next step.
pub proof fn answer_ignores_later_input(awaited: Option<usize>, input: Seq<u8>, more: Seq<u8>)
    requires
        receive(awaited, input).frame != Ok::<
            Option<(Seq<u8>, Option<Seq<u8>>)>,
            FrameError,
        >(None),
    ensures
        receive(awaited, input + more) == (Received {
            frame: receive(awaited, input).frame,
            awaited: receive(awaited, input).awaited,
            rest: receive(awaited, input).rest + more,
        }),
{
    match awaited {
        Some(n) => {
            assert((input + more).take(n as int) =~= input.take(n as int));
            assert((input + more).skip(n as int) =~= input.skip(n as int) + more);
        },
        None => {
            let n = be_value(input) as int;
            assert((input + more).skip(4) =~= input.skip(4) + more);
            if n <= MAX_FRAME_LEN {
                assert((input.skip(4) + more).take(n) =~= input.skip(4).take(n));
                assert((input.skip(4) + more).skip(n) =~= input.skip(4).skip(n) + more);
            }
        },
    }
}

/// What a connection has received.
pub ghost struct Drained {
    /// The frames, in order.
    pub frames: Seq<(Seq<u8>, Option<Seq<u8>>)>,
    /// The error that ended the connection.
    pub failure: Option<FrameError>,
    /// The length of the frame that is awaited.
    pub awaited: Option<usize>,
    /// The input that is left.
    pub rest: Seq<u8>,
}

/// Receiving until the input holds no further frame, or one that is refused.
pub open spec fn drain(awaited: Option<usize>, input: Seq<u8>) -> Drained
    decreases input.len(),
{
    let step = receive(awaited, input);
    match step.frame {
        Ok(Some(frame)) => {
            let later = drain(step.awaited, step.rest);
            Drained {
                frames: seq![frame] + later.frames,
                failure: later.failure,
                awaited: later.awaited,
                rest: later.rest,
            }
        },
        Ok(None) => Drained {
            frames: Seq::empty(),
            failure: None,
            awaited: step.awaited,
            rest: step.rest,
        },
        Err(error) => Drained {
            frames: Seq::empty(),
            failure: Some(error),
            awaited: step.awaited,
            rest: step.rest,
        },
    }
}

/// How the bytes of a connection are cut into pieces on their way does not
/// matter: receiving one piece and then the next gives the frames, the error
/// and the state that receiving both at once gives.
pub proof fn pieces_are_received_as_one(awaited: Option<usize>, first: Seq<u8>, second: Seq<u8>)
    ensures
        ({
            let whole = drain(awaited, first + second);
            let early = drain(awaited, first);
            if early.failure is Some {
                &&& whole.frames == early.frames
                &&& whole.failure == early.failure
            } else {
                let late = drain(early.awaited, early.rest + second);
                &&& whole.frames == early.frames + late.frames
                &&& whole.failure == late.failure
                &&& whole.awaited == late.awaited
                &&& whole.rest == late.rest
            }
        }),
    decreases first.len(),
{
    let step = receive(awaited, first);
    if step.frame matches Ok(None) {
        waiting_loses_no_input(awaited, first, second);
    } else {
        answer_ignores_later_input(awaited, first, second);
        if step.frame matches Ok(Some(frame)) {
            pieces_are_received_as_one(step.awaited, step.rest, second);
        }
    }
}

/// The bytes of several frames on one connection.
pub open spec fn wire_stream(frames: Seq<(Seq<u8>, Option<Seq<u8>>)>) -> Seq<u8>
    decreases frames.len(),
{
    if frames.len() == 0 {
        Seq::empty()
    } else {
        wire_frame(frames[0].0, frames[0].1) + wire_stream(frames.skip(1))
    }
}

/// Frames that are sent one after the other are received in the same order,
/// each with its own envelope and body, and leave nothing behind.
#[verifier::spinoff_prover]
#[verifier::rlimit(40)]
pub proof fn frames_arrive_in_order(frames: Seq<(Seq<u8>, Option<Seq<u8>>)>)
    requires
        forall|i: int|
            0 <= i < frames.len() ==> frame_payload(
                (#[trigger] frames[i]).0,
                frames[i].1,
            ).len() <= MAX_FRAME_LEN,
    ensures
        drain(None, wire_stream(frames)) == (Drained {
            frames: frames.map_values(
                |frame: (Seq<u8>, Option<Seq<u8>>)| (frame.0, delivered(frame.1)),
            ),
            failure: None,
            awaited: None,
            rest: Seq::empty(),
        }),
    decreases frames.len(),
{
    let arrived = |frame: (Seq<u8>, Option<Seq<u8>>)| (frame.0, delivered(frame.1));
    if frames.len() > 0 {
        let (envelope, body) = frames[0];
        let later = frames.skip(1);
        assert forall|i: int| 0 <= i < later.len() implies frame_payload(
            (#[trigger] later[i]).0,
            later[i].1,
        ).len() <= MAX_FRAME_LEN by {
            assert(later[i] == frames[i + 1]);
        }
        sent_frame_is_received(envelope, body, wire_stream(later));
        frames_arrive_in_order(later);
        assert(frames.map_values(arrived) =~= seq![arrived(frames[0])] + later.map_values(arrived));
    } else {
        assert(frames.map_values(arrived) =~= Seq::empty());
    }
}

/// Every refusal of received bytes is one of invalid data.
pub proof fn refused_input_is_invalid_data(awaited: Option<usize>, input: Seq<u8>)
    ensures
        receive(awaited, input).frame matches Err(error) ==> frame_error_kind(error)
            == ErrorKind::InvalidData,
{
}

/// However long a frame the peer announces, the receive path never awaits more
/// than the limit.
pub proof fn awaited_length_is_within_the_limit(awaited: Option<usize>, input: Seq<u8>)
    requires
        awaited matches Some(n) ==> n <= MAX_FRAME_LEN,
    ensures
        receive(awaited, input).awaited matches Some(n) ==> n <= MAX_FRAME_LEN,
{
}

/// The sink and the encoder agree on which frames they take, and put the same
/// bytes on the wire for each.
pub proof fn sink_and_encoder_agree(envelope: Seq<u8>, body: Option<Seq<u8>>)
    ensures
        start_frame(envelope, body) is Ok <==> encode_outcome(
            MAX_FRAME_LEN,
            envelope.len(),
            body_bytes(body).len(),
        ) is Ok,
        start_frame(envelope, body) matches Ok(frame) ==> frame.wire() == wire_frame(
            envelope,
            body,
        ),
{
}

/// The chunks that are offered to the writer are, one after the other, what is
/// left of the frame.
pub proof fn chunks_are_the_rest_of_the_frame(frame: InFlight)
    requires
        frame.cursor <= frame.wire().len(),
    ensures
        frame.chunks().flatten() == frame.wire().skip(frame.cursor as int),
{
    let payload_len = frame_payload(frame.envelope, frame.body).len();
    let body_len = body_bytes(frame.body).len();
    let start = 4 + frame.envelope.len();
    let a = frame.chunk(0, be_bytes(payload_len));
    let b = frame.chunk(4, frame.envelope);
    let c = match frame.body {
        Some(bytes) => frame.chunk(start, bytes),
        None => Seq::empty(),
    };
    let d = frame.chunk(start + body_len, le_bytes(body_len));
    vstd::seq_lib::lemma_flatten_concat(a + b + c, d);
    vstd::seq_lib::lemma_flatten_concat(a + b, c);
    vstd::seq_lib::lemma_flatten_concat(a, b);
    a.lemma_flatten_one_element();
    b.lemma_flatten_one_element();
    c.lemma_flatten_one_element();
    d.lemma_flatten_one_element();
    assert(frame.chunks().flatten() =~= frame.wire().skip(frame.cursor as int));
}

/// A frame in flight always has bytes left, from its start until the write
/// that completes it, so a writer that takes none has really stalled.
pub proof fn frame_in_flight_has_bytes_left(
    envelope: Seq<u8>,
    body: Option<Seq<u8>>,
    frame: InFlight,
    n: nat,
)
    requires
        frame.cursor < frame.wire().len(),
    ensures
        frame.chunks().flatten().len() > 0,
        frame.advanced(n) matches Some(next) ==> next.wire() == frame.wire() && next.cursor
            < next.wire().len(),
        start_frame(envelope, body) matches Ok(first) ==> first.cursor < first.wire().len(),
{
    chunks_are_the_rest_of_the_frame(frame);
}

/// The writer itself is flushed only once no frame is in flight, and it is shut
/// down only after that flush succeeded: closing a sink leaves nothing behind.
pub proof fn close_leaves_nothing_in_flight<E>(
    pending: Option<InFlight>,
    event: FlushEvent<E>,
    flushed: Option<Result<(), E>>,
)
    ensures
        flush_action(pending, event) is Flush ==> flush_state(pending, event) is None,
        close_action(flushed) is Shutdown <==> (flushed matches Some(Ok(_))),
        close_action(flushed) matches CloseAction::Fail(error) ==> flushed == Some(
            Err::<(), E>(error),
        ),
{
}

/// What a flush has achieved.
pub ghost struct FlushRun {
    /// The bytes that the writer took, in order.
    pub written: Seq<u8>,
    /// The frame in flight, unless it is done.
    pub pending: Option<InFlight>,
}

/// A flush whose writer takes the given numbers of bytes, each time from the
/// front of the chunks that it is offered.
pub open spec fn flush_run(pending: Option<InFlight>, counts: Seq<usize>) -> FlushRun
    decreases counts.len(),
{
    match pending {
        Some(frame) if counts.len() > 0 => {
            let later = flush_run(
                flush_state(pending, FlushEvent::<()>::Written(counts[0])),
                counts.skip(1),
            );
            FlushRun {
                written: frame.chunks().flatten().take(counts[0] as int) + later.written,
                pending: later.pending,
            }
        },
        _ => FlushRun { written: Seq::empty(), pending },
    }
}

/// The sum of the numbers of bytes that a writer takes.
pub open spec fn total(counts: Seq<usize>) -> nat
    decreases counts.len(),
{
    if counts.len() == 0 {
        0
    } else {
        counts[0] as nat + total(counts.skip(1))
    }
}

/// However few bytes the writer takes at a time, it gets the bytes of the
/// frame in order, none twice and none left out, and the frame is done exactly
/// when all of them are written.
pub proof fn partial_writes_keep_the_frame(frame: InFlight, counts: Seq<usize>)
    requires
        frame.cursor + total(counts) <= frame.wire().len(),
        frame.cursor < frame.wire().len(),
        forall|i: int| 0 <= i < counts.len() ==> #[trigger] counts[i] > 0,
    ensures
        flush_run(Some(frame), counts).written == frame.wire().skip(frame.cursor as int).take(
            total(counts) as int,
        ),
        flush_run(Some(frame), counts).pending == frame.advanced(total(counts)),
    decreases counts.len(),
{
    chunks_are_the_rest_of_the_frame(frame);
    let wire = frame.wire();
    let c = frame.cursor as int;
    if counts.len() > 0 {
        let n = counts[0] as int;
        let later = counts.skip(1);
        assert(counts[0] > 0);
        assert forall|i: int| 0 <= i < later.len() implies #[trigger] later[i] > 0 by {
            assert(later[i] == counts[i + 1]);
        }
        lemma_take_in_two(wire, c, n, total(later) as int);
        match frame.advanced(n as nat) {
            Some(next) => {
                partial_writes_keep_the_frame(next, later);
            },
            None => {
                if later.len() > 0 {
                    assert(later[0] > 0);
                }
                lemma_take_none(wire, c + n);
            },
        }
    } else {
        lemma_take_none(wire, c);
    }
}

/// Two takes one after the other are one.
proof fn lemma_take_in_two(s: Seq<u8>, start: int, n: int, m: int)
    requires
        0 <= start,
        0 <= n,
        0 <= m,
        start + n + m <= s.len(),
    ensures
        s.skip(start).take(n) + s.skip(start + n).take(m) == s.skip(start).take(n + m),
{
    assert(s.skip(start).take(n) + s.skip(start + n).take(m) =~= s.skip(start).take(n + m));
}

/// Taking nothing gives nothing.
proof fn lemma_take_none(s: Seq<u8>, start: int)
    requires
        0 <= start <= s.len(),
    ensures
        s.skip(start).take(0) == Seq::<u8>::empty(),
{
    assert(s.skip(start).take(0) =~= Seq::<u8>::empty());
}

/// A flush over everything that happens to it: writes, blocks, failures and new
/// starts, in any order. The writer takes its bytes from the front of the chunks
/// that it is offered.
pub open spec fn event_run<E>(pending: Option<InFlight>, events: Seq<FlushEvent<E>>) -> FlushRun
    decreases events.len(),
{
    if events.len() == 0 {
        FlushRun { written: Seq::empty(), pending }
    } else {
        let taken = match (pending, events[0]) {
            (Some(frame), FlushEvent::Written(n)) => frame.chunks().flatten().take(n as int),
            _ => Seq::empty(),
        };
        let later = event_run(flush_state(pending, events[0]), events.skip(1));
        FlushRun { written: taken + later.written, pending: later.pending }
    }
}

/// The number of bytes that the writes among some events took.
pub open spec fn total_written<E>(events: Seq<FlushEvent<E>>) -> nat
    decreases events.len(),
{
    if events.len() == 0 {
        0
    } else {
        let n = match events[0] {
            FlushEvent::Written(n) => n as nat,
            _ => 0,
        };
        n + total_written(events.skip(1))
    }
}

/// Events that write nothing to a finished flush change nothing.
proof fn lemma_finished_flush<E>(events: Seq<FlushEvent<E>>)
    ensures
        event_run(None, events) == (FlushRun { written: Seq::empty(), pending: None }),
    decreases events.len(),
{
    if events.len() > 0 {
        lemma_finished_flush(events.skip(1));
        assert(event_run(None, events).written =~= Seq::<u8>::empty());
    }
}

/// However often the writer blocks or fails and the flush is started again, the
/// bytes that it takes are the bytes of the frame, in order, none twice and
/// none left out; only bytes that are taken bring the frame forward, and it is
/// done exactly when all are.
pub proof fn interrupted_writes_keep_the_frame<E>(frame: InFlight, events: Seq<FlushEvent<E>>)
    requires
        frame.cursor < frame.wire().len(),
        frame.cursor + total_written(events) <= frame.wire().len(),
    ensures
        event_run(Some(frame), events).written == frame.wire().skip(frame.cursor as int).take(
            total_written(events) as int,
        ),
        event_run(Some(frame), events).pending == if frame.cursor + total_written(events)
            == frame.wire().len() {
            None
        } else {
            Some(
                InFlight {
                    envelope: frame.envelope,
                    body: frame.body,
                    cursor: frame.cursor + total_written(events),
                },
            )
        },
    decreases events.len(),
{
    chunks_are_the_rest_of_the_frame(frame);
    let wire = frame.wire();
    let c = frame.cursor as int;
    if events.len() > 0 {
        let later = events.skip(1);
        let next = flush_state(Some(frame), events[0]);
        let n = match events[0] {
            FlushEvent::Written(n) => n as int,
            _ => 0,
        };
        lemma_take_in_two(wire, c, n, total_written(later) as int);
        lemma_take_none(wire, c);
        match next {
            Some(rest) => {
                interrupted_writes_keep_the_frame(rest, later);
            },
            None => {
                lemma_finished_flush(later);
                lemma_take_none(wire, c + n);
            },
        }
    } else {
        lemma_take_none(wire, c);
    }
}

/// A single frame drains to its envelope and its body.
proof fn lemma_frame_drains(envelope: Seq<u8>, body: Option<Seq<u8>>)
    requires
        frame_payload(envelope, body).len() <= MAX_FRAME_LEN,
    ensures
        drain(None, wire_frame(envelope, body)) == (Drained {
            frames: seq![(envelope, delivered(body))],
            failure: None,
            awaited: None,
            rest: Seq::empty(),
        }),
{
    let frames = seq![(envelope, body)];
    frames_arrive_in_order(frames);
    assert(wire_stream(frames.skip(1)) =~= Seq::empty());
    assert(wire_stream(frames) =~= wire_frame(envelope, body));
    assert(frames.map_values(
        |frame: (Seq<u8>, Option<Seq<u8>>)| (frame.0, delivered(frame.1)),
    ) =~= seq![(envelope, delivered(body))]);
}

/// What a sink accepts and its writer takes to the end arrives at the peer:
/// one frame with the same envelope and the same body, and nothing else.
pub proof fn flushed_frame_arrives(
    envelope: Seq<u8>,
    body: Option<Seq<u8>>,
    frame: InFlight,
    counts: Seq<usize>,
)
    requires
        start_frame(envelope, body) == Ok::<InFlight, FrameError>(frame),
        total(counts) == frame.wire().len(),
        forall|i: int| 0 <= i < counts.len() ==> #[trigger] counts[i] > 0,
    ensures
        flush_run(Some(frame), counts).pending is None,
        drain(None, flush_run(Some(frame), counts).written) == (Drained {
            frames: seq![(envelope, delivered(body))],
            failure: None,
            awaited: None,
            rest: Seq::empty(),
        }),
{
    let sent = flush_run(Some(frame), counts).written;
    assert(sent == frame.wire() && flush_run(Some(frame), counts).pending is None) by {
        partial_writes_keep_the_frame(frame, counts);
        assert(frame.wire().skip(0).take(total(counts) as int) =~= frame.wire());
    }
    lemma_frame_drains(envelope, body);
}

/// What a sink writes that sends these frames one after the other, each one
/// flushed before the next is started. `counts` says for each frame how many
/// bytes the writer takes at a time.
pub open spec fn sink_output(
    frames: Seq<(Seq<u8>, Option<Seq<u8>>)>,
    counts: Seq<Seq<usize>>,
) -> Seq<u8>
    decreases frames.len(),
{
    if frames.len() == 0 {
        Seq::empty()
    } else {
        let frame = start_frame(frames[0].0, frames[0].1)->Ok_0;
        flush_run(Some(frame), counts[0]).written + sink_output(frames.skip(1), counts.skip(1))
    }
}

/// Whether a writer that takes these numbers of bytes takes all of a frame.
pub open spec fn takes_all(frame: (Seq<u8>, Option<Seq<u8>>), counts: Seq<usize>) -> bool {
    &&& total(counts) == wire_frame(frame.0, frame.1).len()
    &&& forall|i: int| 0 <= i < counts.len() ==> #[trigger] counts[i] > 0
}

/// Everything that a sink accepts and flushes arrives at the peer: the same
/// frames, in the same order, whatever the writer takes at a time.
pub proof fn flushed_frames_arrive_in_order(
    frames: Seq<(Seq<u8>, Option<Seq<u8>>)>,
    counts: Seq<Seq<usize>>,
)
    requires
        counts.len() == frames.len(),
        forall|i: int|
            0 <= i < frames.len() ==> start_frame((#[trigger] frames[i]).0, frames[i].1) is Ok,
        forall|i: int|
            0 <= i < frames.len() ==> takes_all(#[trigger] frames[i], counts[i]),
    ensures
        sink_output(frames, counts) == wire_stream(frames),
        drain(None, sink_output(frames, counts)) == (Drained {
            frames: frames.map_values(
                |frame: (Seq<u8>, Option<Seq<u8>>)| (frame.0, delivered(frame.1)),
            ),
            failure: None,
            awaited: None,
            rest: Seq::empty(),
        }),
{
    lemma_sink_output(frames, counts);
    assert forall|i: int| 0 <= i < frames.len() implies frame_payload(
        (#[trigger] frames[i]).0,
        frames[i].1,
    ).len() <= MAX_FRAME_LEN by {
        assert(start_frame(frames[i].0, frames[i].1) is Ok);
    }
    frames_arrive_in_order(frames);
}

/// A sink puts the bytes of its frames on the wire, one frame after the other.
proof fn lemma_sink_output(
    frames: Seq<(Seq<u8>, Option<Seq<u8>>)>,
    counts: Seq<Seq<usize>>,
)
    requires
        counts.len() == frames.len(),
        forall|i: int|
            0 <= i < frames.len() ==> start_frame((#[trigger] frames[i]).0, frames[i].1) is Ok,
        forall|i: int|
            0 <= i < frames.len() ==> takes_all(#[trigger] frames[i], counts[i]),
    ensures
        sink_output(frames, counts) == wire_stream(frames),
    decreases frames.len(),
{
    if frames.len() > 0 {
        let later = frames.skip(1);
        let later_counts = counts.skip(1);
        let frame = start_frame(frames[0].0, frames[0].1)->Ok_0;
        assert forall|i: int| 0 <= i < later.len() implies start_frame(
            (#[trigger] later[i]).0,
            later[i].1,
        ) is Ok && takes_all(later[i], later_counts[i]) by {
            assert(later[i] == frames[i + 1]);
            assert(later_counts[i] == counts[i + 1]);
        }
        lemma_sink_output(later, later_counts);
        assert(start_frame(frames[0].0, frames[0].1) is Ok && takes_all(frames[0], counts[0]));
        partial_writes_keep_the_frame(frame, counts[0]);
        assert(frame.wire().skip(0).take(frame.wire().len() as int) =~= frame.wire());
    }
}

} // verus!
