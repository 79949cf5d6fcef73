//! Laws of the calls that send.
//!
//! What a frame in flight still has to write is judged by what it offers: the
//! slices that a call of `io_slices` returns, one after the other.
use fory::Fory;
use std::sync::Arc;
use tokio_util::bytes::Bytes;
use vstd::prelude::*;

use crate::buffers::{body_content, bytes_content};
use crate::error::{CodecError, FrameError};
use crate::guarantees::frames::{body_of, is_frame, lemma_wire_frame_is_frame};
use crate::laws::chunks_are_the_rest_of_the_frame;
use crate::sink::{
    close_step, frame_parts, part_of, poll_flush_pending, CloseAction, FlushAction, FlushEvent,
    PendingWrite, SendError, ToFrame, ZeroCopySink,
};

verus! {

/// The bytes of some slices, one after the other.
pub open spec fn joined(slices: Seq<&[u8]>) -> Seq<u8>
    decreases slices.len(),
{
    if slices.len() == 0 {
        Seq::empty()
    } else {
        slices[0]@ + joined(slices.skip(1))
    }
}

/// Whether a frame in flight offers exactly these bytes: every call of
/// `io_slices` gives them.
pub open spec fn offers(frame: PendingWrite, bytes: Seq<u8>) -> bool {
    forall|slices: Vec<&[u8]>| #[trigger]
        call_ensures(PendingWrite::io_slices, (&frame,), slices) ==> joined(slices@) == bytes
}

/// Joining slices is flattening what they show.
proof fn lemma_joined_is_flattened(slices: Seq<&[u8]>, shown: Seq<Seq<u8>>)
    requires
        slices.len() == shown.len(),
        forall|i: int| 0 <= i < slices.len() ==> (#[trigger] slices[i])@ == shown[i],
    ensures
        joined(slices) == shown.flatten(),
    decreases slices.len(),
{
    if slices.len() > 0 {
        assert(shown.drop_first() =~= shown.skip(1));
        assert forall|i: int| 0 <= i < slices.skip(1).len() implies (#[trigger] slices.skip(1)[i])@
            == shown.skip(1)[i] by {
            assert(slices.skip(1)[i] == slices[i + 1]);
        }
        lemma_joined_is_flattened(slices.skip(1), shown.skip(1));
        assert(slices[0]@ == shown[0]);
    }
}

/// A frame in flight offers what lies behind its cursor.
proof fn lemma_offers_the_rest(frame: PendingWrite)
    requires
        frame@.cursor < frame@.wire().len(),
    ensures
        offers(frame, frame@.wire().skip(frame@.cursor as int)),
{
    chunks_are_the_rest_of_the_frame(frame@);
    assert forall|slices: Vec<&[u8]>| #[trigger]
        call_ensures(PendingWrite::io_slices, (&frame,), slices) implies joined(slices@)
        == frame@.wire().skip(frame@.cursor as int) by {
        lemma_joined_is_flattened(slices@, frame@.chunks());
    }
}

/// A fresh frame offers the wire form of its envelope and its body, whole, and
/// holds the body as the buffer that it was given.
#[verifier::spinoff_prover]
#[verifier::rlimit(40)]
pub proof fn fresh_frame_offers_all_of_it(
    envelope: Vec<u8>,
    body: Option<Bytes>,
    frame: PendingWrite,
    slices: Vec<&[u8]>,
    cursor: usize,
)
    requires
        envelope@.len() + body_of(body).len() + 4 < 4294967296,
        call_ensures(PendingWrite::new, (envelope, body), frame),
        call_ensures(PendingWrite::io_slices, (&frame,), slices),
        call_ensures(PendingWrite::cursor, (&frame,), cursor),
    ensures
        is_frame(joined(slices@), envelope@, body_of(body)),
        cursor == 0,
        frame@.envelope == envelope@,
        frame.handle() == body,
        slices@[1]@ == envelope@,
        body is Some ==> slices@.len() == 4 && slices@[2]@ == body_of(body),
        body is None ==> slices@.len() == 3,
{
    let wire = frame@.wire();
    lemma_offers_the_rest(frame);
    assert(wire.skip(0) =~= wire);
    lemma_wire_frame_is_frame(envelope@, body_content(body), body_of(body));
}

/// The body is offered in a slice of its own, which is part of the buffer that
/// the frame holds, as long as a byte of it is left; the last slice is never
/// part of it.
pub proof fn body_is_offered_from_its_buffer(frame: PendingWrite, slices: Vec<&[u8]>, body: Bytes)
    requires
        call_ensures(PendingWrite::io_slices, (&frame,), slices),
        frame.handle() == Some(body),
        joined(slices@).len() > 4,
    ensures
        slices@.len() >= 2,
        part_of(body, slices@[slices@.len() - 2]),
        slices@[slices@.len() - 1]@.len() == 4,
        joined(slices@).len() <= bytes_content(body).len() + 4 ==> slices@.len() == 2
            && slices@[0]@.len() + 4 == joined(slices@).len(),
{
    lemma_offers_the_rest(frame);
    frame.handle_holds_the_body();
    assert(slices@.len() >= 2);
    if slices@.len() == 2 {
        lemma_joined_two(slices@);
    }
}

/// Two slices joined are as long as both.
proof fn lemma_joined_two(slices: Seq<&[u8]>)
    requires
        slices.len() == 2,
    ensures
        joined(slices) == slices[0]@ + slices[1]@,
{
    assert(joined(slices.skip(1).skip(1)) =~= Seq::empty());
    assert(joined(slices.skip(1)) =~= slices[1]@);
}

/// What is offered is cut where the parts of the frame meet and nowhere else:
/// the last slice is of the four bytes behind the body, before it comes the
/// body if there is one, before that the envelope, and first the four bytes in
/// front. A part that is written is not offered any more; of the one that is
/// being written, the rest is.
pub proof fn slices_are_cut_between_the_parts(frame: PendingWrite, slices: Vec<&[u8]>)
    requires
        call_ensures(PendingWrite::io_slices, (&frame,), slices),
    ensures
        ({
            let left = joined(slices@).len();
            let e = frame@.envelope.len();
            let b = body_of(frame.handle()).len();
            let k = slices@.len();
            let before_body = if left > 4 && frame.handle() is Some {
                k - 2
            } else {
                k - 1
            };
            &&& k >= 1
            &&& slices@[k - 1]@.len() == if left < 4 {
                left
            } else {
                4
            }
            &&& left > 4 && frame.handle() is Some ==> k >= 2 && slices@[k - 2]@.len()
                == if left < b + 4 {
                left - 4
            } else {
                b as int
            }
            &&& left <= b + 4 ==> before_body == 0
            &&& left > b + 4 ==> before_body >= 1 && slices@[before_body - 1]@.len()
                == if left < e + b + 4 {
                left - b - 4
            } else {
                e as int
            }
            &&& left > b + 4 && left <= e + b + 4 ==> before_body == 1
            &&& left > e + b + 4 ==> before_body == 2 && slices@[0]@.len() == left - e - b - 4
        }),
{
    lemma_offers_the_rest(frame);
    frame.handle_holds_the_body();
}

/// The number of bytes written and the bytes still offered make up the frame:
/// as the one grows the other shrinks, and some are always left.
pub proof fn cursor_counts_what_is_not_offered(
    frame: PendingWrite,
    slices: Vec<&[u8]>,
    cursor: usize,
)
    requires
        call_ensures(PendingWrite::io_slices, (&frame,), slices),
        call_ensures(PendingWrite::cursor, (&frame,), cursor),
    ensures
        joined(slices@).len() > 0,
        cursor + joined(slices@).len() == 8 + frame@.envelope.len() + body_of(
            frame.handle(),
        ).len(),
{
    lemma_offers_the_rest(frame);
    frame.handle_holds_the_body();
}

/// A writer that takes `n` bytes of what it is offered is offered exactly the
/// bytes behind them next; once it has taken all, nothing is in flight and the
/// writer itself is flushed. One that takes none has stalled, and loses nothing.
pub proof fn written_bytes_are_not_offered_again<E>(frame: PendingWrite, slices: Vec<&[u8]>)
    requires
        call_ensures(PendingWrite::io_slices, (&frame,), slices),
    ensures
        forall|pending: &mut Option<PendingWrite>, n: usize, action: FlushAction<E>|
            *pending == Some(frame) && #[trigger] call_ensures(
                poll_flush_pending::<E>,
                (pending, FlushEvent::<E>::Written(n)),
                action,
            ) ==> {
                if n >= joined(slices@).len() {
                    *final(pending) is None && action is Flush
                } else {
                    &&& *final(pending) matches Some(next)
                    &&& offers(next, joined(slices@).skip(n as int))
                    &&& next@.cursor == frame@.cursor + n
                    &&& next@.envelope == frame@.envelope
                    &&& next.handle() == frame.handle()
                    &&& if n == 0 {
                        action == FlushAction::<E>::Stall(FrameError::WriteZero)
                    } else {
                        action is Write
                    }
                }
            },
{
    lemma_offers_the_rest(frame);
    let wire = frame@.wire();
    let left = wire.skip(frame@.cursor as int);
    assert forall|pending: &mut Option<PendingWrite>, n: usize, action: FlushAction<E>|
        *pending == Some(frame) && #[trigger] call_ensures(
            poll_flush_pending::<E>,
            (pending, FlushEvent::<E>::Written(n)),
            action,
        ) implies {
        if n >= joined(slices@).len() {
            *final(pending) is None && action is Flush
        } else {
            &&& *final(pending) matches Some(next)
            &&& offers(next, joined(slices@).skip(n as int))
            &&& next@.cursor == frame@.cursor + n
            &&& next@.envelope == frame@.envelope
            &&& next.handle() == frame.handle()
            &&& if n == 0 {
                action == FlushAction::<E>::Stall(FrameError::WriteZero)
            } else {
                action is Write
            }
        }
    } by {
        if n < left.len() {
            let next = (*final(pending))->Some_0;
            lemma_offers_the_rest(next);
            assert(wire.skip(frame@.cursor + n) =~= left.skip(n as int));
        }
    }
}

/// Starting a flush, a writer that blocks and a writer that fails leave what is
/// offered as it is: nothing is skipped and nothing is offered twice. What
/// failed is reported, what blocked is waited for.
pub proof fn other_events_keep_what_is_offered<E>(frame: PendingWrite, slices: Vec<&[u8]>)
    requires
        call_ensures(PendingWrite::io_slices, (&frame,), slices),
    ensures
        forall|pending: &mut Option<PendingWrite>, event: FlushEvent<E>, action: FlushAction<E>|
            *pending == Some(frame) && !(event is Written) && #[trigger] call_ensures(
                poll_flush_pending::<E>,
                (pending, event),
                action,
            ) ==> {
                &&& *final(pending) matches Some(next)
                &&& offers(next, joined(slices@))
                &&& next@ == frame@
                &&& next.handle() == frame.handle()
                &&& match event {
                    FlushEvent::Started => action is Write,
                    FlushEvent::Blocked => action is Wait,
                    FlushEvent::Failed(error) => action == FlushAction::Fail(error),
                    FlushEvent::Written(_) => true,
                }
            },
{
    lemma_offers_the_rest(frame);
    assert forall|pending: &mut Option<PendingWrite>, event: FlushEvent<E>, action: FlushAction<E>|
        *pending == Some(frame) && !(event is Written) && #[trigger] call_ensures(
            poll_flush_pending::<E>,
            (pending, event),
            action,
        ) implies {
        &&& *final(pending) matches Some(next)
        &&& offers(next, joined(slices@))
        &&& next@ == frame@
        &&& next.handle() == frame.handle()
        &&& match event {
            FlushEvent::Started => action is Write,
            FlushEvent::Blocked => action is Wait,
            FlushEvent::Failed(error) => action == FlushAction::Fail(error),
            FlushEvent::Written(_) => true,
        }
    } by {
        lemma_offers_the_rest((*final(pending))->Some_0);
    }
}

/// With nothing in flight a flush only flushes the writer, waits or reports,
/// and nothing comes into flight.
pub proof fn idle_flush_stays_idle<E>()
    ensures
        forall|pending: &mut Option<PendingWrite>, event: FlushEvent<E>, action: FlushAction<E>|
            *pending is None && !(event is Written) && #[trigger] call_ensures(
                poll_flush_pending::<E>,
                (pending, event),
                action,
            ) ==> {
                &&& *final(pending) is None
                &&& match event {
                    FlushEvent::Started => action is Flush,
                    FlushEvent::Blocked => action is Wait,
                    FlushEvent::Failed(error) => action == FlushAction::Fail(error),
                    FlushEvent::Written(_) => true,
                }
            },
{
}

/// A sink is shut down only after its flush succeeded; a flush that is not over
/// is waited for, and one that failed is reported.
pub proof fn closing_waits_for_the_flush<E>(flushed: Option<Result<(), E>>, action: CloseAction<E>)
    requires
        call_ensures(close_step::<E>, (flushed,), action),
    ensures
        flushed is None <==> action is Wait,
        (flushed matches Some(Ok(_))) <==> action is Shutdown,
        flushed matches Some(Err(error)) ==> action == CloseAction::Fail(error),
{
}

/// What a sink holds after it was given the parts of a frame, and what it
/// answers. It takes them exactly where the envelope, the body and four bytes
/// more are at most 64 MiB; then all of that frame is in flight, with the body
/// as the buffer that was given. Else it names the size and keeps what it had.
pub open spec fn takes_what_fits(
    envelope: Seq<u8>,
    body: Option<Bytes>,
    before: Option<PendingWrite>,
    after: Option<PendingWrite>,
    r: Result<(), FrameError>,
) -> bool {
    let size = envelope.len() + body_of(body).len() + 4;
    if size <= 67108864 {
        &&& r is Ok
        &&& after matches Some(frame)
        &&& frame.handle() == body
        &&& exists|wire: Seq<u8>| #[trigger]
            is_frame(wire, envelope, body_of(body)) && offers(frame, wire)
    } else {
        &&& r == Err::<(), FrameError>(FrameError::FrameTooLarge { size: size as u128 })
        &&& after == before
    }
}

/// The contract of starting a frame takes what fits.
proof fn lemma_takes_what_fits(
    envelope: Seq<u8>,
    body: Option<Bytes>,
    before: Option<PendingWrite>,
    after: Option<PendingWrite>,
    r: Result<(), FrameError>,
)
    requires
        match crate::sink::start_frame(envelope, body_content(body)) {
            Ok(frame) => {
                &&& r is Ok
                &&& crate::sink::in_flight(after) == Some(frame)
                &&& after->Some_0.handle() == body
            },
            Err(error) => {
                &&& r == Err::<(), FrameError>(error)
                &&& after == before
            },
        },
    ensures
        takes_what_fits(envelope, body, before, after, r),
{
    if r is Ok {
        let frame = after->Some_0;
        lemma_offers_the_rest(frame);
        assert(frame@.wire().skip(0) =~= frame@.wire());
        lemma_wire_frame_is_frame(envelope, body_content(body), body_of(body));
        assert(is_frame(frame@.wire(), envelope, body_of(body)));
    }
}

/// A sink takes exactly the frames that fit.
pub proof fn sink_takes_what_fits<W, Item>()
    ensures
        forall|
            sink: &mut ZeroCopySink<W, Item>,
            envelope: Vec<u8>,
            body: Option<Bytes>,
            r: Result<(), FrameError>,
        | #[trigger]
            call_ensures(ZeroCopySink::<W, Item>::start_frame, (sink, envelope, body), r) ==> {
                &&& takes_what_fits(envelope@, body, sink.pending(), final(sink).pending(), r)
                &&& final(sink).writer() == sink.writer()
                &&& final(sink).registry() == sink.registry()
            },
{
    assert forall|
        sink: &mut ZeroCopySink<W, Item>,
        envelope: Vec<u8>,
        body: Option<Bytes>,
        r: Result<(), FrameError>,
    | #[trigger]
        call_ensures(ZeroCopySink::<W, Item>::start_frame, (sink, envelope, body), r) implies {
        &&& takes_what_fits(envelope@, body, sink.pending(), final(sink).pending(), r)
        &&& final(sink).writer() == sink.writer()
        &&& final(sink).registry() == sink.registry()
    } by {
        lemma_takes_what_fits(envelope@, body, sink.pending(), final(sink).pending(), r);
    }
}

/// What a sink answers to an item, given the parts that the item serialised to,
/// and what it then holds. Parts are taken where they fit; an item that cannot
/// be serialised is refused with its own error, and the sink keeps what it had.
pub open spec fn sends_what_fits(
    parts: Result<(Vec<u8>, Option<Bytes>), std::io::Error>,
    before: Option<PendingWrite>,
    after: Option<PendingWrite>,
    r: Result<(), SendError>,
) -> bool {
    match parts {
        Ok((envelope, body)) => match r {
            Ok(()) => takes_what_fits(envelope@, body, before, after, Ok(())),
            Err(SendError::Frame(error)) => takes_what_fits(
                envelope@,
                body,
                before,
                after,
                Err(error),
            ),
            Err(SendError::Item(_)) => false,
        },
        Err(error) => {
            &&& r == Err::<(), SendError>(SendError::Item(error))
            &&& after == before
        },
    }
}

/// Sending an item serialises it with the sink's own registry, and then takes
/// exactly what fits.
pub proof fn sink_sends_what_fits<W, Item: ToFrame>()
    ensures
        forall|sink: &mut ZeroCopySink<W, Item>, item: Item, r: Result<(), SendError>| #[trigger]
            call_ensures(ZeroCopySink::<W, Item>::start_send, (sink, item), r) ==> {
                &&& final(sink).writer() == sink.writer()
                &&& final(sink).registry() == sink.registry()
                &&& exists|parts: Result<(Vec<u8>, Option<Bytes>), std::io::Error>| #[trigger]
                    call_ensures(Item::to_frame, (item, &sink.registry()), parts)
                        && sends_what_fits(parts, sink.pending(), final(sink).pending(), r)
            },
{
    assert forall|sink: &mut ZeroCopySink<W, Item>, item: Item, r: Result<(), SendError>| #[trigger]
        call_ensures(ZeroCopySink::<W, Item>::start_send, (sink, item), r) implies {
        &&& final(sink).writer() == sink.writer()
        &&& final(sink).registry() == sink.registry()
        &&& exists|parts: Result<(Vec<u8>, Option<Bytes>), std::io::Error>| #[trigger]
            call_ensures(Item::to_frame, (item, &sink.registry()), parts) && sends_what_fits(
                parts,
                sink.pending(),
                final(sink).pending(),
                r,
            )
    } by {
        let before = sink.pending();
        let after = final(sink).pending();
        let parts = choose|parts: Result<(Vec<u8>, Option<Bytes>), std::io::Error>| #[trigger]
            call_ensures(Item::to_frame, (item, &sink.registry()), parts) && match parts {
                Ok((envelope, body)) => match crate::sink::start_frame(
                    envelope@,
                    body_content(body),
                ) {
                    Ok(frame) => {
                        &&& r is Ok
                        &&& crate::sink::in_flight(after) == Some(frame)
                        &&& after->Some_0.handle() == body
                    },
                    Err(error) => {
                        &&& r == Err::<(), SendError>(SendError::Frame(error))
                        &&& after == before
                    },
                },
                Err(error) => {
                    &&& r == Err::<(), SendError>(SendError::Item(error))
                    &&& after == before
                },
            };
        if let Ok((envelope, body)) = parts {
            let answer = match r {
                Err(SendError::Frame(error)) => Err::<(), FrameError>(error),
                _ => Ok(()),
            };
            lemma_takes_what_fits(envelope@, body, before, after, answer);
        }
        assert(sends_what_fits(parts, before, after, r));
    }
}

/// A new sink has nothing in flight and holds what it was given.
pub proof fn new_sink_is_idle<W, Item>(writer: W, fory: Arc<Fory>, sink: ZeroCopySink<W, Item>)
    requires
        call_ensures(ZeroCopySink::<W, Item>::new, (writer, fory), sink),
    ensures
        sink.pending() is None,
        sink.writer() == writer,
        sink.registry() == *fory,
{
}

/// A sink asks for a flush exactly while a frame is in flight.
pub proof fn flush_is_needed_while_in_flight<W, Item>(sink: ZeroCopySink<W, Item>, needed: bool)
    requires
        call_ensures(ZeroCopySink::<W, Item>::needs_flush, (&sink,), needed),
    ensures
        needed <==> sink.pending() is Some,
{
}

/// The two parts that a sink lends out are its own: what is done to them is
/// done to the sink, and to nothing else of it.
pub proof fn lent_parts_are_the_sinks_own<W, Item>()
    ensures
        forall|sink: &mut ZeroCopySink<W, Item>, parts: (&mut Option<PendingWrite>, &mut W)|
            #[trigger]
            call_ensures(ZeroCopySink::<W, Item>::parts, (sink,), parts) ==> {
                &&& *parts.0 == sink.pending()
                &&& *parts.1 == sink.writer()
                &&& final(sink).pending() == *final(parts.0)
                &&& final(sink).writer() == *final(parts.1)
                &&& final(sink).registry() == sink.registry()
            },
{
}

/// The parts of a message are the bytes that Fory returned and the body as it
/// was; an error of Fory is passed on.
pub proof fn frame_parts_are_passed_on(
    value: Result<Vec<u8>, fory::Error>,
    body: Option<Bytes>,
    r: Result<(Vec<u8>, Option<Bytes>), CodecError>,
)
    requires
        call_ensures(frame_parts, (value, body), r),
    ensures
        value matches Ok(envelope) ==> (r matches Ok(parts) && parts == (envelope, body)),
        value matches Err(error) ==> r == Err::<(Vec<u8>, Option<Bytes>), CodecError>(
            CodecError::Envelope(error),
        ),
{
}

} // verus!
