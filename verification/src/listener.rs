//! What the listeners decide about accepted connections.
use fory::Fory;
use std::sync::Arc;
use tokio_util::codec::LengthDelimitedCodec;
use vstd::prelude::*;

use crate::codec::{ClientZeroCopyCodec, CodecState, ServerZeroCopyCodec};
use crate::delimited::{awaited_len, default_header, frame_limit};
use crate::registry::share;
use crate::sink::ZeroCopySink;
use crate::transport::ForyEnvelopeCodec;
use crate::zerocopy::{frame_codec, MAX_FRAME_LEN};

verus! {

/// What the accept loop of a TLS listener does next.
#[derive(Debug)]
pub enum AcceptAction<S, C, E> {
    /// Shake hands on the connection under this configuration, beside the
    /// loop, and go on accepting.
    Handshake { stream: S, config: C },
    /// Report the error and accept no more.
    Stop { error: E },
}

/// The decision on one answer of the socket. `config` is the configuration
/// that is current at that moment.
pub open spec fn accept_action<S, P, C, E>(outcome: Result<(S, P), E>, config: C) -> AcceptAction<
    S,
    C,
    E,
> {
    match outcome {
        Ok((stream, _)) => AcceptAction::Handshake { stream, config },
        Err(error) => AcceptAction::Stop { error },
    }
}

/// Decides on one answer of the socket.
pub fn accept_step<S, P, C, E>(outcome: Result<(S, P), E>, config: C) -> (action: AcceptAction<
    S,
    C,
    E,
>)
    ensures
        action == accept_action(outcome, config),
{
    match outcome {
        Ok((stream, _)) => AcceptAction::Handshake { stream, config },
        Err(error) => AcceptAction::Stop { error },
    }
}

/// What an accept loop has done so far.
pub ghost struct AcceptRun<S, C, E> {
    /// The handshakes it started, each with its configuration.
    pub handshakes: Seq<(S, C)>,
    /// The error that it reported and stopped on.
    pub failure: Option<E>,
}

/// An accept loop over the answers of the socket, each with the configuration
/// that was current when it came.
pub open spec fn accept_run<S, P, C, E>(answers: Seq<(Result<(S, P), E>, C)>) -> AcceptRun<S, C, E>
    decreases answers.len(),
{
    if answers.len() == 0 {
        AcceptRun { handshakes: Seq::empty(), failure: None }
    } else {
        match accept_action(answers[0].0, answers[0].1) {
            AcceptAction::Stop { error } => AcceptRun {
                handshakes: Seq::empty(),
                failure: Some(error),
            },
            AcceptAction::Handshake { stream, config } => {
                let later = accept_run(answers.skip(1));
                AcceptRun {
                    handshakes: seq![(stream, config)] + later.handshakes,
                    failure: later.failure,
                }
            },
        }
    }
}

/// An accept loop shakes hands on every connection before the first error, in
/// order, each under the configuration of its own moment; it reports that
/// error and nothing after it.
pub proof fn accept_loop_serves_until_the_first_error<S, P, C, E>(
    answers: Seq<(Result<(S, P), E>, C)>,
    k: nat,
)
    requires
        k <= answers.len(),
        forall|i: int| 0 <= i < k ==> (#[trigger] answers[i]).0 is Ok,
        k < answers.len() ==> answers[k as int].0 is Err,
    ensures
        accept_run(answers).handshakes.len() == k,
        forall|i: int|
            0 <= i < k ==> #[trigger] accept_run(answers).handshakes[i] == (
                answers[i].0->Ok_0.0,
                answers[i].1,
            ),
        accept_run(answers).failure == if k < answers.len() {
            Some(answers[k as int].0->Err_0)
        } else {
            None
        },
    decreases k,
{
    if k > 0 {
        let later = answers.skip(1);
        assert(answers[0].0 is Ok);
        assert forall|i: int| 0 <= i < k - 1 implies (#[trigger] later[i]).0 is Ok by {
            assert(later[i] == answers[i + 1]);
        }
        accept_loop_serves_until_the_first_error(later, (k - 1) as nat);
        let handshakes = accept_run(answers).handshakes;
        assert forall|i: int| 0 <= i < k implies #[trigger] handshakes[i] == (
            answers[i].0->Ok_0.0,
            answers[i].1,
        ) by {
            if i > 0 {
                assert(handshakes[i] == accept_run(later).handshakes[i - 1]);
                assert(later[i - 1] == answers[i]);
            }
        }
    }
}

/// The item of a zero-copy connection whose handshake ended: the stream with
/// the codec it is served with, or the error of the handshake.
pub fn zerocopy_connection<T, Req, Resp, E>(
    outcome: Result<T, E>,
    fory: Arc<Fory>,
) -> (item: Result<
    (T, ServerZeroCopyCodec<Req, Resp>),
    E,
>)
    ensures
        match outcome {
            Ok(stream) => {
                &&& item matches Ok((served, codec))
                &&& served == stream
                &&& codec.wf()
                &&& codec@ == (CodecState { registry: *fory, awaited: None })
            },
            Err(error) => item == Err::<(T, ServerZeroCopyCodec<Req, Resp>), E>(error),
        },
{
    match outcome {
        Ok(stream) => Ok((stream, ServerZeroCopyCodec::new(fory))),
        Err(error) => Err(error),
    }
}

/// The item of a classic connection whose handshake ended: the stream with the
/// codecs of its frames and of its envelopes, or the error of the handshake.
pub fn envelope_connection<T, Req, Resp, E>(
    outcome: Result<T, E>,
    fory: Arc<Fory>,
) -> (item: Result<
    (T, LengthDelimitedCodec, ForyEnvelopeCodec<Req, Resp>),
    E,
>)
    ensures
        match outcome {
            Ok(stream) => {
                &&& item matches Ok((served, frames, codec))
                &&& served == stream
                &&& default_header(frames)
                &&& frame_limit(frames) == MAX_FRAME_LEN
                &&& awaited_len(frames) is None
                &&& codec.registry() == *fory
            },
            Err(error) => item == Err::<
                (T, LengthDelimitedCodec, ForyEnvelopeCodec<Req, Resp>),
                E,
            >(error),
        },
{
    match outcome {
        Ok(stream) => Ok((stream, frame_codec(), ForyEnvelopeCodec::new(fory))),
        Err(error) => Err(error),
    }
}

/// Something that happens to a TLS listener.
pub ghost enum ListenerEvent<S, P, C, T, E> {
    /// The socket answered, while this configuration was current.
    Answered(Result<(S, P), E>, C),
    /// The handshake that was started as the one with this number ended.
    Handshaken(nat, Result<T, E>),
}

/// What a TLS listener has done so far.
pub ghost struct ListenerRun<S, C, T, E> {
    /// The handshakes it started, each with its configuration.
    pub handshakes: Seq<(S, C)>,
    /// The items on the channel, each with the number of the handshake that it
    /// came from; an error of the socket comes from none.
    pub items: Seq<(Option<nat>, Result<T, E>)>,
    /// Whether the accept loop has ended.
    pub stopped: bool,
}

/// A TLS listener over everything that happens to it, in any order. Handshakes
/// run beside the accept loop and outlive it.
pub open spec fn listener_run<S, P, C, T, E>(
    events: Seq<ListenerEvent<S, P, C, T, E>>,
) -> ListenerRun<S, C, T, E>
    decreases events.len(),
{
    if events.len() == 0 {
        ListenerRun { handshakes: Seq::empty(), items: Seq::empty(), stopped: false }
    } else {
        let before = listener_run(events.drop_last());
        match events.last() {
            ListenerEvent::Handshaken(number, outcome) => ListenerRun {
                handshakes: before.handshakes,
                items: before.items.push((Some(number), outcome)),
                stopped: before.stopped,
            },
            ListenerEvent::Answered(outcome, config) => if before.stopped {
                before
            } else {
                match accept_action(outcome, config) {
                    AcceptAction::Handshake { stream, config } => ListenerRun {
                        handshakes: before.handshakes.push((stream, config)),
                        items: before.items,
                        stopped: false,
                    },
                    AcceptAction::Stop { error } => ListenerRun {
                        handshakes: before.handshakes,
                        items: before.items.push((None, Err(error))),
                        stopped: true,
                    },
                }
            },
        }
    }
}

/// The answers of the socket among the events, in order.
pub open spec fn socket_answers<S, P, C, T, E>(
    events: Seq<ListenerEvent<S, P, C, T, E>>,
) -> Seq<(Result<(S, P), E>, C)>
    decreases events.len(),
{
    if events.len() == 0 {
        Seq::empty()
    } else {
        let before = socket_answers(events.drop_last());
        match events.last() {
            ListenerEvent::Answered(outcome, config) => before.push((outcome, config)),
            ListenerEvent::Handshaken(..) => before,
        }
    }
}

/// No handshake ends twice.
pub open spec fn end_once<S, P, C, T, E>(events: Seq<ListenerEvent<S, P, C, T, E>>) -> bool {
    forall|i: int, j: int|
        0 <= i < j < events.len() ==> match (#[trigger] events[i], #[trigger] events[j]) {
            (ListenerEvent::Handshaken(a, _), ListenerEvent::Handshaken(b, _)) => a != b,
            _ => true,
        }
}

/// One answer more: a loop that has not stopped acts on it, one that has does
/// not.
proof fn lemma_accept_one_more<S, P, C, E>(
    answers: Seq<(Result<(S, P), E>, C)>,
    answer: (Result<(S, P), E>, C),
)
    ensures
        accept_run(answers.push(answer)) == if accept_run(answers).failure is Some {
            accept_run(answers)
        } else {
            match accept_action(answer.0, answer.1) {
                AcceptAction::Handshake { stream, config } => AcceptRun {
                    handshakes: accept_run(answers).handshakes.push((stream, config)),
                    failure: None,
                },
                AcceptAction::Stop { error } => AcceptRun {
                    handshakes: accept_run(answers).handshakes,
                    failure: Some(error),
                },
            }
        },
    decreases answers.len(),
{
    let all = answers.push(answer);
    if answers.len() == 0 {
        assert(accept_run(all.skip(1)).handshakes =~= Seq::<(S, C)>::empty());
        if let AcceptAction::Handshake { stream, config } = accept_action(answer.0, answer.1) {
            assert(accept_run(all).handshakes =~= Seq::<(S, C)>::empty().push((stream, config)));
        }
    } else {
        assert(all.skip(1) =~= answers.skip(1).push(answer));
        lemma_accept_one_more(answers.skip(1), answer);
        assert(all[0] == answers[0]);
        if let AcceptAction::Handshake { stream, config } = accept_action(
            answers[0].0,
            answers[0].1,
        ) {
            if let AcceptAction::Handshake { stream: s, config: c } = accept_action(
                answer.0,
                answer.1,
            ) {
                assert(seq![(stream, config)] + accept_run(answers.skip(1)).handshakes.push((s, c))
                    =~= (seq![(stream, config)] + accept_run(answers.skip(1)).handshakes).push(
                    (s, c),
                ));
            }
        }
    }
}

/// Handshakes do not hold up the accept loop: whatever they come to and
/// whenever they end, or if they never do, the listener starts the handshakes,
/// and stops, as the answers of the socket alone say.
pub proof fn handshakes_do_not_hold_up_accepts<S, P, C, T, E>(
    events: Seq<ListenerEvent<S, P, C, T, E>>,
)
    ensures
        listener_run(events).handshakes == accept_run(socket_answers(events)).handshakes,
        listener_run(events).stopped == accept_run(socket_answers(events)).failure is Some,
    decreases events.len(),
{
    if events.len() > 0 {
        let before = events.drop_last();
        handshakes_do_not_hold_up_accepts(before);
        if let ListenerEvent::Answered(outcome, config) = events.last() {
            lemma_accept_one_more(socket_answers(before), (outcome, config));
        }
    }
}

/// The error that the accept loop stops on is reported, and no other error of
/// the socket is.
pub proof fn socket_error_is_reported<S, P, C, T, E>(events: Seq<ListenerEvent<S, P, C, T, E>>)
    ensures
        accept_run(socket_answers(events)).failure matches Some(error) ==> listener_run(
            events,
        ).items.contains((None, Err(error))),
        forall|i: int|
            0 <= i < listener_run(events).items.len()
                && #[trigger] listener_run(events).items[i].0 is None ==> (accept_run(
                socket_answers(events),
            ).failure matches Some(error) && listener_run(events).items[i].1 == Err::<T, E>(error)),
    decreases events.len(),
{
    if events.len() > 0 {
        let before = events.drop_last();
        let items = listener_run(events).items;
        let old_items = listener_run(before).items;
        socket_error_is_reported(before);
        handshakes_do_not_hold_up_accepts(before);
        if let ListenerEvent::Answered(outcome, config) = events.last() {
            lemma_accept_one_more(socket_answers(before), (outcome, config));
        }
        assert forall|i: int| 0 <= i < old_items.len() implies items[i] == old_items[i] by {}
        if let Some(error) = accept_run(socket_answers(events)).failure {
            let item = (None::<nat>, Err::<T, E>(error));
            if accept_run(socket_answers(before)).failure is Some {
                let k = choose|k: int| 0 <= k < old_items.len() && old_items[k] == item;
                assert(items[k] == item);
            } else {
                assert(items[items.len() - 1] == item);
            }
        }
        assert forall|i: int|
            0 <= i < items.len() && #[trigger] items[i].0 is None implies (accept_run(
            socket_answers(events),
        ).failure matches Some(error) && items[i].1 == Err::<T, E>(error)) by {
            if i < old_items.len() {
                assert(old_items[i].0 is None);
            }
        }
    }
}

/// Each handshake that ends puts exactly one item on the channel: the
/// connection if it succeeded, its own error if it failed. Nothing else comes
/// from a handshake.
pub proof fn each_handshake_yields_one_item<S, P, C, T, E>(
    events: Seq<ListenerEvent<S, P, C, T, E>>,
)
    requires
        end_once(events),
    ensures
        forall|j: int|
            0 <= j < events.len() ==> (#[trigger] events[j] matches ListenerEvent::Handshaken(
                number,
                outcome,
            ) ==> listener_run(events).items.contains((Some(number), outcome))),
        forall|i: int|
            0 <= i < listener_run(events).items.len() ==> (
            #[trigger] listener_run(events).items[i].0 matches Some(number) ==> events.contains(
                ListenerEvent::Handshaken(number, listener_run(events).items[i].1),
            )),
        forall|i: int, j: int|
            0 <= i < j < listener_run(events).items.len()
                && #[trigger] listener_run(events).items[i].0 is Some
                ==> listener_run(events).items[i].0 != #[trigger] listener_run(events).items[j].0,
    decreases events.len(),
{
    if events.len() > 0 {
        let before = events.drop_last();
        let items = listener_run(events).items;
        let old_items = listener_run(before).items;
        let last = events.len() - 1;
        assert forall|i: int, j: int| 0 <= i < j < before.len() implies match (
            #[trigger] before[i],
            #[trigger] before[j],
        ) {
            (ListenerEvent::Handshaken(a, _), ListenerEvent::Handshaken(b, _)) => a != b,
            _ => true,
        } by {
            assert(before[i] == events[i] && before[j] == events[j]);
        }
        each_handshake_yields_one_item(before);
        assert(items.len() >= old_items.len());
        assert forall|i: int| 0 <= i < old_items.len() implies items[i] == old_items[i] by {}
        assert forall|j: int| 0 <= j < events.len() implies (
        #[trigger] events[j] matches ListenerEvent::Handshaken(number, outcome) ==> items.contains(
            (Some(number), outcome),
        )) by {
            if let ListenerEvent::Handshaken(number, outcome) = events[j] {
                let item = (Some(number), outcome);
                if j < last {
                    assert(before[j] == events[j]);
                    let k = choose|k: int| 0 <= k < old_items.len() && old_items[k] == item;
                    assert(items[k] == item);
                } else {
                    assert(items[items.len() - 1] == item);
                }
            }
        }
        assert forall|i: int| 0 <= i < items.len() implies (
        #[trigger] items[i].0 matches Some(number) ==> events.contains(
            ListenerEvent::Handshaken(number, items[i].1),
        )) by {
            if let Some(number) = items[i].0 {
                if i < old_items.len() {
                    assert(old_items[i].0 == Some(number));
                    let event = ListenerEvent::Handshaken(number, old_items[i].1);
                    assert(before.contains(event));
                    let k = choose|k: int| 0 <= k < before.len() && before[k] == event;
                    assert(events[k] == event);
                } else {
                    assert(events[last] == ListenerEvent::<S, P, C, T, E>::Handshaken(
                        number,
                        items[i].1,
                    ));
                }
            }
        }
        assert forall|i: int, j: int|
            0 <= i < j < items.len() && #[trigger] items[i].0 is Some implies items[i].0
            != #[trigger] items[j].0 by {
            assert(items[i].0 == old_items[i].0);
            if j < old_items.len() {
                assert(items[j].0 == old_items[j].0);
            } else if items[j].0 is Some {
                let number = items[i].0->Some_0;
                let event = ListenerEvent::<S, P, C, T, E>::Handshaken(number, old_items[i].1);
                assert(before.contains(event));
                let k = choose|k: int| 0 <= k < before.len() && before[k] == event;
                assert(events[k] == event);
                assert(events[last] is Handshaken);
            }
        }
    }
}

/// The connection to serve, without the address of the peer. An error is
/// passed on and does not end the stream of connections.
pub fn accepted<S, P, E>(outcome: Result<(S, P), E>) -> (r: Option<Result<S, E>>)
    ensures
        r == match outcome {
            Ok((stream, _)) => Some(Ok::<S, E>(stream)),
            Err(error) => Some(Err(error)),
        },
{
    match outcome {
        Ok((stream, _)) => Some(Ok(stream)),
        Err(error) => Some(Err(error)),
    }
}

/// The two halves of a zero-copy connection on the server side, sharing one
/// registry: the codec of the read half and the sink of the write half.
pub fn server_halves<W, Req, Resp, Item>(writer: W, fory: &Arc<Fory>) -> (halves: (
    ServerZeroCopyCodec<Req, Resp>,
    ZeroCopySink<W, Item>,
))
    ensures
        halves.0.wf(),
        halves.0@ == (CodecState { registry: **fory, awaited: None }),
        halves.1.writer() == writer,
        halves.1.pending() is None,
        halves.1.registry() == **fory,
{
    (ServerZeroCopyCodec::new(share(fory)), ZeroCopySink::new(writer, share(fory)))
}

/// The two halves of a zero-copy connection on the client side, sharing one
/// registry: the codec of the read half and the sink of the write half.
pub fn client_halves<W, Req, Resp, Item>(writer: W, fory: &Arc<Fory>) -> (halves: (
    ClientZeroCopyCodec<Req, Resp>,
    ZeroCopySink<W, Item>,
))
    ensures
        halves.0.wf(),
        halves.0@ == (CodecState { registry: **fory, awaited: None }),
        halves.1.writer() == writer,
        halves.1.pending() is None,
        halves.1.registry() == **fory,
{
    (ClientZeroCopyCodec::new(share(fory)), ZeroCopySink::new(writer, share(fory)))
}

} // verus!
