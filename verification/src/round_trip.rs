//! What comes back of the messages that the codecs are given.
//!
//! Fory itself is outside of the proofs: what it writes and reads is whatever
//! the functions handed to the codecs return. [`reads_back`] says what it means
//! that Fory undoes itself, and the laws that rest on it require it.
use fory::Fory;
use tokio_util::bytes::Bytes;
use vstd::prelude::*;

use crate::buffers::{body_content, bytes_content};
use crate::codec::{decodes, encodes, receive, CodecState};
use crate::envelope::{error_kind_survives_the_wire, ForyServerError, ServerError};
use crate::error::{CodecError, FrameError};
use crate::laws::{
    delivered, flush_run, flushed_frames_arrive_in_order, partial_writes_keep_the_frame,
    sent_frame_is_received, sink_and_encoder_agree, sink_output, takes_all, wire_stream,
};
use crate::sink::{start_frame, InFlight};
use crate::transport::{deserializes, serializes};
use crate::zerocopy::{body_bytes, encode_outcome, wire_frame, MAX_FRAME_LEN};

verus! {

/// Whatever `serialize` writes under one registry, `deserialize` reads under
/// the other as a message that is the same. What counts as the same is the
/// caller's to say: a deadline, for one, is not the same instant on arrival.
pub open spec fn reads_back<
    M,
    T,
    S: FnOnce(&Fory, &M) -> Result<Vec<u8>, fory::Error>,
    D: FnOnce(&Fory, &[u8]) -> Result<T, fory::Error>,
>(
    sender: Fory,
    serialize: S,
    receiver: Fory,
    deserialize: D,
    same: spec_fn(M, T) -> bool,
) -> bool {
    forall|message: M, envelope: Vec<u8>, bytes: &[u8], value: Result<T, fory::Error>|
        {
            &&& #[trigger] call_ensures(
                serialize,
                (&sender, &message),
                Ok::<Vec<u8>, fory::Error>(envelope),
            )
            &&& bytes@ == envelope@
            &&& #[trigger] call_ensures(deserialize, (&receiver, bytes), value)
        } ==> (value matches Ok(read) && same(message, read))
}

/// The answer `r` to a frame that carries `message` and `body`: the
/// deserialiser was handed exactly the bytes that the serialiser returned for
/// this message, and its message comes out together with the body.
pub open spec fn answers<
    M,
    T,
    S: FnOnce(&Fory, &M) -> Result<Vec<u8>, fory::Error>,
    D: FnOnce(&Fory, &[u8]) -> Result<T, fory::Error>,
>(
    sender: Fory,
    message: M,
    body: Option<Seq<u8>>,
    serialize: S,
    receiver: Fory,
    deserialize: D,
    r: Result<Option<(T, Option<Bytes>)>, CodecError>,
) -> bool {
    exists|envelope: Vec<u8>, bytes: &[u8], value: Result<T, fory::Error>|
        {
            &&& #[trigger] call_ensures(
                serialize,
                (&sender, &message),
                Ok::<Vec<u8>, fory::Error>(envelope),
            )
            &&& bytes@ == envelope@
            &&& #[trigger] call_ensures(deserialize, (&receiver, bytes), value)
            &&& match value {
                Ok(item) => r matches Ok(Some((decoded, b))) && decoded == item && body_content(b)
                    == delivered(body),
                Err(error) => r == Err::<Option<(T, Option<Bytes>)>, CodecError>(
                    CodecError::Envelope(error),
                ),
            }
        }
}

/// Whether the serialiser returned `envelope` for `message`, and the frame of
/// it and `body` was appended to `before`, which gave `after`.
spec fn appended<M, S: FnOnce(&Fory, &M) -> Result<Vec<u8>, fory::Error>>(
    sender: CodecState,
    message: M,
    body: Option<Seq<u8>>,
    before: Seq<u8>,
    after: Seq<u8>,
    serialize: S,
    envelope: Vec<u8>,
) -> bool {
    &&& call_ensures(
        serialize,
        (&sender.registry, &message),
        Ok::<Vec<u8>, fory::Error>(envelope),
    )
    &&& encode_outcome(MAX_FRAME_LEN, envelope@.len(), body_bytes(body).len()) is Ok
    &&& after == before + wire_frame(envelope@, body)
}

/// An envelope that the serialiser returned for a message that was appended.
spec fn envelope_of<M, S: FnOnce(&Fory, &M) -> Result<Vec<u8>, fory::Error>>(
    sender: CodecState,
    message: M,
    body: Option<Seq<u8>>,
    before: Seq<u8>,
    after: Seq<u8>,
    serialize: S,
) -> Vec<u8> {
    choose|envelope: Vec<u8>|
        appended(sender, message, body, before, after, serialize, envelope)
}

/// A message that was encoded had an envelope, which was appended.
proof fn lemma_encoded_was_appended<M, S: FnOnce(&Fory, &M) -> Result<Vec<u8>, fory::Error>>(
    sender: CodecState,
    message: M,
    body: Option<Seq<u8>>,
    before: Seq<u8>,
    after: Seq<u8>,
    serialize: S,
)
    requires
        encodes(sender, message, body, before, after, serialize, Ok(())),
    ensures
        appended(
            sender,
            message,
            body,
            before,
            after,
            serialize,
            envelope_of(sender, message, body, before, after, serialize),
        ),
{
    let value = choose|value: Result<Vec<u8>, fory::Error>|
        {
            &&& #[trigger] call_ensures(serialize, (&sender.registry, &message), value)
            &&& value matches Ok(envelope) && encode_outcome(
                MAX_FRAME_LEN,
                envelope@.len(),
                body_bytes(body).len(),
            ) is Ok && after == before + wire_frame(envelope@, body)
        };
    assert(appended(sender, message, body, before, after, serialize, value->Ok_0));
}

/// The answer to input that starts with the frame of a message.
proof fn lemma_frame_is_answered<
    M,
    T,
    S: FnOnce(&Fory, &M) -> Result<Vec<u8>, fory::Error>,
    D: FnOnce(&Fory, &[u8]) -> Result<T, fory::Error>,
>(
    sender: Fory,
    message: M,
    body: Option<Seq<u8>>,
    serialize: S,
    envelope: Vec<u8>,
    receiver: CodecState,
    rest: Seq<u8>,
    deserialize: D,
    r: Result<Option<(T, Option<Bytes>)>, CodecError>,
)
    requires
        call_ensures(
            serialize,
            (&sender, &message),
            Ok::<Vec<u8>, fory::Error>(envelope),
        ),
        encode_outcome(MAX_FRAME_LEN, envelope@.len(), body_bytes(body).len()) is Ok,
        receiver.awaited is None,
        decodes(receiver, wire_frame(envelope@, body) + rest, deserialize, r),
    ensures
        receive(None, wire_frame(envelope@, body) + rest).rest == rest,
        receive(None, wire_frame(envelope@, body) + rest).awaited is None,
        answers(sender, message, body, serialize, receiver.registry, deserialize, r),
{
    sink_and_encoder_agree(envelope@, body);
    sent_frame_is_received(envelope@, body, rest);
}

/// What one codec encodes, another decodes: the deserialiser of the receiving
/// side is handed exactly the bytes that the serialiser of the sending side
/// returned, and its message comes out together with the body that was sent.
/// The bytes behind the frame stay out of it.
pub proof fn decoder_reads_what_the_encoder_wrote<
    M,
    T,
    S: FnOnce(&Fory, &M) -> Result<Vec<u8>, fory::Error>,
    D: FnOnce(&Fory, &[u8]) -> Result<T, fory::Error>,
>(
    sender: CodecState,
    message: M,
    body: Option<Seq<u8>>,
    wire: Seq<u8>,
    serialize: S,
    receiver: CodecState,
    rest: Seq<u8>,
    deserialize: D,
    r: Result<Option<(T, Option<Bytes>)>, CodecError>,
)
    requires
        encodes(sender, message, body, Seq::empty(), wire, serialize, Ok(())),
        receiver.awaited is None,
        decodes(receiver, wire + rest, deserialize, r),
    ensures
        receive(None, wire + rest).rest == rest,
        receive(None, wire + rest).awaited is None,
        answers(
            sender.registry,
            message,
            body,
            serialize,
            receiver.registry,
            deserialize,
            r,
        ),
{
    let before = Seq::<u8>::empty();
    lemma_encoded_was_appended(sender, message, body, before, wire, serialize);
    let envelope = envelope_of(sender, message, body, before, wire, serialize);
    assert(wire =~= wire_frame(envelope@, body));
    lemma_frame_is_answered(
        sender.registry,
        message,
        body,
        serialize,
        envelope,
        receiver,
        rest,
        deserialize,
        r,
    );
}

/// Where Fory reads back what it writes, a message that one codec encodes comes
/// out of another as the same message, with the body that was sent.
pub proof fn message_comes_back<
    M,
    T,
    S: FnOnce(&Fory, &M) -> Result<Vec<u8>, fory::Error>,
    D: FnOnce(&Fory, &[u8]) -> Result<T, fory::Error>,
>(
    sender: CodecState,
    message: M,
    body: Option<Seq<u8>>,
    wire: Seq<u8>,
    serialize: S,
    receiver: CodecState,
    rest: Seq<u8>,
    deserialize: D,
    r: Result<Option<(T, Option<Bytes>)>, CodecError>,
    same: spec_fn(M, T) -> bool,
)
    requires
        reads_back(sender.registry, serialize, receiver.registry, deserialize, same),
        encodes(sender, message, body, Seq::empty(), wire, serialize, Ok(())),
        receiver.awaited is None,
        decodes(receiver, wire + rest, deserialize, r),
    ensures
        receive(None, wire + rest).rest == rest,
        r matches Ok(Some((read, b))) && same(message, read) && body_content(b) == delivered(body),
{
    decoder_reads_what_the_encoder_wrote(
        sender,
        message,
        body,
        wire,
        serialize,
        receiver,
        rest,
        deserialize,
        r,
    );
}

/// Messages that a codec encoded one after the other, all with success.
/// `outputs` is the output before the first and after each.
pub open spec fn encode_run<M, S: FnOnce(&Fory, &M) -> Result<Vec<u8>, fory::Error>>(
    sender: CodecState,
    items: Seq<(M, Option<Seq<u8>>)>,
    outputs: Seq<Seq<u8>>,
    serialize: S,
) -> bool {
    &&& outputs.len() == items.len() + 1
    &&& forall|i: int|
        0 <= i < items.len() ==> encodes(
            sender,
            (#[trigger] items[i]).0,
            items[i].1,
            outputs[i],
            outputs[i + 1],
            serialize,
            Ok(()),
        )
}

/// Calls that a codec answered one after the other on one input. `states` and
/// `inputs` are what the codec remembered and what the input held before the
/// first call and after each.
pub open spec fn decode_run<T, D: FnOnce(&Fory, &[u8]) -> Result<T, fory::Error>>(
    states: Seq<CodecState>,
    inputs: Seq<Seq<u8>>,
    results: Seq<Result<Option<(T, Option<Bytes>)>, CodecError>>,
    deserialize: D,
) -> bool {
    &&& states.len() == results.len() + 1
    &&& inputs.len() == results.len() + 1
    &&& forall|i: int|
        0 <= i < results.len() ==> {
            let step = receive(states[i].awaited, inputs[i]);
            &&& decodes(states[i], inputs[i], deserialize, #[trigger] results[i])
            &&& inputs[i + 1] == step.rest
            &&& states[i + 1] == (CodecState {
                registry: states[i].registry,
                awaited: step.awaited,
            })
        }
}

/// The envelopes of a run of messages, as the serialiser returned them, each
/// small enough for a frame with its body.
pub open spec fn enveloped<M, S: FnOnce(&Fory, &M) -> Result<Vec<u8>, fory::Error>>(
    sender: Fory,
    items: Seq<(M, Option<Seq<u8>>)>,
    envelopes: Seq<Vec<u8>>,
    serialize: S,
) -> bool {
    &&& envelopes.len() == items.len()
    &&& forall|i: int|
        0 <= i < items.len() ==> {
            &&& call_ensures(
                serialize,
                (&sender, &(#[trigger] items[i]).0),
                Ok::<Vec<u8>, fory::Error>(envelopes[i]),
            )
            &&& start_frame(envelopes[i]@, items[i].1) is Ok
        }
}

/// The frames of a run of messages.
pub open spec fn frames_of<M>(
    items: Seq<(M, Option<Seq<u8>>)>,
    envelopes: Seq<Vec<u8>>,
) -> Seq<(Seq<u8>, Option<Seq<u8>>)> {
    Seq::new(items.len(), |i: int| (envelopes[i]@, items[i].1))
}

/// The envelopes that the serialiser returned in a run.
spec fn envelopes_of<M, S: FnOnce(&Fory, &M) -> Result<Vec<u8>, fory::Error>>(
    sender: CodecState,
    items: Seq<(M, Option<Seq<u8>>)>,
    outputs: Seq<Seq<u8>>,
    serialize: S,
) -> Seq<Vec<u8>> {
    Seq::new(
        items.len(),
        |i: int|
            envelope_of(sender, items[i].0, items[i].1, outputs[i], outputs[i + 1], serialize),
    )
}

/// Each item of a run was appended with its envelope.
proof fn lemma_run_was_appended<M, S: FnOnce(&Fory, &M) -> Result<Vec<u8>, fory::Error>>(
    sender: CodecState,
    items: Seq<(M, Option<Seq<u8>>)>,
    outputs: Seq<Seq<u8>>,
    serialize: S,
    i: int,
)
    requires
        encode_run(sender, items, outputs, serialize),
        0 <= i < items.len(),
    ensures
        appended(
            sender,
            items[i].0,
            items[i].1,
            outputs[i],
            outputs[i + 1],
            serialize,
            envelopes_of(sender, items, outputs, serialize)[i],
        ),
{
    assert(encodes(
        sender,
        items[i].0,
        items[i].1,
        outputs[i],
        outputs[i + 1],
        serialize,
        Ok(()),
    ));
    lemma_encoded_was_appended(
        sender,
        items[i].0,
        items[i].1,
        outputs[i],
        outputs[i + 1],
        serialize,
    );
}

/// The output of a run is what it was before the item at `i`, followed by the
/// frames from there on.
proof fn lemma_run_output<M, S: FnOnce(&Fory, &M) -> Result<Vec<u8>, fory::Error>>(
    sender: CodecState,
    items: Seq<(M, Option<Seq<u8>>)>,
    outputs: Seq<Seq<u8>>,
    serialize: S,
    i: int,
)
    requires
        encode_run(sender, items, outputs, serialize),
        0 <= i <= items.len(),
    ensures
        outputs[items.len() as int] == outputs[i] + wire_stream(
            frames_of(items, envelopes_of(sender, items, outputs, serialize)).skip(i),
        ),
    decreases items.len() - i,
{
    let frames = frames_of(items, envelopes_of(sender, items, outputs, serialize));
    if i < items.len() {
        lemma_run_was_appended(sender, items, outputs, serialize, i);
        lemma_run_output(sender, items, outputs, serialize, i + 1);
        assert(frames.skip(i).skip(1) =~= frames.skip(i + 1));
        assert(frames.skip(i)[0] == frames[i]);
        let frame = wire_frame(frames[i].0, frames[i].1);
        let later = wire_stream(frames.skip(i + 1));
        assert(outputs[i] + frame + later =~= outputs[i] + (frame + later));
    } else {
        assert(wire_stream(frames.skip(i)) =~= Seq::empty());
        assert(outputs[i] + Seq::<u8>::empty() =~= outputs[i]);
    }
}

/// Before call `i` of a codec that reads the frames of a run of messages, the
/// input holds the frames from there on, and no frame has been begun.
proof fn lemma_stream_input<
    M,
    T,
    S: FnOnce(&Fory, &M) -> Result<Vec<u8>, fory::Error>,
    D: FnOnce(&Fory, &[u8]) -> Result<T, fory::Error>,
>(
    sender: Fory,
    items: Seq<(M, Option<Seq<u8>>)>,
    envelopes: Seq<Vec<u8>>,
    serialize: S,
    states: Seq<CodecState>,
    inputs: Seq<Seq<u8>>,
    results: Seq<Result<Option<(T, Option<Bytes>)>, CodecError>>,
    deserialize: D,
    i: int,
)
    requires
        enveloped(sender, items, envelopes, serialize),
        decode_run(states, inputs, results, deserialize),
        results.len() == items.len() + 1,
        inputs[0] == wire_stream(frames_of(items, envelopes)),
        states[0].awaited is None,
        0 <= i <= items.len(),
    ensures
        inputs[i] == wire_stream(frames_of(items, envelopes).skip(i)),
        states[i] == states[0],
        i < items.len() ==> answers(
            sender,
            items[i].0,
            items[i].1,
            serialize,
            states[0].registry,
            deserialize,
            results[i],
        ),
        i < items.len() ==> receive(None, inputs[i]).rest == wire_stream(
            frames_of(items, envelopes).skip(i + 1),
        ) && receive(None, inputs[i]).awaited is None,
    decreases i,
{
    let frames = frames_of(items, envelopes);
    if i == 0 {
        assert(frames.skip(0) =~= frames);
    } else {
        lemma_stream_input(
            sender,
            items,
            envelopes,
            serialize,
            states,
            inputs,
            results,
            deserialize,
            i - 1,
        );
        assert(decodes(states[i - 1], inputs[i - 1], deserialize, results[i - 1]));
    }
    if i < items.len() {
        assert(start_frame(envelopes[i]@, items[i].1) is Ok);
        sink_and_encoder_agree(envelopes[i]@, items[i].1);
        assert(decodes(states[i], inputs[i], deserialize, results[i]));
        assert(frames.skip(i).skip(1) =~= frames.skip(i + 1));
        assert(frames.skip(i)[0] == frames[i]);
        lemma_frame_is_answered(
            sender,
            items[i].0,
            items[i].1,
            serialize,
            envelopes[i],
            states[i],
            wire_stream(frames.skip(i + 1)),
            deserialize,
            results[i],
        );
    }
}

/// The frames of a run of messages are answered in order, one per call; one
/// call more finds nothing and leaves nothing.
proof fn lemma_stream_is_answered<
    M,
    T,
    S: FnOnce(&Fory, &M) -> Result<Vec<u8>, fory::Error>,
    D: FnOnce(&Fory, &[u8]) -> Result<T, fory::Error>,
>(
    sender: Fory,
    items: Seq<(M, Option<Seq<u8>>)>,
    envelopes: Seq<Vec<u8>>,
    serialize: S,
    states: Seq<CodecState>,
    inputs: Seq<Seq<u8>>,
    results: Seq<Result<Option<(T, Option<Bytes>)>, CodecError>>,
    deserialize: D,
)
    requires
        enveloped(sender, items, envelopes, serialize),
        decode_run(states, inputs, results, deserialize),
        results.len() == items.len() + 1,
        inputs[0] == wire_stream(frames_of(items, envelopes)),
        states[0].awaited is None,
    ensures
        forall|i: int|
            0 <= i < items.len() ==> answers(
                sender,
                (#[trigger] items[i]).0,
                items[i].1,
                serialize,
                states[0].registry,
                deserialize,
                results[i],
            ),
        results.last() == Ok::<Option<(T, Option<Bytes>)>, CodecError>(None),
        inputs.last() == Seq::<u8>::empty(),
        states.last() == states[0],
{
    assert forall|i: int| 0 <= i < items.len() implies answers(
        sender,
        (#[trigger] items[i]).0,
        items[i].1,
        serialize,
        states[0].registry,
        deserialize,
        results[i],
    ) by {
        lemma_stream_input(
            sender,
            items,
            envelopes,
            serialize,
            states,
            inputs,
            results,
            deserialize,
            i,
        );
    }
    let k = items.len() as int;
    lemma_stream_input(
        sender,
        items,
        envelopes,
        serialize,
        states,
        inputs,
        results,
        deserialize,
        k,
    );
    assert(wire_stream(frames_of(items, envelopes).skip(k)) =~= Seq::empty());
    assert(decodes(states[k], inputs[k], deserialize, results[k]));
}

/// Messages that one codec encodes one after the other into an empty output are
/// decoded by another in the same order, one per call: each call hands the
/// deserialiser exactly the bytes that the serialiser returned for its message,
/// and gives that message's body. One call more finds nothing and leaves
/// nothing.
pub proof fn messages_are_read_in_order<
    M,
    T,
    S: FnOnce(&Fory, &M) -> Result<Vec<u8>, fory::Error>,
    D: FnOnce(&Fory, &[u8]) -> Result<T, fory::Error>,
>(
    sender: CodecState,
    items: Seq<(M, Option<Seq<u8>>)>,
    outputs: Seq<Seq<u8>>,
    serialize: S,
    states: Seq<CodecState>,
    inputs: Seq<Seq<u8>>,
    results: Seq<Result<Option<(T, Option<Bytes>)>, CodecError>>,
    deserialize: D,
)
    requires
        encode_run(sender, items, outputs, serialize),
        outputs[0] == Seq::<u8>::empty(),
        decode_run(states, inputs, results, deserialize),
        results.len() == items.len() + 1,
        inputs[0] == outputs[items.len() as int],
        states[0].awaited is None,
    ensures
        forall|i: int|
            0 <= i < items.len() ==> answers(
                sender.registry,
                (#[trigger] items[i]).0,
                items[i].1,
                serialize,
                states[0].registry,
                deserialize,
                results[i],
            ),
        results.last() == Ok::<Option<(T, Option<Bytes>)>, CodecError>(None),
        inputs.last() == Seq::<u8>::empty(),
        states.last() == states[0],
{
    let envelopes = envelopes_of(sender, items, outputs, serialize);
    let frames = frames_of(items, envelopes);
    assert forall|i: int| 0 <= i < items.len() implies {
        &&& call_ensures(
            serialize,
            (&sender.registry, &(#[trigger] items[i]).0),
            Ok::<Vec<u8>, fory::Error>(envelopes[i]),
        )
        &&& start_frame(envelopes[i]@, items[i].1) is Ok
    } by {
        lemma_run_was_appended(sender, items, outputs, serialize, i);
        sink_and_encoder_agree(envelopes[i]@, items[i].1);
    }
    lemma_run_output(sender, items, outputs, serialize, 0);
    assert(frames.skip(0) =~= frames);
    assert(inputs[0] =~= wire_stream(frames));
    lemma_stream_is_answered(
        sender.registry,
        items,
        envelopes,
        serialize,
        states,
        inputs,
        results,
        deserialize,
    );
}

/// A message that a sink sends is decoded by the peer: once its serialised
/// envelope and its body have been started as a frame and the writer has taken
/// all of it, however few bytes at a time, nothing is in flight, and the
/// deserialiser of the peer is handed exactly the bytes that the serialiser
/// returned. The bytes behind the frame stay out of it.
pub proof fn flushed_message_is_answered<
    M,
    T,
    S: FnOnce(&Fory, &M) -> Result<Vec<u8>, fory::Error>,
    D: FnOnce(&Fory, &[u8]) -> Result<T, fory::Error>,
>(
    sender: Fory,
    message: M,
    envelope: Vec<u8>,
    body: Option<Seq<u8>>,
    serialize: S,
    frame: InFlight,
    counts: Seq<usize>,
    receiver: CodecState,
    rest: Seq<u8>,
    deserialize: D,
    r: Result<Option<(T, Option<Bytes>)>, CodecError>,
)
    requires
        call_ensures(
            serialize,
            (&sender, &message),
            Ok::<Vec<u8>, fory::Error>(envelope),
        ),
        start_frame(envelope@, body) == Ok::<InFlight, FrameError>(frame),
        takes_all((envelope@, body), counts),
        receiver.awaited is None,
        decodes(receiver, flush_run(Some(frame), counts).written + rest, deserialize, r),
    ensures
        flush_run(Some(frame), counts).pending is None,
        receive(None, flush_run(Some(frame), counts).written + rest).rest == rest,
        answers(sender, message, body, serialize, receiver.registry, deserialize, r),
{
    partial_writes_keep_the_frame(frame, counts);
    assert(frame.wire().skip(0).take(frame.wire().len() as int) =~= frame.wire());
    sink_and_encoder_agree(envelope@, body);
    lemma_frame_is_answered(
        sender,
        message,
        body,
        serialize,
        envelope,
        receiver,
        rest,
        deserialize,
        r,
    );
}

/// Messages that a sink sends one after the other, each flushed before the
/// next, are decoded by the peer in the same order, one per call; one call more
/// finds nothing and leaves nothing.
pub proof fn flushed_messages_are_read_in_order<
    M,
    T,
    S: FnOnce(&Fory, &M) -> Result<Vec<u8>, fory::Error>,
    D: FnOnce(&Fory, &[u8]) -> Result<T, fory::Error>,
>(
    sender: Fory,
    items: Seq<(M, Option<Seq<u8>>)>,
    envelopes: Seq<Vec<u8>>,
    serialize: S,
    counts: Seq<Seq<usize>>,
    states: Seq<CodecState>,
    inputs: Seq<Seq<u8>>,
    results: Seq<Result<Option<(T, Option<Bytes>)>, CodecError>>,
    deserialize: D,
)
    requires
        enveloped(sender, items, envelopes, serialize),
        counts.len() == items.len(),
        forall|i: int|
            0 <= i < items.len() ==> takes_all(
                (envelopes[i]@, (#[trigger] items[i]).1),
                counts[i],
            ),
        decode_run(states, inputs, results, deserialize),
        results.len() == items.len() + 1,
        inputs[0] == sink_output(frames_of(items, envelopes), counts),
        states[0].awaited is None,
    ensures
        forall|i: int|
            0 <= i < items.len() ==> answers(
                sender,
                (#[trigger] items[i]).0,
                items[i].1,
                serialize,
                states[0].registry,
                deserialize,
                results[i],
            ),
        results.last() == Ok::<Option<(T, Option<Bytes>)>, CodecError>(None),
        inputs.last() == Seq::<u8>::empty(),
        states.last() == states[0],
{
    let frames = frames_of(items, envelopes);
    assert forall|i: int| 0 <= i < frames.len() implies start_frame(
        (#[trigger] frames[i]).0,
        frames[i].1,
    ) is Ok && takes_all(frames[i], counts[i]) by {
        assert(frames[i] == (envelopes[i]@, items[i].1));
    }
    flushed_frames_arrive_in_order(frames, counts);
    lemma_stream_is_answered(
        sender,
        items,
        envelopes,
        serialize,
        states,
        inputs,
        results,
        deserialize,
    );
}

/// Where Fory reads back what it writes, the messages that a sink sends one
/// after the other come out of the peer's codec in the same order, each the
/// same message with its own body.
pub proof fn flushed_messages_come_back_in_order<
    M,
    T,
    S: FnOnce(&Fory, &M) -> Result<Vec<u8>, fory::Error>,
    D: FnOnce(&Fory, &[u8]) -> Result<T, fory::Error>,
>(
    sender: Fory,
    items: Seq<(M, Option<Seq<u8>>)>,
    envelopes: Seq<Vec<u8>>,
    serialize: S,
    counts: Seq<Seq<usize>>,
    states: Seq<CodecState>,
    inputs: Seq<Seq<u8>>,
    results: Seq<Result<Option<(T, Option<Bytes>)>, CodecError>>,
    deserialize: D,
    same: spec_fn(M, T) -> bool,
)
    requires
        reads_back(sender, serialize, states[0].registry, deserialize, same),
        enveloped(sender, items, envelopes, serialize),
        counts.len() == items.len(),
        forall|i: int|
            0 <= i < items.len() ==> takes_all(
                (envelopes[i]@, (#[trigger] items[i]).1),
                counts[i],
            ),
        decode_run(states, inputs, results, deserialize),
        results.len() == items.len() + 1,
        inputs[0] == sink_output(frames_of(items, envelopes), counts),
        states[0].awaited is None,
    ensures
        forall|i: int|
            0 <= i < items.len() ==> (results[i] matches Ok(Some((read, b))) && same(
                (#[trigger] items[i]).0,
                read,
            ) && body_content(b) == delivered(items[i].1)),
        results.last() == Ok::<Option<(T, Option<Bytes>)>, CodecError>(None),
        inputs.last() == Seq::<u8>::empty(),
{
    flushed_messages_are_read_in_order(
        sender,
        items,
        envelopes,
        serialize,
        counts,
        states,
        inputs,
        results,
        deserialize,
    );
    assert forall|i: int| 0 <= i < items.len() implies (results[i] matches Ok(Some((read, b)))
        && same((#[trigger] items[i]).0, read) && body_content(b) == delivered(items[i].1)) by {
        assert(answers(
            sender,
            items[i].0,
            items[i].1,
            serialize,
            states[0].registry,
            deserialize,
            results[i],
        ));
    }
}

/// Where Fory reads back what it writes, the messages that one codec encodes
/// one after the other come out of another in the same order, each the same
/// message with its own body; one call more finds nothing and leaves nothing.
pub proof fn messages_come_back_in_order<
    M,
    T,
    S: FnOnce(&Fory, &M) -> Result<Vec<u8>, fory::Error>,
    D: FnOnce(&Fory, &[u8]) -> Result<T, fory::Error>,
>(
    sender: CodecState,
    items: Seq<(M, Option<Seq<u8>>)>,
    outputs: Seq<Seq<u8>>,
    serialize: S,
    states: Seq<CodecState>,
    inputs: Seq<Seq<u8>>,
    results: Seq<Result<Option<(T, Option<Bytes>)>, CodecError>>,
    deserialize: D,
    same: spec_fn(M, T) -> bool,
)
    requires
        reads_back(sender.registry, serialize, states[0].registry, deserialize, same),
        encode_run(sender, items, outputs, serialize),
        outputs[0] == Seq::<u8>::empty(),
        decode_run(states, inputs, results, deserialize),
        results.len() == items.len() + 1,
        inputs[0] == outputs[items.len() as int],
        states[0].awaited is None,
    ensures
        forall|i: int|
            0 <= i < items.len() ==> (results[i] matches Ok(Some((read, b))) && same(
                (#[trigger] items[i]).0,
                read,
            ) && body_content(b) == delivered(items[i].1)),
        results.last() == Ok::<Option<(T, Option<Bytes>)>, CodecError>(None),
        inputs.last() == Seq::<u8>::empty(),
{
    messages_are_read_in_order(
        sender,
        items,
        outputs,
        serialize,
        states,
        inputs,
        results,
        deserialize,
    );
    assert forall|i: int| 0 <= i < items.len() implies (results[i] matches Ok(Some((read, b)))
        && same((#[trigger] items[i]).0, read) && body_content(b) == delivered(items[i].1)) by {
        assert(answers(
            sender.registry,
            items[i].0,
            items[i].1,
            serialize,
            states[0].registry,
            deserialize,
            results[i],
        ));
    }
}

/// The envelope codec hands the deserialiser exactly the bytes that the
/// serialiser returned, and answers what the deserialiser answers.
pub proof fn envelope_codec_reads_what_it_wrote<
    M,
    T,
    S: FnOnce(&Fory, &M) -> Result<Vec<u8>, fory::Error>,
    D: FnOnce(&Fory, &[u8]) -> Result<T, fory::Error>,
>(
    sender: Fory,
    message: M,
    serialize: S,
    sent: Bytes,
    receiver: Fory,
    deserialize: D,
    r: Result<T, CodecError>,
)
    requires
        serializes(sender, message, serialize, Ok(sent)),
        deserializes(receiver, bytes_content(sent), deserialize, r),
    ensures
        exists|envelope: Vec<u8>, bytes: &[u8], value: Result<T, fory::Error>|
            {
                &&& #[trigger] call_ensures(
                    serialize,
                    (&sender, &message),
                    Ok::<Vec<u8>, fory::Error>(envelope),
                )
                &&& bytes@ == envelope@
                &&& #[trigger] call_ensures(deserialize, (&receiver, bytes), value)
                &&& r == match value {
                    Ok(read) => Ok::<T, CodecError>(read),
                    Err(error) => Err(CodecError::Envelope(error)),
                }
            },
{
    let written = choose|value: Result<Vec<u8>, fory::Error>|
        {
            &&& #[trigger] call_ensures(serialize, (&sender, &message), value)
            &&& value matches Ok(envelope) && bytes_content(sent) == envelope@
        };
    let envelope = written->Ok_0;
    assert(call_ensures(
        serialize,
        (&sender, &message),
        Ok::<Vec<u8>, fory::Error>(envelope),
    ));
}

/// Where Fory reads back what it writes, a message comes out of the envelope
/// codec as the same message that went in.
pub proof fn envelope_codec_gives_the_message_back<
    M,
    T,
    S: FnOnce(&Fory, &M) -> Result<Vec<u8>, fory::Error>,
    D: FnOnce(&Fory, &[u8]) -> Result<T, fory::Error>,
>(
    sender: Fory,
    message: M,
    serialize: S,
    sent: Bytes,
    receiver: Fory,
    deserialize: D,
    r: Result<T, CodecError>,
    same: spec_fn(M, T) -> bool,
)
    requires
        reads_back(sender, serialize, receiver, deserialize, same),
        serializes(sender, message, serialize, Ok(sent)),
        deserializes(receiver, bytes_content(sent), deserialize, r),
    ensures
        r matches Ok(read) && same(message, read),
{
    envelope_codec_reads_what_it_wrote(sender, message, serialize, sent, receiver, deserialize, r);
}

/// Where Fory reads back the wire form of server errors, a server error that
/// goes through the envelope codec arrives with its category and its detail:
/// no two of the categories are confused.
pub proof fn server_error_comes_through_the_envelope_codec<
    S: FnOnce(&Fory, &ForyServerError) -> Result<Vec<u8>, fory::Error>,
    D: FnOnce(&Fory, &[u8]) -> Result<ForyServerError, fory::Error>,
>(
    sender: Fory,
    error: ServerError,
    serialize: S,
    sent: Bytes,
    receiver: Fory,
    deserialize: D,
    r: Result<ForyServerError, CodecError>,
)
    requires
        reads_back(
            sender,
            serialize,
            receiver,
            deserialize,
            |a: ForyServerError, b: ForyServerError| a.kind == b.kind && a.detail@ == b.detail@,
        ),
        serializes(
            sender,
            <ForyServerError as vstd::std_specs::convert::FromSpec<&ServerError>>::from_spec(
                &error,
            ),
            serialize,
            Ok(sent),
        ),
        deserializes(receiver, bytes_content(sent), deserialize, r),
    ensures
        r matches Ok(wire) && {
            let read = <ServerError as vstd::std_specs::convert::FromSpec<
                ForyServerError,
            >>::from_spec(wire);
            read.kind == error.kind && read.detail@ == error.detail@
        },
{
    envelope_codec_gives_the_message_back(
        sender,
        <ForyServerError as vstd::std_specs::convert::FromSpec<&ServerError>>::from_spec(&error),
        serialize,
        sent,
        receiver,
        deserialize,
        r,
        |a: ForyServerError, b: ForyServerError| a.kind == b.kind && a.detail@ == b.detail@,
    );
    error_kind_survives_the_wire(error.kind);
}

} // verus!
