//! Laws of the calls of the two zero-copy codecs.
use fory::Fory;
use std::sync::Arc;
use tarpc::{ClientMessage, Response};
use tokio_util::bytes::{Bytes, BytesMut};
use vstd::prelude::*;

use crate::buffers::{body_content, buffer_content};
use crate::codec::{
    borrowed, decoded, decodes, encodes, receive, taken_off, ClientZeroCopyCodec, CodecState,
    ServerZeroCopyCodec,
};
use crate::error::{CodecError, FrameError};
use crate::guarantees::frames::{
    appends_what_fits, be4, body_of, is_frame, le4, lemma_appends_what_fits,
};
use crate::zerocopy::{encode_outcome, split_frame_body, wire_frame, MAX_FRAME_LEN};

verus! {

/// The answer to a whole frame whose inside is `all`. The deserialiser is handed
/// the bytes before the body, and its message comes out with the body, of which
/// there is none where its length is zero. Only a frame that is too short, for
/// the length of the body or for the body, is refused without it.
pub open spec fn answers_frame<T, D: FnOnce(&Fory, &[u8]) -> Result<T, fory::Error>>(
    registry: Fory,
    all: Seq<u8>,
    deserialize: D,
    r: Result<Option<(T, Option<Bytes>)>, CodecError>,
) -> bool {
    let n = all.len() as int;
    let b = le4(all.subrange(n - 4, n));
    if n < 4 {
        r == Err::<Option<(T, Option<Bytes>)>, CodecError>(
            CodecError::Frame(FrameError::SuffixMissing),
        )
    } else if b > n - 4 {
        r == Err::<Option<(T, Option<Bytes>)>, CodecError>(
            CodecError::Frame(
                FrameError::BodyLenTooLarge { body_len: b as usize, remaining: (n - 4) as usize },
            ),
        )
    } else {
        exists|bytes: &[u8], value: Result<T, fory::Error>|
            {
                &&& bytes@ == all.subrange(0, n - 4 - b)
                &&& #[trigger] call_ensures(deserialize, (&registry, bytes), value)
                &&& match value {
                    Ok(item) => {
                        &&& r matches Ok(Some((read, body)))
                        &&& read == item
                        &&& body is Some <==> b > 0
                        &&& body_of(body) == all.subrange(n - 4 - b, n - 4)
                    },
                    Err(error) => r == Err::<Option<(T, Option<Bytes>)>, CodecError>(
                        CodecError::Envelope(error),
                    ),
                }
            }
    }
}

/// The answer of a codec to its input. While the four bytes of a length, or the
/// bytes that it counts, are not all there, the answer is that more is needed;
/// the length is taken off the input as soon as it is there, unless it is above
/// 64 MiB, which is refused. Once they are all there, exactly they are taken off
/// and answered, never passed over.
pub open spec fn answers_input<T, D: FnOnce(&Fory, &[u8]) -> Result<T, fory::Error>>(
    before: CodecState,
    input: Seq<u8>,
    after: CodecState,
    left: Seq<u8>,
    deserialize: D,
    r: Result<Option<(T, Option<Bytes>)>, CodecError>,
) -> bool {
    let head: int = if before.awaited is None {
        4
    } else {
        0
    };
    let announced: int = match before.awaited {
        Some(n) => n as int,
        None => be4(input),
    };
    &&& after.registry == before.registry
    &&& if input.len() < head {
        &&& r matches Ok(None)
        &&& after.awaited == before.awaited
        &&& left == input
    } else if before.awaited is None && announced > 67108864 {
        &&& r == Err::<Option<(T, Option<Bytes>)>, CodecError>(
            CodecError::Frame(FrameError::Oversized),
        )
        &&& after.awaited == before.awaited
        &&& left == input
    } else if input.len() < head + announced {
        &&& r matches Ok(None)
        &&& after.awaited matches Some(n) && n == announced
        &&& left == input.subrange(head, input.len() as int)
    } else {
        &&& after.awaited is None
        &&& left == input.subrange(head + announced, input.len() as int)
        &&& answers_frame(
            before.registry,
            input.subrange(head, head + announced),
            deserialize,
            r,
        )
    }
}

/// The contract of decoding answers a whole frame.
proof fn lemma_answers_frame<T, D: FnOnce(&Fory, &[u8]) -> Result<T, fory::Error>>(
    state: CodecState,
    input: Seq<u8>,
    all: Seq<u8>,
    deserialize: D,
    r: Result<Option<(T, Option<Bytes>)>, CodecError>,
)
    requires
        decodes(state, input, deserialize, r),
        receive(state.awaited, input).frame == (match crate::zerocopy::split_payload(all) {
            Ok(parts) => Ok::<Option<(Seq<u8>, Option<Seq<u8>>)>, FrameError>(Some(parts)),
            Err(error) => Err(error),
        }),
    ensures
        answers_frame(state.registry, all, deserialize, r),
{
    let n = all.len() as int;
    if n >= 4 {
        let rest = all.take(n - 4);
        let b = le4(all.subrange(n - 4, n));
        assert(all.skip(n - 4) =~= all.subrange(n - 4, n));
        if b <= n - 4 {
            assert(rest.take(n - 4 - b) =~= all.subrange(0, n - 4 - b));
            assert(rest.skip(n - 4 - b) =~= all.subrange(n - 4 - b, n - 4));
            assert(b == 0 ==> all.subrange(n - 4 - b, n - 4) =~= Seq::<u8>::empty());
            let (bytes, value) = choose|bytes: &[u8], value: Result<T, fory::Error>|
                {
                    &&& bytes@ == rest.take(n - 4 - b)
                    &&& #[trigger] call_ensures(deserialize, (&state.registry, bytes), value)
                    &&& match value {
                        Ok(item) => r matches Ok(Some((read, body))) && read == item
                            && body_content(body) == (if b > 0 {
                            Some(rest.skip(n - 4 - b))
                        } else {
                            None
                        }),
                        Err(error) => r == Err::<Option<(T, Option<Bytes>)>, CodecError>(
                            CodecError::Envelope(error),
                        ),
                    }
                };
            assert(call_ensures(deserialize, (&state.registry, bytes), value));
        }
    }
}

/// The contract of decoding answers its input.
proof fn lemma_answers_input<T, D: FnOnce(&Fory, &[u8]) -> Result<T, fory::Error>>(
    before: CodecState,
    input: Seq<u8>,
    after: CodecState,
    left: Seq<u8>,
    deserialize: D,
    r: Result<Option<(T, Option<Bytes>)>, CodecError>,
)
    requires
        after == (CodecState {
            registry: before.registry,
            awaited: receive(before.awaited, input).awaited,
        }),
        left == receive(before.awaited, input).rest,
        decodes(before, input, deserialize, r),
    ensures
        answers_input(before, input, after, left, deserialize, r),
{
    match before.awaited {
        Some(n) => {
            let n = n as int;
            if input.len() < n {
                assert(input.subrange(0, input.len() as int) =~= input);
            } else {
                assert(input.take(n) =~= input.subrange(0, n));
                assert(input.skip(n) =~= input.subrange(n, input.len() as int));
                lemma_answers_frame(before, input, input.subrange(0, n), deserialize, r);
            }
        },
        None => {
            if input.len() >= 4 && be4(input) <= 67108864 {
                let n = be4(input);
                let body = input.skip(4);
                if input.len() < 4 + n {
                    assert(body =~= input.subrange(4, input.len() as int));
                } else {
                    assert(body.take(n) =~= input.subrange(4, 4 + n));
                    assert(body.skip(n) =~= input.subrange(4 + n, input.len() as int));
                    lemma_answers_frame(before, input, input.subrange(4, 4 + n), deserialize, r);
                }
            }
        },
    }
}

/// More input is asked for exactly while bytes are missing: of the length, or
/// of the frame that it announces. A frame that is all there is never passed
/// over, whether its length came with it or before it.
pub proof fn only_missing_bytes_are_awaited<T, D: FnOnce(&Fory, &[u8]) -> Result<T, fory::Error>>(
    before: CodecState,
    input: Seq<u8>,
    after: CodecState,
    left: Seq<u8>,
    deserialize: D,
    r: Result<Option<(T, Option<Bytes>)>, CodecError>,
)
    requires
        answers_input(before, input, after, left, deserialize, r),
    ensures
        before.awaited matches Some(n) ==> ((r matches Ok(None)) <==> input.len() < n),
        before.awaited is None ==> ((r matches Ok(None)) <==> {
            ||| input.len() < 4
            ||| be4(input) <= 67108864 && input.len() < 4 + be4(input)
        }),
{
}

/// A frame whose length came in an earlier piece is answered as if the length
/// had come with it.
pub proof fn length_may_come_first<T, D: FnOnce(&Fory, &[u8]) -> Result<T, fory::Error>>(
    registry: Fory,
    length: Seq<u8>,
    n: usize,
    input: Seq<u8>,
    after: CodecState,
    left: Seq<u8>,
    deserialize: D,
    r: Result<Option<(T, Option<Bytes>)>, CodecError>,
)
    requires
        length.len() == 4,
        be4(length) == n <= 67108864,
        answers_input(
            CodecState { registry, awaited: Some(n) },
            input,
            after,
            left,
            deserialize,
            r,
        ),
    ensures
        answers_input(
            CodecState { registry, awaited: None },
            length + input,
            after,
            left,
            deserialize,
            r,
        ),
{
    let whole = length + input;
    assert(be4(whole) == be4(length));
    assert(whole.subrange(4, whole.len() as int) =~= input.subrange(0, input.len() as int));
    if input.len() >= n {
        assert(whole.subrange(4, 4 + n) =~= input.subrange(0, n as int));
        assert(whole.subrange(4 + n, whole.len() as int) =~= input.subrange(
            n as int,
            input.len() as int,
        ));
    }
}

/// Input that comes in two pieces is answered as it would be in one: if the
/// first piece is not enough, the answer to what it left, with the second piece
/// behind, is the answer to both at once.
pub proof fn pieces_are_answered_as_one<T, D: FnOnce(&Fory, &[u8]) -> Result<T, fory::Error>>(
    before: CodecState,
    first: Seq<u8>,
    between: CodecState,
    left: Seq<u8>,
    waiting: Result<Option<(T, Option<Bytes>)>, CodecError>,
    second: Seq<u8>,
    after: CodecState,
    rest: Seq<u8>,
    r: Result<Option<(T, Option<Bytes>)>, CodecError>,
    early: D,
    late: D,
)
    requires
        waiting matches Ok(None),
        answers_input(before, first, between, left, early, waiting),
        answers_input(between, left + second, after, rest, late, r),
    ensures
        answers_input(before, first + second, after, rest, late, r),
{
    let whole = first + second;
    if before.awaited is None && first.len() >= 4 {
        let n = be4(first);
        assert(be4(whole) == n);
        if n <= 67108864 {
            if first.len() < 4 + n {
                let input = left + second;
                assert(whole.subrange(4, whole.len() as int) =~= input);
                if input.len() < n {
                    assert(input.subrange(0, input.len() as int) =~= input);
                } else {
                    assert(whole.subrange(4, 4 + n) =~= input.subrange(0, n));
                    assert(whole.subrange(4 + n, whole.len() as int) =~= input.subrange(
                        n,
                        input.len() as int,
                    ));
                }
            }
        }
    } else if before.awaited is Some {
        assert(first.subrange(0, first.len() as int) =~= first);
    }
}

/// A frame that arrives cut anywhere is answered: as long as bytes of it are
/// missing the answer is that more is needed, and with the last of them the
/// deserialiser is handed its envelope and its body comes out.
pub proof fn cut_frame_is_answered<T, D: FnOnce(&Fory, &[u8]) -> Result<T, fory::Error>>(
    wire: Seq<u8>,
    envelope: Seq<u8>,
    body: Seq<u8>,
    rest: Seq<u8>,
    before: CodecState,
    input: Seq<u8>,
    after: CodecState,
    left: Seq<u8>,
    deserialize: D,
    r: Result<Option<(T, Option<Bytes>)>, CodecError>,
)
    requires
        envelope.len() + body.len() + 4 <= 67108864,
        is_frame(wire, envelope, body),
        before.awaited is None,
        input.is_prefix_of(wire + rest),
        answers_input(before, input, after, left, deserialize, r),
    ensures
        input.len() < wire.len() ==> (r matches Ok(None)),
        input.len() >= wire.len() ==> {
            &&& after.awaited is None
            &&& left == input.skip(wire.len() as int)
            &&& exists|bytes: &[u8], value: Result<T, fory::Error>|
                {
                    &&& bytes@ == envelope
                    &&& #[trigger] call_ensures(deserialize, (&before.registry, bytes), value)
                    &&& match value {
                        Ok(item) => {
                            &&& r matches Ok(Some((read, b)))
                            &&& read == item
                            &&& b is Some <==> body.len() > 0
                            &&& body_of(b) == body
                        },
                        Err(error) => r == Err::<Option<(T, Option<Bytes>)>, CodecError>(
                            CodecError::Envelope(error),
                        ),
                    }
                }
        },
{
    let e = envelope.len() as int;
    let b = body.len() as int;
    let all = wire + rest;
    assert(input =~= all.subrange(0, input.len() as int));
    if input.len() >= 4 {
        assert(forall|i: int| 0 <= i < 4 ==> input[i] == wire[i]);
        assert(be4(input) == e + b + 4);
        if input.len() >= wire.len() {
            let frame = input.subrange(4, 8 + e + b);
            let n = frame.len() as int;
            assert(frame =~= wire.subrange(4, 8 + e + b));
            assert(frame.subrange(n - 4, n) =~= wire.subrange(4 + e + b, 8 + e + b));
            assert(frame.subrange(0, e) =~= wire.subrange(4, 4 + e));
            assert(frame.subrange(e, e + b) =~= wire.subrange(4 + e, 4 + e + b));
            assert(input.subrange(8 + e + b, input.len() as int) =~= input.skip(8 + e + b));
        }
    }
}

/// The answer to a message that is encoded, whose output was `before` and is
/// `after`. A message that Fory cannot write is refused with Fory's error; any
/// other is appended exactly where it fits in 64 MiB.
pub open spec fn answers_message<M, S: FnOnce(&Fory, &M) -> Result<Vec<u8>, fory::Error>>(
    registry: Fory,
    message: M,
    body: Seq<u8>,
    before: Seq<u8>,
    after: Seq<u8>,
    serialize: S,
    r: Result<(), CodecError>,
) -> bool {
    exists|value: Result<Vec<u8>, fory::Error>|
        {
            &&& #[trigger] call_ensures(serialize, (&registry, &message), value)
            &&& match (value, r) {
                (Ok(envelope), Ok(())) => appends_what_fits(
                    67108864,
                    envelope@,
                    body,
                    before,
                    after,
                    Ok(()),
                ),
                (Ok(envelope), Err(CodecError::Frame(error))) => appends_what_fits(
                    67108864,
                    envelope@,
                    body,
                    before,
                    after,
                    Err(error),
                ),
                (Ok(_), Err(_)) => false,
                (Err(error), _) => {
                    &&& r == Err::<(), CodecError>(CodecError::Envelope(error))
                    &&& after == before
                },
            }
        }
}

/// The contract of encoding answers a message.
proof fn lemma_answers_message<M, S: FnOnce(&Fory, &M) -> Result<Vec<u8>, fory::Error>>(
    state: CodecState,
    message: M,
    body: Option<Bytes>,
    before: Seq<u8>,
    after: Seq<u8>,
    serialize: S,
    r: Result<(), CodecError>,
)
    requires
        encodes(state, message, body_content(body), before, after, serialize, r),
    ensures
        answers_message(state.registry, message, body_of(body), before, after, serialize, r),
{
    let sent = body_content(body);
    let bytes = body_of(body);
    let value = choose|value: Result<Vec<u8>, fory::Error>|
        {
            &&& #[trigger] call_ensures(serialize, (&state.registry, &message), value)
            &&& match value {
                Ok(envelope) => match encode_outcome(
                    MAX_FRAME_LEN,
                    envelope@.len(),
                    bytes.len(),
                ) {
                    Ok(()) => r is Ok && after == before + wire_frame(envelope@, sent),
                    Err(error) => r == Err::<(), CodecError>(CodecError::Frame(error)) && after
                        == before,
                },
                Err(error) => r == Err::<(), CodecError>(CodecError::Envelope(error)) && after
                    == before,
            }
        };
    if let Ok(envelope) = value {
        let answer = encode_outcome(MAX_FRAME_LEN, envelope@.len(), bytes.len());
        lemma_appends_what_fits(MAX_FRAME_LEN, envelope@, sent, bytes, before, after, answer);
    }
    assert(call_ensures(serialize, (&state.registry, &message), value));
}

/// Every call of the server's decoder answers its input.
pub proof fn server_decoder_answers<
    Req,
    Resp,
    D: FnOnce(&Fory, &[u8]) -> Result<ClientMessage<Req>, fory::Error>,
>()
    ensures
        forall|
            codec: &mut ServerZeroCopyCodec<Req, Resp>,
            src: &mut BytesMut,
            deserialize: D,
            r: Result<Option<(ClientMessage<Req>, Option<Bytes>)>, CodecError>,
        | #[trigger]
            call_ensures(
                ServerZeroCopyCodec::<Req, Resp>::decode::<D>,
                (codec, src, deserialize),
                r,
            ) ==> final(codec).wf() && answers_input(
                codec@,
                buffer_content(*src),
                final(codec)@,
                buffer_content(*final(src)),
                deserialize,
                r,
            ),
{
    assert forall|
        codec: &mut ServerZeroCopyCodec<Req, Resp>,
        src: &mut BytesMut,
        deserialize: D,
        r: Result<Option<(ClientMessage<Req>, Option<Bytes>)>, CodecError>,
    | #[trigger]
        call_ensures(
            ServerZeroCopyCodec::<Req, Resp>::decode::<D>,
            (codec, src, deserialize),
            r,
        ) implies final(codec).wf() && answers_input(
        codec@,
        buffer_content(*src),
        final(codec)@,
        buffer_content(*final(src)),
        deserialize,
        r,
    ) by {
        lemma_answers_input(
            codec@,
            buffer_content(*src),
            final(codec)@,
            buffer_content(*final(src)),
            deserialize,
            r,
        );
    }
}

/// What the server's decoder gives was read in place: the frame was taken off the
/// input's own buffer and cut there, and the message was read from that piece.
pub proof fn server_decoder_reads_in_place<
    Req,
    Resp,
    D: FnOnce(&Fory, &[u8]) -> Result<ClientMessage<Req>, fory::Error>,
>()
    ensures
        forall|
            codec: &mut ServerZeroCopyCodec<Req, Resp>,
            src: &mut BytesMut,
            deserialize: D,
            item: ClientMessage<Req>,
            body: Option<Bytes>,
        | #[trigger]
            call_ensures(
                ServerZeroCopyCodec::<Req, Resp>::decode::<D>,
                (codec, src, deserialize),
                Ok::<Option<(ClientMessage<Req>, Option<Bytes>)>, CodecError>(Some((item, body))),
            ) ==> exists|frame: &mut BytesMut, envelope: BytesMut, bytes: &[u8]|
                {
                    &&& taken_off(*src, *frame)
                    &&& #[trigger] call_ensures(
                        split_frame_body,
                        (frame,),
                        Ok::<(BytesMut, Option<Bytes>), FrameError>((envelope, body)),
                    )
                    &&& borrowed(envelope, bytes)
                    &&& #[trigger] call_ensures(
                        deserialize,
                        (&codec@.registry, bytes),
                        Ok::<ClientMessage<Req>, fory::Error>(item),
                    )
                },
{
}

/// Every call of the server's encoder answers its message.
pub proof fn server_encoder_answers<
    Req,
    Resp,
    S: FnOnce(&Fory, &Response<Resp>) -> Result<Vec<u8>, fory::Error>,
>()
    ensures
        forall|
            codec: &mut ServerZeroCopyCodec<Req, Resp>,
            item: (Response<Resp>, Option<Bytes>),
            dst: &mut BytesMut,
            serialize: S,
            r: Result<(), CodecError>,
        | #[trigger]
            call_ensures(
                ServerZeroCopyCodec::<Req, Resp>::encode::<S>,
                (codec, item, dst, serialize),
                r,
            ) ==> final(codec).wf() && final(codec)@ == codec@ && answers_message(
                codec@.registry,
                item.0,
                body_of(item.1),
                buffer_content(*dst),
                buffer_content(*final(dst)),
                serialize,
                r,
            ),
{
    assert forall|
        codec: &mut ServerZeroCopyCodec<Req, Resp>,
        item: (Response<Resp>, Option<Bytes>),
        dst: &mut BytesMut,
        serialize: S,
        r: Result<(), CodecError>,
    | #[trigger]
        call_ensures(
            ServerZeroCopyCodec::<Req, Resp>::encode::<S>,
            (codec, item, dst, serialize),
            r,
        ) implies final(codec).wf() && final(codec)@ == codec@ && answers_message(
        codec@.registry,
        item.0,
        body_of(item.1),
        buffer_content(*dst),
        buffer_content(*final(dst)),
        serialize,
        r,
    ) by {
        lemma_answers_message(
            codec@,
            item.0,
            item.1,
            buffer_content(*dst),
            buffer_content(*final(dst)),
            serialize,
            r,
        );
    }
}

/// A new codec of the server uses the registry that it was given and starts
/// between frames.
pub proof fn new_server_codec_starts_between_frames<Req, Resp>(
    fory: Arc<Fory>,
    codec: ServerZeroCopyCodec<Req, Resp>,
)
    requires
        call_ensures(ServerZeroCopyCodec::<Req, Resp>::new, (fory,), codec),
    ensures
        codec.wf(),
        codec@.registry == *fory,
        codec@.awaited is None,
{
}

/// The server's decoder gives a frame that arrives in two reads just as if it had
/// arrived in one: where the first read is not enough, the second call answers
/// what one call on all of the bytes answers.
pub proof fn server_decoder_joins_two_reads<
    Req,
    Resp,
    D: FnOnce(&Fory, &[u8]) -> Result<ClientMessage<Req>, fory::Error>,
>(
    second: Seq<u8>,
)
    ensures
        forall|
            codec: &mut ServerZeroCopyCodec<Req, Resp>,
            src: &mut BytesMut,
            early: D,
            again: &mut ServerZeroCopyCodec<Req, Resp>,
            more: &mut BytesMut,
            late: D,
            r: Result<Option<(ClientMessage<Req>, Option<Bytes>)>, CodecError>,
        |
            {
                &&& #[trigger] call_ensures(
                    ServerZeroCopyCodec::<Req, Resp>::decode::<D>,
                    (codec, src, early),
                    Ok::<Option<(ClientMessage<Req>, Option<Bytes>)>, CodecError>(None),
                )
                &&& *again == *final(codec)
                &&& buffer_content(*more) == buffer_content(*final(src)) + second
                &&& #[trigger] call_ensures(
                    ServerZeroCopyCodec::<Req, Resp>::decode::<D>,
                    (again, more, late),
                    r,
                )
            } ==> answers_input(
                codec@,
                buffer_content(*src) + second,
                final(again)@,
                buffer_content(*final(more)),
                late,
                r,
            ),
{
    server_decoder_answers::<Req, Resp, D>();
    assert forall|
        codec: &mut ServerZeroCopyCodec<Req, Resp>,
        src: &mut BytesMut,
        early: D,
        again: &mut ServerZeroCopyCodec<Req, Resp>,
        more: &mut BytesMut,
        late: D,
        r: Result<Option<(ClientMessage<Req>, Option<Bytes>)>, CodecError>,
    |
        {
            &&& #[trigger] call_ensures(
                ServerZeroCopyCodec::<Req, Resp>::decode::<D>,
                (codec, src, early),
                Ok::<Option<(ClientMessage<Req>, Option<Bytes>)>, CodecError>(None),
            )
            &&& *again == *final(codec)
            &&& buffer_content(*more) == buffer_content(*final(src)) + second
            &&& #[trigger] call_ensures(
                ServerZeroCopyCodec::<Req, Resp>::decode::<D>,
                (again, more, late),
                r,
            )
        } implies answers_input(
        codec@,
        buffer_content(*src) + second,
        final(again)@,
        buffer_content(*final(more)),
        late,
        r,
    ) by {
        pieces_are_answered_as_one(
            codec@,
            buffer_content(*src),
            again@,
            buffer_content(*final(src)),
            Ok::<Option<(ClientMessage<Req>, Option<Bytes>)>, CodecError>(None),
            second,
            final(again)@,
            buffer_content(*final(more)),
            r,
            early,
            late,
        );
    }
}

/// Every call of the client's decoder answers its input.
pub proof fn client_decoder_answers<
    Req,
    Resp,
    D: FnOnce(&Fory, &[u8]) -> Result<Response<Resp>, fory::Error>,
>()
    ensures
        forall|
            codec: &mut ClientZeroCopyCodec<Req, Resp>,
            src: &mut BytesMut,
            deserialize: D,
            r: Result<Option<(Response<Resp>, Option<Bytes>)>, CodecError>,
        | #[trigger]
            call_ensures(
                ClientZeroCopyCodec::<Req, Resp>::decode::<D>,
                (codec, src, deserialize),
                r,
            ) ==> final(codec).wf() && answers_input(
                codec@,
                buffer_content(*src),
                final(codec)@,
                buffer_content(*final(src)),
                deserialize,
                r,
            ),
{
    assert forall|
        codec: &mut ClientZeroCopyCodec<Req, Resp>,
        src: &mut BytesMut,
        deserialize: D,
        r: Result<Option<(Response<Resp>, Option<Bytes>)>, CodecError>,
    | #[trigger]
        call_ensures(
            ClientZeroCopyCodec::<Req, Resp>::decode::<D>,
            (codec, src, deserialize),
            r,
        ) implies final(codec).wf() && answers_input(
        codec@,
        buffer_content(*src),
        final(codec)@,
        buffer_content(*final(src)),
        deserialize,
        r,
    ) by {
        lemma_answers_input(
            codec@,
            buffer_content(*src),
            final(codec)@,
            buffer_content(*final(src)),
            deserialize,
            r,
        );
    }
}

/// What the client's decoder gives was read in place: the frame was taken off the
/// input's own buffer and cut there, and the message was read from that piece.
pub proof fn client_decoder_reads_in_place<
    Req,
    Resp,
    D: FnOnce(&Fory, &[u8]) -> Result<Response<Resp>, fory::Error>,
>()
    ensures
        forall|
            codec: &mut ClientZeroCopyCodec<Req, Resp>,
            src: &mut BytesMut,
            deserialize: D,
            item: Response<Resp>,
            body: Option<Bytes>,
        | #[trigger]
            call_ensures(
                ClientZeroCopyCodec::<Req, Resp>::decode::<D>,
                (codec, src, deserialize),
                Ok::<Option<(Response<Resp>, Option<Bytes>)>, CodecError>(Some((item, body))),
            ) ==> exists|frame: &mut BytesMut, envelope: BytesMut, bytes: &[u8]|
                {
                    &&& taken_off(*src, *frame)
                    &&& #[trigger] call_ensures(
                        split_frame_body,
                        (frame,),
                        Ok::<(BytesMut, Option<Bytes>), FrameError>((envelope, body)),
                    )
                    &&& borrowed(envelope, bytes)
                    &&& #[trigger] call_ensures(
                        deserialize,
                        (&codec@.registry, bytes),
                        Ok::<Response<Resp>, fory::Error>(item),
                    )
                },
{
}

/// Every call of the client's encoder answers its message.
pub proof fn client_encoder_answers<
    Req,
    Resp,
    S: FnOnce(&Fory, &ClientMessage<Req>) -> Result<Vec<u8>, fory::Error>,
>()
    ensures
        forall|
            codec: &mut ClientZeroCopyCodec<Req, Resp>,
            item: (ClientMessage<Req>, Option<Bytes>),
            dst: &mut BytesMut,
            serialize: S,
            r: Result<(), CodecError>,
        | #[trigger]
            call_ensures(
                ClientZeroCopyCodec::<Req, Resp>::encode::<S>,
                (codec, item, dst, serialize),
                r,
            ) ==> final(codec).wf() && final(codec)@ == codec@ && answers_message(
                codec@.registry,
                item.0,
                body_of(item.1),
                buffer_content(*dst),
                buffer_content(*final(dst)),
                serialize,
                r,
            ),
{
    assert forall|
        codec: &mut ClientZeroCopyCodec<Req, Resp>,
        item: (ClientMessage<Req>, Option<Bytes>),
        dst: &mut BytesMut,
        serialize: S,
        r: Result<(), CodecError>,
    | #[trigger]
        call_ensures(
            ClientZeroCopyCodec::<Req, Resp>::encode::<S>,
            (codec, item, dst, serialize),
            r,
        ) implies final(codec).wf() && final(codec)@ == codec@ && answers_message(
        codec@.registry,
        item.0,
        body_of(item.1),
        buffer_content(*dst),
        buffer_content(*final(dst)),
        serialize,
        r,
    ) by {
        lemma_answers_message(
            codec@,
            item.0,
            item.1,
            buffer_content(*dst),
            buffer_content(*final(dst)),
            serialize,
            r,
        );
    }
}

/// A new codec of the client uses the registry that it was given and starts
/// between frames.
pub proof fn new_client_codec_starts_between_frames<Req, Resp>(
    fory: Arc<Fory>,
    codec: ClientZeroCopyCodec<Req, Resp>,
)
    requires
        call_ensures(ClientZeroCopyCodec::<Req, Resp>::new, (fory,), codec),
    ensures
        codec.wf(),
        codec@.registry == *fory,
        codec@.awaited is None,
{
}

/// The client's decoder gives a frame that arrives in two reads just as if it had
/// arrived in one: where the first read is not enough, the second call answers
/// what one call on all of the bytes answers.
pub proof fn client_decoder_joins_two_reads<
    Req,
    Resp,
    D: FnOnce(&Fory, &[u8]) -> Result<Response<Resp>, fory::Error>,
>(
    second: Seq<u8>,
)
    ensures
        forall|
            codec: &mut ClientZeroCopyCodec<Req, Resp>,
            src: &mut BytesMut,
            early: D,
            again: &mut ClientZeroCopyCodec<Req, Resp>,
            more: &mut BytesMut,
            late: D,
            r: Result<Option<(Response<Resp>, Option<Bytes>)>, CodecError>,
        |
            {
                &&& #[trigger] call_ensures(
                    ClientZeroCopyCodec::<Req, Resp>::decode::<D>,
                    (codec, src, early),
                    Ok::<Option<(Response<Resp>, Option<Bytes>)>, CodecError>(None),
                )
                &&& *again == *final(codec)
                &&& buffer_content(*more) == buffer_content(*final(src)) + second
                &&& #[trigger] call_ensures(
                    ClientZeroCopyCodec::<Req, Resp>::decode::<D>,
                    (again, more, late),
                    r,
                )
            } ==> answers_input(
                codec@,
                buffer_content(*src) + second,
                final(again)@,
                buffer_content(*final(more)),
                late,
                r,
            ),
{
    client_decoder_answers::<Req, Resp, D>();
    assert forall|
        codec: &mut ClientZeroCopyCodec<Req, Resp>,
        src: &mut BytesMut,
        early: D,
        again: &mut ClientZeroCopyCodec<Req, Resp>,
        more: &mut BytesMut,
        late: D,
        r: Result<Option<(Response<Resp>, Option<Bytes>)>, CodecError>,
    |
        {
            &&& #[trigger] call_ensures(
                ClientZeroCopyCodec::<Req, Resp>::decode::<D>,
                (codec, src, early),
                Ok::<Option<(Response<Resp>, Option<Bytes>)>, CodecError>(None),
            )
            &&& *again == *final(codec)
            &&& buffer_content(*more) == buffer_content(*final(src)) + second
            &&& #[trigger] call_ensures(
                ClientZeroCopyCodec::<Req, Resp>::decode::<D>,
                (again, more, late),
                r,
            )
        } implies answers_input(
        codec@,
        buffer_content(*src) + second,
        final(again)@,
        buffer_content(*final(more)),
        late,
        r,
    ) by {
        pieces_are_answered_as_one(
            codec@,
            buffer_content(*src),
            again@,
            buffer_content(*final(src)),
            Ok::<Option<(Response<Resp>, Option<Bytes>)>, CodecError>(None),
            second,
            final(again)@,
            buffer_content(*final(more)),
            r,
            early,
            late,
        );
    }
}

/// An item that was deserialised comes out with its body; an error of Fory is
/// passed on.
pub proof fn deserialised_item_is_passed_on<T>(
    value: Result<T, fory::Error>,
    body: Option<Bytes>,
    r: Result<Option<(T, Option<Bytes>)>, CodecError>,
)
    requires
        call_ensures(decoded::<T>, (value, body), r),
    ensures
        value matches Ok(item) ==> (r matches Ok(Some(given)) && given == (item, body)),
        value matches Err(error) ==> r == Err::<Option<(T, Option<Bytes>)>, CodecError>(
            CodecError::Envelope(error),
        ),
{
}

} // verus!
