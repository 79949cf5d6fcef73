//! The two zero-copy codecs: one per side of a connection.
//!
//! Both sides read and write the same frames and differ only in which message
//! travels in which direction. Fory's own entry points are handed in by the
//! caller, as functions from the registry and the bytes (or the message) to
//! what Fory returns.
use fory::Fory;
use std::marker::PhantomData;
use std::sync::Arc;
use tarpc::{ClientMessage, Response};
use tokio_util::bytes::{Bytes, BytesMut};
use tokio_util::codec::LengthDelimitedCodec;
use vstd::prelude::*;

use crate::buffers::{body_content, body_len, buffer_content, buffer_slice};
use crate::delimited::{
    awaited_len, decode_delimited, default_header, delimit, frame_limit, Delimited,
};
use crate::endian::word;
use crate::error::{envelope_result, CodecError, FrameError};
use crate::transport::serialized;
use crate::zerocopy::{
    body_bytes, encode_frame, encode_outcome, frame_codec, split_frame_body, split_payload,
    wire_frame, MAX_FRAME_LEN,
};

verus! {

#[verifier::external_type_specification]
#[verifier::external_body]
#[verifier::reject_recursive_types(T)]
pub struct ExClientMessage<T>(ClientMessage<T>);

#[verifier::external_type_specification]
#[verifier::external_body]
#[verifier::reject_recursive_types(T)]
pub struct ExResponse<T>(Response<T>);

/// What a codec remembers between calls.
pub ghost struct CodecState {
    /// The registry that envelopes are serialised with.
    pub registry: Fory,
    /// The length of a frame whose header has been taken off the input already.
    pub awaited: Option<usize>,
}

/// What a step of the receive path makes of the input.
pub ghost struct Received {
    /// The envelope and the body of a frame; `None` while it is incomplete.
    pub frame: Result<Option<(Seq<u8>, Option<Seq<u8>>)>, FrameError>,
    /// The length of the frame that is awaited after the step.
    pub awaited: Option<usize>,
    /// What is left of the input.
    pub rest: Seq<u8>,
}

/// One step of the receive path over `input`.
pub open spec fn receive(awaited: Option<usize>, input: Seq<u8>) -> Received {
    match delimit(MAX_FRAME_LEN, awaited, input) {
        Delimited::TooBig => Received { frame: Err(FrameError::Oversized), awaited, rest: input },
        Delimited::Wait { awaited, rest } => Received { frame: Ok(None), awaited, rest },
        Delimited::Frame { frame, rest } => Received {
            frame: match split_payload(frame) {
                Ok(parts) => Ok(Some(parts)),
                Err(error) => Err(error),
            },
            awaited: None,
            rest,
        },
    }
}

/// The item that a frame decodes to, given what deserialising its envelope
/// returned.
pub fn decoded<T>(value: Result<T, fory::Error>, body: Option<Bytes>) -> (r: Result<
    Option<(T, Option<Bytes>)>,
    CodecError,
>)
    ensures
        r == match value {
            Ok(item) => Ok::<Option<(T, Option<Bytes>)>, CodecError>(Some((item, body))),
            Err(error) => Err(CodecError::Envelope(error)),
        },
{
    match envelope_result(value) {
        Ok(item) => Ok(Some((item, body))),
        Err(error) => Err(error),
    }
}

/// What a codec in a given state answers to the input received so far.
pub open spec fn decodes<T, D: FnOnce(&Fory, &[u8]) -> Result<T, fory::Error>>(
    state: CodecState,
    input: Seq<u8>,
    deserialize: D,
    r: Result<Option<(T, Option<Bytes>)>, CodecError>,
) -> bool {
    match receive(state.awaited, input).frame {
        Err(error) => r == Err::<Option<(T, Option<Bytes>)>, CodecError>(CodecError::Frame(error)),
        Ok(None) => r == Ok::<Option<(T, Option<Bytes>)>, CodecError>(None),
        Ok(Some((envelope, body))) => exists|bytes: &[u8], value: Result<T, fory::Error>|
            {
                &&& bytes@ == envelope
                &&& #[trigger] call_ensures(deserialize, (&state.registry, bytes), value)
                &&& match value {
                    Ok(item) => r matches Ok(Some((decoded, b))) && decoded == item
                        && body_content(b) == body,
                    Err(error) => r == Err::<Option<(T, Option<Bytes>)>, CodecError>(
                        CodecError::Envelope(error),
                    ),
                }
            },
    }
}

/// A frame that the length-delimited codec took off the very buffer `src`.
pub closed spec fn taken_off(src: BytesMut, frame: BytesMut) -> bool {
    exists|codec: &mut LengthDelimitedCodec, input: &mut BytesMut|
        *input == src && #[trigger] call_ensures(
            decode_delimited,
            (codec, input),
            Ok::<Option<BytesMut>, std::io::Error>(Some(frame)),
        )
}

/// The slice that borrowing the very buffer `buffer` gives.
pub closed spec fn borrowed(buffer: BytesMut, slice: &[u8]) -> bool {
    call_ensures(buffer_slice, (&buffer,), slice)
}

/// A frame is taken off a buffer by the length-delimited codec alone.
pub(crate) proof fn frames_are_taken_by_the_delimiter(src: BytesMut, frame: BytesMut)
    requires
        taken_off(src, frame),
    ensures
        exists|codec: &mut LengthDelimitedCodec, input: &mut BytesMut|
            *input == src && #[trigger] call_ensures(
                decode_delimited,
                (codec, input),
                Ok::<Option<BytesMut>, std::io::Error>(Some(frame)),
            ),
{
}

/// A slice is borrowed from a buffer by the buffer's own method.
pub(crate) proof fn slices_are_borrowed_from_the_buffer(buffer: BytesMut, slice: &[u8])
    requires
        borrowed(buffer, slice),
    ensures
        call_ensures(buffer_slice, (&buffer,), slice),
{
}

/// A frame that was taken off a buffer is a run of that buffer's bytes, and a
/// slice that was borrowed from a buffer shows all of its bytes.
pub proof fn what_was_received_is_part_of_the_input(
    src: BytesMut,
    frame: BytesMut,
    buffer: BytesMut,
    slice: &[u8],
)
    requires
        taken_off(src, frame),
        borrowed(buffer, slice),
    ensures
        exists|from: int, to: int|
            0 <= from <= to <= buffer_content(src).len() && #[trigger] buffer_content(src).subrange(
                from,
                to,
            ) == buffer_content(frame),
        slice@ == buffer_content(buffer),
{
    let input = buffer_content(src);
    let n = buffer_content(frame).len() as int;
    if n <= input.len() && input.subrange(0, n) =~= buffer_content(frame) {
    } else {
        assert(input.subrange(4, 4 + n) =~= buffer_content(frame));
    }
}

/// An item that was decoded without copying what was received: a frame was
/// taken off the very buffer `src` by the length-delimited codec, that frame was
/// taken apart by [`split_frame_body`], which cuts it in place, and the
/// deserialiser was handed a borrow of the envelope's piece of it.
pub open spec fn decoded_in_place<T, D: FnOnce(&Fory, &[u8]) -> Result<T, fory::Error>>(
    src: BytesMut,
    registry: Fory,
    deserialize: D,
    item: T,
    body: Option<Bytes>,
) -> bool {
    exists|frame: &mut BytesMut, envelope: BytesMut, bytes: &[u8]|
        {
            &&& taken_off(src, *frame)
            &&& #[trigger] call_ensures(
                split_frame_body,
                (frame,),
                Ok::<(BytesMut, Option<Bytes>), FrameError>((envelope, body)),
            )
            &&& borrowed(envelope, bytes)
            &&& #[trigger] call_ensures(
                deserialize,
                (&registry, bytes),
                Ok::<T, fory::Error>(item),
            )
        }
}

/// What a codec in a given state answers to a message, and what it makes of the
/// output.
pub open spec fn encodes<M, S: FnOnce(&Fory, &M) -> Result<Vec<u8>, fory::Error>>(
    state: CodecState,
    message: M,
    body: Option<Seq<u8>>,
    before: Seq<u8>,
    after: Seq<u8>,
    serialize: S,
    r: Result<(), CodecError>,
) -> bool {
    exists|value: Result<Vec<u8>, fory::Error>|
        {
            &&& #[trigger] call_ensures(serialize, (&state.registry, &message), value)
            &&& match value {
                Ok(envelope) => match encode_outcome(
                    MAX_FRAME_LEN,
                    envelope@.len(),
                    body_bytes(body).len(),
                ) {
                    Ok(()) => r is Ok && after == before + wire_frame(envelope@, body),
                    Err(error) => r == Err::<(), CodecError>(CodecError::Frame(error)) && after
                        == before,
                },
                Err(error) => r == Err::<(), CodecError>(CodecError::Envelope(error)) && after
                    == before,
            }
        }
}

/// The buffers of the send path have the room that a frame with this body can
/// need. A body too long for a frame needs none in the output; one whose length
/// does not fit 32 bits is joined with its envelope before it is refused.
pub open spec fn has_room(body: Option<Bytes>, dst: BytesMut) -> bool {
    &&& body_len(body) < word() || body_len(body) + MAX_FRAME_LEN <= isize::MAX
    &&& body_len(body) + 4 <= MAX_FRAME_LEN ==> buffer_content(dst).len() + 4 + MAX_FRAME_LEN
        <= isize::MAX
}

/// The framing and the registry that the codecs of both sides share.
struct FrameCodec {
    fory: Arc<Fory>,
    inner: LengthDelimitedCodec,
}

impl FrameCodec {
    /// The codec frames by four-byte lengths up to [`MAX_FRAME_LEN`].
    spec fn wf(self) -> bool {
        &&& default_header(self.inner)
        &&& frame_limit(self.inner) == MAX_FRAME_LEN
    }

    spec fn view(self) -> CodecState {
        CodecState { registry: *self.fory, awaited: awaited_len(self.inner) }
    }

    fn new(fory: Arc<Fory>) -> (codec: Self)
        ensures
            codec.wf(),
            codec@ == (CodecState { registry: *fory, awaited: None }),
    {
        FrameCodec { fory, inner: frame_codec() }
    }

    fn decode<T, D>(&mut self, src: &mut BytesMut, deserialize: D) -> (r: Result<
        Option<(T, Option<Bytes>)>,
        CodecError,
    >) where D: FnOnce(&Fory, &[u8]) -> Result<T, fory::Error>
        requires
            old(self).wf(),
            forall|bytes: &[u8]| #[trigger]
                call_requires(deserialize, (&old(self)@.registry, bytes)),
        ensures
            final(self).wf(),
            final(self)@ == (CodecState {
                registry: old(self)@.registry,
                awaited: receive(old(self)@.awaited, buffer_content(*old(src))).awaited,
            }),
            buffer_content(*final(src)) == receive(
                old(self)@.awaited,
                buffer_content(*old(src)),
            ).rest,
            decodes(old(self)@, buffer_content(*old(src)), deserialize, r),
            r matches Ok(Some((item, body))) ==> decoded_in_place(
                *old(src),
                old(self)@.registry,
                deserialize,
                item,
                body,
            ),
    {
        let mut frame: BytesMut = match decode_delimited(&mut self.inner, src) {
            Ok(Some(frame)) => frame,
            Ok(None) => {
                return Ok(None);
            },
            Err(_) => {
                return Err(CodecError::Frame(FrameError::Oversized));
            },
        };
        match split_frame_body(&mut frame) {
            Ok((envelope, body)) => {
                let value: Result<T, fory::Error> = deserialize(
                    &self.fory,
                    buffer_slice(&envelope),
                );
                decoded(value, body)
            },
            Err(error) => Err(CodecError::Frame(error)),
        }
    }

    fn encode<M, S>(
        &mut self,
        message: &M,
        body: Option<Bytes>,
        dst: &mut BytesMut,
        serialize: S,
    ) -> (r: Result<(), CodecError>) where S: FnOnce(&Fory, &M) -> Result<Vec<u8>, fory::Error>
        requires
            old(self).wf(),
            call_requires(serialize, (&old(self)@.registry, message)),
            has_room(body, *old(dst)),
        ensures
            final(self).wf(),
            final(self)@ == old(self)@,
            encodes(
                old(self)@,
                *message,
                body_content(body),
                buffer_content(*old(dst)),
                buffer_content(*final(dst)),
                serialize,
                r,
            ),
    {
        let value: Result<Vec<u8>, fory::Error> = serialize(&self.fory, message);
        match serialized(value) {
            Ok(envelope) => match encode_frame(&mut self.inner, envelope, body, dst) {
                Ok(()) => Ok(()),
                Err(error) => Err(CodecError::Frame(error)),
            },
            Err(error) => Err(error),
        }
    }
}

/// Codec of the **server** side: it decodes requests and encodes responses, each
/// with an optional body.
pub struct ServerZeroCopyCodec<Req, Resp> {
    codec: FrameCodec,
    _marker: PhantomData<(Req, Resp)>,
}

impl<Req, Resp> ServerZeroCopyCodec<Req, Resp> {
    /// The codec frames by four-byte lengths up to [`MAX_FRAME_LEN`].
    pub closed spec fn wf(self) -> bool {
        self.codec.wf()
    }

    /// What the codec remembers between calls.
    pub closed spec fn view(self) -> CodecState {
        self.codec@
    }

    /// A codec that serialises with the given registry.
    pub fn new(fory: Arc<Fory>) -> (codec: Self)
        ensures
            codec.wf(),
            codec@ == (CodecState { registry: *fory, awaited: None }),
    {
        ServerZeroCopyCodec { codec: FrameCodec::new(fory), _marker: PhantomData }
    }

    /// Takes the next frame off the input and deserialises its envelope; `None`
    /// while the frame is incomplete. Envelope and body are read where they were
    /// received, not copied.
    pub fn decode<D>(&mut self, src: &mut BytesMut, deserialize: D) -> (r: Result<
        Option<(ClientMessage<Req>, Option<Bytes>)>,
        CodecError,
    >) where D: FnOnce(&Fory, &[u8]) -> Result<ClientMessage<Req>, fory::Error>
        requires
            old(self).wf(),
            forall|bytes: &[u8]| #[trigger]
                call_requires(deserialize, (&old(self)@.registry, bytes)),
        ensures
            final(self).wf(),
            final(self)@ == (CodecState {
                registry: old(self)@.registry,
                awaited: receive(old(self)@.awaited, buffer_content(*old(src))).awaited,
            }),
            buffer_content(*final(src)) == receive(
                old(self)@.awaited,
                buffer_content(*old(src)),
            ).rest,
            decodes(old(self)@, buffer_content(*old(src)), deserialize, r),
            r matches Ok(Some((item, body))) ==> decoded_in_place(
                *old(src),
                old(self)@.registry,
                deserialize,
                item,
                body,
            ),
    {
        self.codec.decode(src, deserialize)
    }

    /// Serialises a message and appends it with its body as one frame.
    pub fn encode<S>(
        &mut self,
        item: (Response<Resp>, Option<Bytes>),
        dst: &mut BytesMut,
        serialize: S,
    ) -> (r: Result<(), CodecError>) where
        S: FnOnce(&Fory, &Response<Resp>) -> Result<Vec<u8>, fory::Error>,

        requires
            old(self).wf(),
            call_requires(serialize, (&old(self)@.registry, &item.0)),
            has_room(item.1, *old(dst)),
        ensures
            final(self).wf(),
            final(self)@ == old(self)@,
            encodes(
                old(self)@,
                item.0,
                body_content(item.1),
                buffer_content(*old(dst)),
                buffer_content(*final(dst)),
                serialize,
                r,
            ),
    {
        let (message, body) = item;
        self.codec.encode(&message, body, dst, serialize)
    }
}

/// Codec of the **client** side: it decodes responses and encodes requests, each
/// with an optional body.
pub struct ClientZeroCopyCodec<Req, Resp> {
    codec: FrameCodec,
    _marker: PhantomData<(Req, Resp)>,
}

impl<Req, Resp> ClientZeroCopyCodec<Req, Resp> {
    /// The codec frames by four-byte lengths up to [`MAX_FRAME_LEN`].
    pub closed spec fn wf(self) -> bool {
        self.codec.wf()
    }

    /// What the codec remembers between calls.
    pub closed spec fn view(self) -> CodecState {
        self.codec@
    }

    /// A codec that serialises with the given registry.
    pub fn new(fory: Arc<Fory>) -> (codec: Self)
        ensures
            codec.wf(),
            codec@ == (CodecState { registry: *fory, awaited: None }),
    {
        ClientZeroCopyCodec { codec: FrameCodec::new(fory), _marker: PhantomData }
    }

    /// Takes the next frame off the input and deserialises its envelope; `None`
    /// while the frame is incomplete. Envelope and body are read where they were
    /// received, not copied.
    pub fn decode<D>(&mut self, src: &mut BytesMut, deserialize: D) -> (r: Result<
        Option<(Response<Resp>, Option<Bytes>)>,
        CodecError,
    >) where D: FnOnce(&Fory, &[u8]) -> Result<Response<Resp>, fory::Error>
        requires
            old(self).wf(),
            forall|bytes: &[u8]| #[trigger]
                call_requires(deserialize, (&old(self)@.registry, bytes)),
        ensures
            final(self).wf(),
            final(self)@ == (CodecState {
                registry: old(self)@.registry,
                awaited: receive(old(self)@.awaited, buffer_content(*old(src))).awaited,
            }),
            buffer_content(*final(src)) == receive(
                old(self)@.awaited,
                buffer_content(*old(src)),
            ).rest,
            decodes(old(self)@, buffer_content(*old(src)), deserialize, r),
            r matches Ok(Some((item, body))) ==> decoded_in_place(
                *old(src),
                old(self)@.registry,
                deserialize,
                item,
                body,
            ),
    {
        self.codec.decode(src, deserialize)
    }

    /// Serialises a message and appends it with its body as one frame.
    pub fn encode<S>(
        &mut self,
        item: (ClientMessage<Req>, Option<Bytes>),
        dst: &mut BytesMut,
        serialize: S,
    ) -> (r: Result<(), CodecError>) where
        S: FnOnce(&Fory, &ClientMessage<Req>) -> Result<Vec<u8>, fory::Error>,

        requires
            old(self).wf(),
            call_requires(serialize, (&old(self)@.registry, &item.0)),
            has_room(item.1, *old(dst)),
        ensures
            final(self).wf(),
            final(self)@ == old(self)@,
            encodes(
                old(self)@,
                item.0,
                body_content(item.1),
                buffer_content(*old(dst)),
                buffer_content(*final(dst)),
                serialize,
                r,
            ),
    {
        let (message, body) = item;
        self.codec.encode(&message, body, dst, serialize)
    }
}

} // verus!
