//! Laws of the calls of the classic transport, of the registry and of the
//! errors.
use fory::Fory;
use std::sync::Arc;
use tokio_util::bytes::{Bytes, BytesMut};
use vstd::prelude::*;

use crate::buffers::{buffer_content, bytes_content};
use crate::error::{envelope_result, CodecError, ErrorKind, FrameError};
use crate::registry::{registered, service_registry, ServiceWireSchema};
use crate::text::{append_decimal, decimal, digit};
use crate::transport::{serialized, ForyEnvelopeCodec};

verus! {

/// Whether an answer passes on what a serialiser returned: its bytes, however
/// many, or its error, and nothing else.
pub open spec fn passes_on(
    value: Result<Vec<u8>, fory::Error>,
    r: Result<Bytes, CodecError>,
) -> bool {
    match (value, r) {
        (Ok(envelope), Ok(bytes)) => bytes_content(bytes) == envelope@,
        (Err(cause), Err(error)) => error == CodecError::Envelope(cause),
        _ => false,
    }
}

/// What a serialiser returned is passed on.
pub proof fn serialised_bytes_are_passed_on(
    value: Result<Vec<u8>, fory::Error>,
    r: Result<Bytes, CodecError>,
)
    requires
        call_ensures(serialized, (value,), r),
    ensures
        passes_on(value, r),
{
}

/// The envelope codec hands the message to the serialiser, with its own
/// registry, and passes on what comes back.
pub proof fn envelope_codec_passes_on_the_bytes<
    Req,
    Resp,
    M,
    S: FnOnce(&Fory, &M) -> Result<Vec<u8>, fory::Error>,
>(
    codec: ForyEnvelopeCodec<Req, Resp>,
    item: M,
    serialize: S,
    r: Result<Bytes, CodecError>,
)
    requires
        call_ensures(
            ForyEnvelopeCodec::<Req, Resp>::serialize::<M, S>,
            (&codec, &item, serialize),
            r,
        ),
    ensures
        exists|value: Result<Vec<u8>, fory::Error>| #[trigger]
            call_ensures(serialize, (&codec.registry(), &item), value) && passes_on(value, r),
{
    let value = choose|value: Result<Vec<u8>, fory::Error>|
        {
            &&& #[trigger] call_ensures(serialize, (&codec.registry(), &item), value)
            &&& match value {
                Ok(envelope) => r matches Ok(bytes) && bytes_content(bytes) == envelope@,
                Err(error) => r == Err::<Bytes, CodecError>(CodecError::Envelope(error)),
            }
        };
    assert(call_ensures(serialize, (&codec.registry(), &item), value) && passes_on(value, r));
}

/// A message that the serialiser can write is written, whatever its size, and
/// one that it cannot write is refused.
pub proof fn envelope_codec_fails_with_the_serialiser<
    Req,
    Resp,
    M,
    S: FnOnce(&Fory, &M) -> Result<Vec<u8>, fory::Error>,
>(
    codec: ForyEnvelopeCodec<Req, Resp>,
    item: M,
    serialize: S,
    r: Result<Bytes, CodecError>,
)
    requires
        call_ensures(
            ForyEnvelopeCodec::<Req, Resp>::serialize::<M, S>,
            (&codec, &item, serialize),
            r,
        ),
    ensures
        (forall|value: Result<Vec<u8>, fory::Error>| #[trigger]
            call_ensures(serialize, (&codec.registry(), &item), value) ==> value is Ok) ==> r is Ok,
        (forall|value: Result<Vec<u8>, fory::Error>| #[trigger]
            call_ensures(serialize, (&codec.registry(), &item), value) ==> value is Err) ==> (
        r matches Err(CodecError::Envelope(_))),
{
    envelope_codec_passes_on_the_bytes(codec, item, serialize, r);
}

/// The envelope codec hands all bytes of a frame to the deserialiser, with its
/// own registry, and passes on what comes back.
pub proof fn envelope_codec_passes_on_the_message<
    Req,
    Resp,
    T,
    D: FnOnce(&Fory, &[u8]) -> Result<T, fory::Error>,
>(
    codec: ForyEnvelopeCodec<Req, Resp>,
    src: BytesMut,
    deserialize: D,
    r: Result<T, CodecError>,
)
    requires
        call_ensures(
            ForyEnvelopeCodec::<Req, Resp>::deserialize::<T, D>,
            (&codec, &src, deserialize),
            r,
        ),
    ensures
        exists|bytes: &[u8], value: Result<T, fory::Error>|
            {
                &&& bytes@ == buffer_content(src)
                &&& #[trigger] call_ensures(deserialize, (&codec.registry(), bytes), value)
                &&& match (value, r) {
                    (Ok(message), Ok(read)) => read == message,
                    (Err(cause), Err(error)) => error == CodecError::Envelope(cause),
                    _ => false,
                }
            },
{
    let (bytes, value) = choose|bytes: &[u8], value: Result<T, fory::Error>|
        {
            &&& bytes@ == buffer_content(src)
            &&& #[trigger] call_ensures(deserialize, (&codec.registry(), bytes), value)
            &&& r == match value {
                Ok(message) => Ok::<T, CodecError>(message),
                Err(error) => Err(CodecError::Envelope(error)),
            }
        };
    assert(call_ensures(deserialize, (&codec.registry(), bytes), value));
}

/// A new envelope codec uses the registry that it was given.
pub proof fn new_envelope_codec_uses_its_registry<Req, Resp>(
    fory: Arc<Fory>,
    codec: ForyEnvelopeCodec<Req, Resp>,
)
    requires
        call_ensures(ForyEnvelopeCodec::<Req, Resp>::new, (fory,), codec),
    ensures
        codec.registry() == *fory,
{
}

/// A clone of an envelope codec uses the same registry.
pub proof fn cloned_envelope_codec_uses_the_same_registry<Req, Resp>(
    codec: ForyEnvelopeCodec<Req, Resp>,
    clone: ForyEnvelopeCodec<Req, Resp>,
)
    requires
        call_ensures(<ForyEnvelopeCodec<Req, Resp> as Clone>::clone, (&codec,), clone),
    ensures
        clone.registry() == codec.registry(),
{
}

/// A result of Fory is passed on; its error becomes one of the envelope.
pub proof fn fory_result_is_passed_on<T>(value: Result<T, fory::Error>, r: Result<T, CodecError>)
    requires
        call_ensures(envelope_result::<T>, (value,), r),
    ensures
        value matches Ok(item) ==> r == Ok::<T, CodecError>(item),
        value matches Err(error) ==> r == Err::<T, CodecError>(CodecError::Envelope(error)),
{
}

/// A registry is shared as it is once its types are registered, and never
/// handed out where that failed.
pub proof fn registry_is_shared_when_registered(
    fory: Fory,
    outcome: Result<(), fory::Error>,
    r: Result<Arc<Fory>, CodecError>,
)
    requires
        call_ensures(registered, (fory, outcome), r),
    ensures
        outcome is Ok ==> (r matches Ok(shared) && *shared == fory),
        outcome matches Err(error) ==> r == Err::<Arc<Fory>, CodecError>(
            CodecError::Registration(error),
        ),
{
}

/// The registry of a service is a default one that the service itself, and
/// nothing else, registered its types with.
pub proof fn service_registers_its_own_types<S: ServiceWireSchema>(r: Result<Arc<Fory>, CodecError>)
    requires
        call_ensures(service_registry::<S>, (), r),
    ensures
        exists|fory: &mut Fory, outcome: Result<(), fory::Error>|
            {
                &&& #[trigger] call_ensures(S::register, (fory,), outcome)
                &&& call_ensures(<Fory as Default>::default, (), *fory)
                &&& outcome is Ok ==> (r matches Ok(shared) && *shared == *final(fory))
                &&& outcome matches Err(error) ==> r == Err::<Arc<Fory>, CodecError>(
                    CodecError::Registration(error),
                )
            },
{
}

/// What is wrong with received bytes is invalid data; a frame that is too large
/// to be sent is invalid input; a writer that took nothing wrote zero.
pub proof fn frame_errors_have_their_kind(error: FrameError, kind: ErrorKind)
    requires
        call_ensures(FrameError::kind, (&error,), kind),
    ensures
        error is SuffixMissing || error is BodyLenTooLarge || error is Oversized ==> kind
            is InvalidData,
        error is FrameTooLarge ==> kind is InvalidInput,
        error is Unencodable ==> kind is Other,
        error is WriteZero ==> kind is WriteZero,
{
}

/// An envelope that Fory refuses is invalid data; a failed registration has no
/// category of its own; a frame's error keeps its category.
pub proof fn codec_errors_have_their_kind(error: CodecError, kind: ErrorKind)
    requires
        call_ensures(CodecError::kind, (&error,), kind),
    ensures
        error is Envelope ==> kind is InvalidData,
        error is Registration ==> kind is Other,
        error matches CodecError::Frame(e) ==> {
            &&& e is SuffixMissing || e is BodyLenTooLarge || e is Oversized ==> kind is InvalidData
            &&& e is FrameTooLarge ==> kind is InvalidInput
            &&& e is Unencodable ==> kind is Other
            &&& e is WriteZero ==> kind is WriteZero
        },
{
}

/// The number that a text shows when its characters are decimal digits.
pub open spec fn number_shown(text: Seq<char>) -> int
    decreases text.len(),
{
    if text.len() == 0 {
        0
    } else {
        number_shown(text.drop_last()) * 10 + (text.last() as int - '0' as int)
    }
}

/// Whether a text is the decimal form of a number: digits only, at least one,
/// and no zero before another digit.
pub open spec fn is_decimal(text: Seq<char>, n: int) -> bool {
    &&& text.len() > 0
    &&& forall|i: int|
        0 <= i < text.len() ==> '0' as int <= (#[trigger] text[i]) as int <= '9' as int
    &&& text.len() > 1 ==> text[0] != '0'
    &&& number_shown(text) == n
}

/// The digits that are appended are the decimal form.
proof fn lemma_is_decimal(n: nat)
    ensures
        is_decimal(decimal(n), n as int),
        n > 0 ==> decimal(n)[0] != '0',
    decreases n,
{
    let text = decimal(n);
    if n < 10 {
        assert(text.drop_last() =~= Seq::empty());
        assert(number_shown(Seq::<char>::empty()) == 0);
        assert(text.last() == digit(n));
    } else {
        lemma_is_decimal(n / 10);
        assert(text.drop_last() =~= decimal(n / 10));
        assert(text.last() == digit(n % 10));
        assert(text[0] == decimal(n / 10)[0]);
        assert forall|i: int| 0 <= i < text.len() implies '0' as int <= (
        #[trigger] text[i]) as int <= '9' as int by {
            if i < text.len() - 1 {
                assert(text[i] == decimal(n / 10)[i]);
            }
        }
    }
}

/// A number is appended in its decimal form, behind what was there.
pub proof fn number_is_appended_in_decimal()
    ensures
        forall|out: &mut String, n: u128| #[trigger]
            call_ensures(append_decimal, (out, n), ()) ==> {
                &&& final(out)@.len() >= out@.len()
                &&& final(out)@.take(out@.len() as int) == out@
                &&& is_decimal(final(out)@.skip(out@.len() as int), n as int)
            },
{
    assert forall|out: &mut String, n: u128| #[trigger]
        call_ensures(append_decimal, (out, n), ()) implies {
        &&& final(out)@.len() >= out@.len()
        &&& final(out)@.take(out@.len() as int) == out@
        &&& is_decimal(final(out)@.skip(out@.len() as int), n as int)
    } by {
        let before = out@;
        let after = final(out)@;
        lemma_is_decimal(n as nat);
        assert(after.take(before.len() as int) =~= before);
        assert(after.skip(before.len() as int) =~= decimal(n as nat));
    }
}

/// Whether a message says this of an error of a frame, with its numbers in
/// decimal.
pub open spec fn says(error: FrameError, message: Seq<char>) -> bool {
    match error {
        FrameError::SuffixMissing => message == "frame too small for body_len suffix"@,
        FrameError::Oversized => message == "frame size too big"@,
        FrameError::Unencodable => message == "frame size too big"@,
        FrameError::WriteZero => message == "write_vectored returned 0 bytes"@,
        FrameError::BodyLenTooLarge { body_len, remaining } => exists|m: Seq<char>, n: Seq<char>|
            #[trigger]
            is_decimal(m, body_len as int) && #[trigger] is_decimal(n, remaining as int)
                && message == "body_len "@ + m + " exceeds remaining frame length "@ + n,
        FrameError::FrameTooLarge { size } => exists|m: Seq<char>, n: Seq<char>| #[trigger]
            is_decimal(m, size as int) && #[trigger] is_decimal(n, 67108864) && message
                == "frame size "@ + m + " exceeds MAX_FRAME_LEN "@ + n,
    }
}

/// The contract of an error's message says so.
proof fn lemma_says(error: FrameError)
    ensures
        says(error, crate::error::frame_error_message(error)),
{
    match error {
        FrameError::BodyLenTooLarge { body_len, remaining } => {
            lemma_is_decimal(body_len as nat);
            lemma_is_decimal(remaining as nat);
        },
        FrameError::FrameTooLarge { size } => {
            lemma_is_decimal(size as nat);
            lemma_is_decimal(67108864);
        },
        _ => {},
    }
}

/// An error of a frame says what is wrong.
pub proof fn frame_errors_say_what_is_wrong(error: FrameError, message: String)
    requires
        call_ensures(FrameError::message, (&error,), message),
    ensures
        says(error, message@),
{
    lemma_says(error);
}

/// An error of a codec says what the error inside it says.
pub proof fn codec_errors_say_what_is_wrong(error: CodecError, message: String)
    requires
        call_ensures(CodecError::message, (&error,), message),
    ensures
        error matches CodecError::Frame(e) ==> says(e, message@),
        error matches CodecError::Envelope(e) ==> vstd::string::to_string_from_display_ensures(
            &e,
            message,
        ),
        error matches CodecError::Registration(e) ==> vstd::string::to_string_from_display_ensures(
            &e,
            message,
        ),
{
    if let CodecError::Frame(e) = error {
        lemma_says(e);
    }
}

} // verus!
