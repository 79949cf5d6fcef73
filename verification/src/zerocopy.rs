//! Zero-copy framing of an envelope with a bulk payload.
//!
//! Each length-delimited frame holds
//!
//! ```text
//! [ envelope (variable) ][ body (variable) ][ body_len: u32 LE ]
//! ```
//!
//! A body length of zero stands for "no body".
use tokio_util::bytes::{Bytes, BytesMut};
use tokio_util::codec::LengthDelimitedCodec;
use vstd::prelude::*;

use crate::buffers::{
    body_content, body_len, buffer_content, buffer_slice, bytes_content, bytes_slice, optional_len,
};
use crate::delimited::{awaited_len, default_header, encode_delimited, frame_limit};
use crate::endian::{be_bytes, le_array, le_bytes, le_value, low_word, read_le, word};
use crate::error::FrameError;

pub use crate::codec::{ClientZeroCopyCodec, ServerZeroCopyCodec};
pub use crate::sink::{ToFrame, ZeroCopySink};

verus! {

/// The largest frame, without its length prefix: 64 MiB.
pub const MAX_FRAME_LEN: usize = 64 * 1024 * 1024;

/// The bytes of an optional body; an absent body has none.
pub open spec fn body_bytes(body: Option<Seq<u8>>) -> Seq<u8> {
    match body {
        Some(b) => b,
        None => Seq::empty(),
    }
}

/// The inside of a frame: envelope, body and the length of the body.
pub open spec fn frame_payload(envelope: Seq<u8>, body: Option<Seq<u8>>) -> Seq<u8> {
    envelope + body_bytes(body) + le_bytes(body_bytes(body).len())
}

/// A frame as it stands on the wire, behind its length.
pub open spec fn wire_frame(envelope: Seq<u8>, body: Option<Seq<u8>>) -> Seq<u8> {
    be_bytes(frame_payload(envelope, body).len()) + frame_payload(envelope, body)
}

/// The envelope and the body that the inside of a frame holds.
pub open spec fn split_payload(frame: Seq<u8>) -> Result<(Seq<u8>, Option<Seq<u8>>), FrameError> {
    if frame.len() < 4 {
        Err(FrameError::SuffixMissing)
    } else {
        let rest = frame.take(frame.len() - 4);
        let n = le_value(frame.skip(frame.len() - 4));
        if n > rest.len() {
            Err(
                FrameError::BodyLenTooLarge {
                    body_len: n as usize,
                    remaining: rest.len() as usize,
                },
            )
        } else {
            let envelope = rest.take(rest.len() - n);
            let body = rest.skip(rest.len() - n);
            Ok((envelope, if n > 0 { Some(body) } else { None }))
        }
    }
}

/// Takes a frame apart into its envelope and its body.
///
/// Both are pieces of the very buffer that was given, cut by its own methods:
/// the suffix is truncated, the body is split off and frozen, and the envelope
/// is split off of what is left. By the documentation of `bytes` none of these
/// copies a byte.
///
/// On success nothing is left in `frame`. A frame that announces a longer body
/// than it holds has lost its last four bytes by then.
#[verifier::spinoff_prover]
pub fn split_frame_body(frame: &mut BytesMut) -> (r: Result<(BytesMut, Option<Bytes>), FrameError>)
    ensures
        match split_payload(buffer_content(*old(frame))) {
            Ok((e, b)) => {
                &&& r matches Ok((envelope, body))
                &&& buffer_content(envelope) == e
                &&& body_content(body) == b
                &&& buffer_content(*final(frame)) == Seq::<u8>::empty()
            },
            Err(error) => {
                &&& r == Err::<(BytesMut, Option<Bytes>), FrameError>(error)
                &&& buffer_content(*final(frame)) == if error is SuffixMissing {
                    buffer_content(*old(frame))
                } else {
                    buffer_content(*old(frame)).take(buffer_content(*old(frame)).len() - 4)
                }
            },
        },
        r matches Ok((envelope, Some(body))) ==> exists|
            whole: &mut BytesMut,
            len: usize,
            cut: &mut BytesMut,
            start: usize,
            tail: BytesMut,
            rest: &mut BytesMut,
            at: usize,
        |
            {
                &&& *whole == *old(frame)
                &&& #[trigger] call_ensures(BytesMut::truncate, (whole, len), ())
                &&& *cut == *final(whole)
                &&& #[trigger] call_ensures(BytesMut::split_off, (cut, start), tail)
                &&& call_ensures(BytesMut::freeze, (tail,), body)
                &&& *rest == *final(cut)
                &&& #[trigger] call_ensures(BytesMut::split_to, (rest, at), envelope)
            },
        r matches Ok((envelope, None)) ==> exists|
            whole: &mut BytesMut,
            len: usize,
            rest: &mut BytesMut,
            at: usize,
        |
            {
                &&& *whole == *old(frame)
                &&& #[trigger] call_ensures(BytesMut::truncate, (whole, len), ())
                &&& *rest == *final(whole)
                &&& #[trigger] call_ensures(BytesMut::split_to, (rest, at), envelope)
            },
{
    if frame.len() < 4 {
        return Err(FrameError::SuffixMissing);
    }
    let suffix_start: usize = frame.len() - 4;
    let body_len: usize = read_le(buffer_slice(frame), suffix_start) as usize;
    frame.truncate(suffix_start);

    if body_len > frame.len() {
        return Err(FrameError::BodyLenTooLarge { body_len, remaining: frame.len() });
    }
    if body_len == 0 {
        let envelope_len: usize = frame.len();
        return Ok((frame.split_to(envelope_len), None));
    }
    let body_start: usize = frame.len() - body_len;
    let body: Bytes = frame.split_off(body_start).freeze();
    let envelope_len: usize = frame.len();
    Ok((frame.split_to(envelope_len), Some(body)))
}

/// A length-delimited codec for frames up to [`MAX_FRAME_LEN`].
pub fn frame_codec() -> (codec: LengthDelimitedCodec)
    ensures
        default_header(codec),
        frame_limit(codec) == MAX_FRAME_LEN,
        awaited_len(codec) is None,
{
    let mut codec: LengthDelimitedCodec = LengthDelimitedCodec::new();
    codec.set_max_frame_length(MAX_FRAME_LEN);
    codec
}

/// Whether a frame can be encoded for a codec with the given limit. The size
/// check sees only the low 32 bits of the body's length; the codec sees all.
pub open spec fn encode_outcome(limit: usize, envelope_len: nat, body_len: nat) -> Result<
    (),
    FrameError,
> {
    let size = envelope_len + body_len % word() + 4;
    if size > MAX_FRAME_LEN {
        Err(FrameError::FrameTooLarge { size: size as u128 })
    } else if envelope_len + body_len + 4 > limit {
        Err(FrameError::Unencodable)
    } else {
        Ok(())
    }
}

/// Appends an envelope and an optional body to `dst` as one length-delimited
/// frame, or leaves `dst` as it is.
pub fn encode_frame(
    inner: &mut LengthDelimitedCodec,
    envelope: Bytes,
    body: Option<Bytes>,
    dst: &mut BytesMut,
) -> (r: Result<(), FrameError>)
    requires
        default_header(*old(inner)),
        bytes_content(envelope).len() + body_len(body) % word() + 4 <= MAX_FRAME_LEN
            ==> bytes_content(envelope).len() + body_len(body) + 4 <= isize::MAX,
        encode_outcome(frame_limit(*old(inner)), bytes_content(envelope).len(), body_len(body))
            is Ok ==> buffer_content(*old(dst)).len() + wire_frame(
            bytes_content(envelope),
            body_content(body),
        ).len() <= isize::MAX,
    ensures
        *final(inner) == *old(inner),
        r == encode_outcome(
            frame_limit(*old(inner)),
            bytes_content(envelope).len(),
            body_len(body),
        ),
        buffer_content(*final(dst)) == if r is Ok {
            buffer_content(*old(dst)) + wire_frame(bytes_content(envelope), body_content(body))
        } else {
            buffer_content(*old(dst))
        },
{
    let body_size: usize = optional_len(&body);
    let body_len: u32 = low_word(body_size);
    let total: u128 = envelope.len() as u128 + body_len as u128 + 4;
    if total > MAX_FRAME_LEN as u128 {
        return Err(FrameError::FrameTooLarge { size: total });
    }
    let mut payload: BytesMut = BytesMut::with_capacity(total as usize);
    payload.extend_from_slice(bytes_slice(&envelope));
    if let Some(b) = body {
        payload.extend_from_slice(bytes_slice(&b));
    }
    let suffix: [u8; 4] = le_array(body_len);
    payload.extend_from_slice(&suffix);
    match encode_delimited(inner, payload.freeze(), dst) {
        Ok(()) => Ok(()),
        Err(_) => Err(FrameError::Unencodable),
    }
}

} // verus!
