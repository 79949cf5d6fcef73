//! Length-delimited framing, as `tokio_util` does it.
//!
//! A frame on the wire is its length as four big-endian bytes, followed by the
//! frame itself. [`delimit`] says what one decoding step makes of the bytes
//! received so far. A [`LengthDelimitedCodec`] is opaque to the verifier; it is
//! modelled by its limit, by the frame that it is in the middle of, and by
//! whether its header is the default one.
use tokio_util::bytes::{Bytes, BytesMut};
use tokio_util::codec::{Decoder, Encoder, LengthDelimitedCodec};
use vstd::prelude::*;

use crate::buffers::{buffer_content, bytes_content};
use crate::endian::{be_bytes, be_value};

verus! {

#[verifier::external_type_specification]
#[verifier::external_body]
pub struct ExLengthDelimitedCodec(LengthDelimitedCodec);

#[verifier::external_type_specification]
#[verifier::external_body]
pub struct ExIoError(std::io::Error);

/// The largest frame that the codec accepts, in bytes.
pub uninterp spec fn frame_limit(codec: LengthDelimitedCodec) -> usize;

/// The length of the frame whose header has been taken off the input already,
/// while the rest of that frame is still awaited.
pub uninterp spec fn awaited_len(codec: LengthDelimitedCodec) -> Option<usize>;

/// Whether the codec keeps the default header: four big-endian bytes at the
/// start of the frame that count the bytes after them, and are not handed out.
pub uninterp spec fn default_header(codec: LengthDelimitedCodec) -> bool;

/// What one decoding step makes of the input.
pub ghost enum Delimited {
    /// The header announces more than the limit; nothing is taken off the input.
    TooBig,
    /// More input is needed. `awaited` is the length of a frame whose header
    /// has been taken off, and `rest` is what is left of the input.
    Wait { awaited: Option<usize>, rest: Seq<u8> },
    /// A whole frame was taken off the input, which leaves `rest`.
    Frame { frame: Seq<u8>, rest: Seq<u8> },
}

/// The part of a decoding step after the header: wait for `n` bytes.
pub open spec fn delimit_data(n: usize, input: Seq<u8>) -> Delimited {
    if input.len() < n {
        Delimited::Wait { awaited: Some(n), rest: input }
    } else {
        Delimited::Frame { frame: input.take(n as int), rest: input.skip(n as int) }
    }
}

/// One decoding step over `input`, when frames of at most `limit` bytes are
/// accepted and the header of a frame of `awaited` bytes has been taken off.
pub open spec fn delimit(limit: usize, awaited: Option<usize>, input: Seq<u8>) -> Delimited {
    match awaited {
        Some(n) => delimit_data(n, input),
        None => if input.len() < 4 {
            Delimited::Wait { awaited: None, rest: input }
        } else if be_value(input) > limit {
            Delimited::TooBig
        } else {
            delimit_data(be_value(input) as usize, input.skip(4))
        },
    }
}

/// `LengthDelimitedCodec::new` makes a codec with the default configuration,
/// at the start of a frame, with a limit of 8 MiB.
pub assume_specification[ LengthDelimitedCodec::new ]() -> (codec: LengthDelimitedCodec)
    ensures
        default_header(codec),
        frame_limit(codec) == 0x80_0000,
        awaited_len(codec) is None,
;

/// `LengthDelimitedCodec::set_max_frame_length` sets the limit, clipped to
/// what the header can express, and changes nothing else.
pub assume_specification[ LengthDelimitedCodec::set_max_frame_length ](
    codec: &mut LengthDelimitedCodec,
    val: usize,
)
    requires
        default_header(*old(codec)),
    ensures
        default_header(*final(codec)),
        frame_limit(*final(codec)) == if val <= 0xffff_ffff {
            val
        } else {
            0xffff_ffff
        },
        awaited_len(*final(codec)) == awaited_len(*old(codec)),
;

/// `<LengthDelimitedCodec as Decoder>::decode` performs the step [`delimit`]:
/// it hands out a whole frame, asks for more input with `None`, or refuses a
/// header that announces more than the limit. It sets room aside for the frame
/// that a header announces, and panics when no allocation can have that size.
#[verifier::external_body]
pub(crate) fn decode_delimited(codec: &mut LengthDelimitedCodec, src: &mut BytesMut) -> (r: Result<
    Option<BytesMut>,
    std::io::Error,
>)
    requires
        default_header(*old(codec)),
        frame_limit(*old(codec)) <= isize::MAX,
    ensures
        default_header(*final(codec)),
        frame_limit(*final(codec)) == frame_limit(*old(codec)),
        match delimit(
            frame_limit(*old(codec)),
            awaited_len(*old(codec)),
            buffer_content(*old(src)),
        ) {
            Delimited::TooBig => {
                &&& r is Err
                &&& awaited_len(*final(codec)) == awaited_len(*old(codec))
                &&& buffer_content(*final(src)) == buffer_content(*old(src))
            },
            Delimited::Wait { awaited, rest } => {
                &&& r == Ok::<Option<BytesMut>, std::io::Error>(None)
                &&& awaited_len(*final(codec)) == awaited
                &&& buffer_content(*final(src)) == rest
            },
            Delimited::Frame { frame, rest } => {
                &&& r matches Ok(Some(taken)) && buffer_content(taken) == frame
                &&& awaited_len(*final(codec)) is None
                &&& buffer_content(*final(src)) == rest
            },
        },
{
    codec.decode(src)
}

/// `<LengthDelimitedCodec as Encoder<Bytes>>::encode` appends the header and
/// the frame, or refuses a frame above the limit and appends nothing. It
/// panics when the output would outgrow what an allocation can hold.
#[verifier::external_body]
pub(crate) fn encode_delimited(
    codec: &mut LengthDelimitedCodec,
    frame: Bytes,
    dst: &mut BytesMut,
) -> (r: Result<(), std::io::Error>)
    requires
        default_header(*old(codec)),
        bytes_content(frame).len() <= frame_limit(*old(codec)) ==> buffer_content(*old(dst)).len()
            + 4 + bytes_content(frame).len() <= isize::MAX,
    ensures
        *final(codec) == *old(codec),
        r is Ok <==> bytes_content(frame).len() <= frame_limit(*old(codec)),
        buffer_content(*final(dst)) == if r is Ok {
            buffer_content(*old(dst)) + be_bytes(bytes_content(frame).len()) + bytes_content(frame)
        } else {
            buffer_content(*old(dst))
        },
{
    codec.encode(frame, dst)
}

} // verus!
