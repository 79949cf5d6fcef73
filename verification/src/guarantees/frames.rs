//! Laws of the calls that put frames together and take them apart.
use tokio_util::bytes::{Bytes, BytesMut};
use tokio_util::codec::LengthDelimitedCodec;
use vstd::prelude::*;

use crate::buffers::{body_content, buffer_content, bytes_content, optional_len};
use crate::delimited::{awaited_len, default_header, frame_limit};
use crate::endian::{
    be_array, le_array, lemma_be_round_trip, lemma_le_round_trip, low_word, read_le,
};
use crate::error::FrameError;
use crate::zerocopy::{encode_frame, encode_outcome, frame_codec, split_frame_body, wire_frame};

verus! {

/// The number that four bytes show, most significant first.
pub open spec fn be4(s: Seq<u8>) -> int {
    s[0] * 16777216 + s[1] * 65536 + s[2] * 256 + s[3]
}

/// The number that four bytes show, least significant first.
pub open spec fn le4(s: Seq<u8>) -> int {
    s[0] + s[1] * 256 + s[2] * 65536 + s[3] * 16777216
}

/// The bytes of a body; an absent body has none.
pub open spec fn body_of(body: Option<Bytes>) -> Seq<u8> {
    match body {
        Some(b) => bytes_content(b),
        None => Seq::empty(),
    }
}

/// Whether `wire` is one frame with this envelope and this body: four bytes
/// that count all bytes behind them, the envelope, the body, and four bytes
/// that count the body.
pub open spec fn is_frame(wire: Seq<u8>, envelope: Seq<u8>, body: Seq<u8>) -> bool {
    let e = envelope.len() as int;
    let b = body.len() as int;
    &&& wire.len() == 8 + e + b
    &&& be4(wire) == e + b + 4
    &&& wire.subrange(4, 4 + e) == envelope
    &&& wire.subrange(4 + e, 4 + e + b) == body
    &&& le4(wire.subrange(4 + e + b, 8 + e + b)) == b
}

/// The wire form of a frame has the layout of one.
pub(crate) proof fn lemma_wire_frame_is_frame(
    envelope: Seq<u8>,
    body: Option<Seq<u8>>,
    bytes: Seq<u8>,
)
    requires
        bytes == (match body {
            Some(b) => b,
            None => Seq::empty(),
        }),
        envelope.len() + bytes.len() + 4 < 0x1_0000_0000,
    ensures
        is_frame(wire_frame(envelope, body), envelope, bytes),
{
    let wire = wire_frame(envelope, body);
    let e = envelope.len() as int;
    let b = bytes.len() as int;
    let prefix = crate::endian::be_bytes((e + b + 4) as nat);
    let suffix = crate::endian::le_bytes(b as nat);
    lemma_be_round_trip((e + b + 4) as nat, envelope + bytes + suffix);
    lemma_le_round_trip(b as nat, Seq::empty());
    assert(wire =~= prefix + (envelope + bytes + suffix));
    assert(wire.subrange(4, 4 + e) =~= envelope);
    assert(wire.subrange(4 + e, 4 + e + b) =~= bytes);
    assert(wire.subrange(4 + e + b, 8 + e + b) =~= suffix + Seq::<u8>::empty());
}

/// An answer to a frame whose inside is `all` and of which `left` remains. What
/// was taken apart, put together again, is the frame, with the length of the
/// body behind it; a frame is refused only where no such parts exist.
pub open spec fn inverts_joining(
    all: Seq<u8>,
    left: Seq<u8>,
    r: Result<(BytesMut, Option<Bytes>), FrameError>,
) -> bool {
    let n = all.len() as int;
    let counted = le4(all.subrange(n - 4, n));
    match r {
        Ok((envelope, body)) => {
            &&& n >= 4
            &&& buffer_content(envelope) + body_of(body) == all.subrange(0, n - 4)
            &&& body_of(body).len() == counted
            &&& body is Some <==> counted > 0
            &&& left.len() == 0
        },
        Err(FrameError::SuffixMissing) => n < 4 && left == all,
        Err(FrameError::BodyLenTooLarge { body_len, remaining }) => {
            &&& n >= 4
            &&& counted > n - 4
            &&& body_len == counted
            &&& remaining == n - 4
            &&& left == all.subrange(0, n - 4)
        },
        Err(_) => false,
    }
}

/// Taking a frame apart inverts putting it together.
pub proof fn splitting_inverts_joining()
    ensures
        forall|frame: &mut BytesMut, r: Result<(BytesMut, Option<Bytes>), FrameError>| #[trigger]
            call_ensures(split_frame_body, (frame,), r) ==> inverts_joining(
                buffer_content(*frame),
                buffer_content(*final(frame)),
                r,
            ),
{
    assert forall|frame: &mut BytesMut, r: Result<(BytesMut, Option<Bytes>), FrameError>| #[trigger]
        call_ensures(split_frame_body, (frame,), r) implies inverts_joining(
        buffer_content(*frame),
        buffer_content(*final(frame)),
        r,
    ) by {
        let all = buffer_content(*frame);
        let n = all.len() as int;
        if n >= 4 {
            assert(all.skip(n - 4) =~= all.subrange(n - 4, n));
            assert(all.take(n - 4) =~= all.subrange(0, n - 4));
            if let Ok((envelope, body)) = r {
                assert(buffer_content(envelope) + body_of(body) =~= all.subrange(0, n - 4));
            }
        }
    }
}

/// A body that was taken out of a frame is the very tail that was split off of
/// the frame's own buffer, frozen; so nothing was copied.
pub proof fn split_body_is_cut_from_the_frame()
    ensures
        forall|frame: &mut BytesMut, envelope: BytesMut, body: Bytes| #[trigger]
            call_ensures(
                split_frame_body,
                (frame,),
                Ok::<(BytesMut, Option<Bytes>), FrameError>((envelope, Some(body))),
            ) ==> exists|
                whole: &mut BytesMut,
                len: usize,
                cut: &mut BytesMut,
                start: usize,
                tail: BytesMut,
            |
                {
                    &&& *whole == *frame
                    &&& #[trigger] call_ensures(BytesMut::truncate, (whole, len), ())
                    &&& *cut == *final(whole)
                    &&& #[trigger] call_ensures(BytesMut::split_off, (cut, start), tail)
                    &&& call_ensures(BytesMut::freeze, (tail,), body)
                },
{
}

/// An envelope that was taken out of a frame is the very head that was split off
/// of the frame's own buffer, once the body was cut from it.
pub proof fn split_envelope_is_cut_from_the_frame()
    ensures
        forall|frame: &mut BytesMut, envelope: BytesMut, body: Option<Bytes>| #[trigger]
            call_ensures(
                split_frame_body,
                (frame,),
                Ok::<(BytesMut, Option<Bytes>), FrameError>((envelope, body)),
            ) ==> exists|whole: &mut BytesMut, len: usize, rest: &mut BytesMut, at: usize|
                {
                    &&& *whole == *frame
                    &&& #[trigger] call_ensures(BytesMut::truncate, (whole, len), ())
                    &&& #[trigger] call_ensures(BytesMut::split_to, (rest, at), envelope)
                    &&& if body is None {
                        *rest == *final(whole)
                    } else {
                        exists|cut: &mut BytesMut, start: usize, tail: BytesMut|
                            {
                                &&& *cut == *final(whole)
                                &&& #[trigger] call_ensures(
                                    BytesMut::split_off,
                                    (cut, start),
                                    tail,
                                )
                                &&& *rest == *final(cut)
                            }
                    }
                },
{
}

/// An answer to the encoding of a frame, whose output was `before` and is
/// `after`. It succeeds exactly where the envelope, the body and four bytes
/// more are at most 64 MiB, and fit the limit of the codec; then one frame is
/// appended, else nothing is. The error names the size, of which it sees only
/// the low 32 bits of the body's length; where those fit, it is the codec that
/// refused.
pub open spec fn appends_what_fits(
    limit: int,
    envelope: Seq<u8>,
    body: Seq<u8>,
    before: Seq<u8>,
    after: Seq<u8>,
    r: Result<(), FrameError>,
) -> bool {
    let size = envelope.len() + body.len() + 4;
    let seen = envelope.len() + body.len() % 4294967296 + 4;
    &&& r is Ok <==> size <= 67108864 && size <= limit
    &&& match r {
        Ok(()) => {
            let wire = after.skip(before.len() as int);
            &&& after.len() >= before.len()
            &&& after.take(before.len() as int) == before
            &&& is_frame(wire, envelope, body)
        },
        Err(error) => {
            &&& after == before
            &&& seen > 67108864 ==> error == (FrameError::FrameTooLarge { size: seen as u128 })
            &&& seen <= 67108864 ==> error == FrameError::Unencodable
        },
    }
}

/// The contract of encoding appends what fits.
pub(crate) proof fn lemma_appends_what_fits(
    limit: usize,
    envelope: Seq<u8>,
    body: Option<Seq<u8>>,
    bytes: Seq<u8>,
    before: Seq<u8>,
    after: Seq<u8>,
    r: Result<(), FrameError>,
)
    requires
        limit < 4294967296,
        bytes == (match body {
            Some(b) => b,
            None => Seq::empty(),
        }),
        r == encode_outcome(limit, envelope.len(), bytes.len()),
        after == if r is Ok {
            before + wire_frame(envelope, body)
        } else {
            before
        },
    ensures
        appends_what_fits(limit as int, envelope, bytes, before, after, r),
{
    if r is Ok {
        lemma_wire_frame_is_frame(envelope, body, bytes);
        assert(after.take(before.len() as int) =~= before);
        assert(after.skip(before.len() as int) =~= wire_frame(envelope, body));
    }
}

/// Encoding appends exactly the frames that fit.
pub proof fn encoding_appends_what_fits()
    ensures
        forall|
            inner: &mut LengthDelimitedCodec,
            envelope: Bytes,
            body: Option<Bytes>,
            dst: &mut BytesMut,
            r: Result<(), FrameError>,
        | #[trigger]
            call_ensures(encode_frame, (inner, envelope, body, dst), r) && frame_limit(*inner)
                < 4294967296 ==> {
                &&& *final(inner) == *inner
                &&& appends_what_fits(
                    frame_limit(*inner) as int,
                    bytes_content(envelope),
                    body_of(body),
                    buffer_content(*dst),
                    buffer_content(*final(dst)),
                    r,
                )
            },
{
    assert forall|
        inner: &mut LengthDelimitedCodec,
        envelope: Bytes,
        body: Option<Bytes>,
        dst: &mut BytesMut,
        r: Result<(), FrameError>,
    | #[trigger]
        call_ensures(encode_frame, (inner, envelope, body, dst), r) && frame_limit(*inner)
            < 4294967296 implies {
        &&& *final(inner) == *inner
        &&& appends_what_fits(
            frame_limit(*inner) as int,
            bytes_content(envelope),
            body_of(body),
            buffer_content(*dst),
            buffer_content(*final(dst)),
            r,
        )
    } by {
        lemma_appends_what_fits(
            frame_limit(*inner),
            bytes_content(envelope),
            body_content(body),
            body_of(body),
            buffer_content(*dst),
            buffer_content(*final(dst)),
            r,
        );
    }
}

/// The codec of the frames accepts up to 64 MiB behind a header of four bytes,
/// and starts between frames.
pub proof fn frame_codec_takes_64_mib()
    ensures
        forall|codec: LengthDelimitedCodec| #[trigger]
            call_ensures(frame_codec, (), codec) ==> default_header(codec) && frame_limit(codec)
                == 67108864 && awaited_len(codec) is None,
{
}

/// Four bytes show the number that they were made from, in either order, and
/// reading gives it back.
pub proof fn words_show_their_number()
    ensures
        forall|n: u32, bytes: [u8; 4]| #[trigger]
            call_ensures(be_array, (n,), bytes) ==> be4(bytes@) == n,
        forall|n: u32, bytes: [u8; 4]| #[trigger]
            call_ensures(le_array, (n,), bytes) ==> le4(bytes@) == n,
        forall|bytes: &[u8], at: usize, n: u32|
            0 <= at && at + 4 <= bytes@.len() && #[trigger] call_ensures(read_le, (bytes, at), n)
                ==> n == le4(bytes@.subrange(at as int, at + 4)),
        forall|n: usize, low: u32| #[trigger]
            call_ensures(low_word, (n,), low) ==> (n - low) % 4294967296 == 0,
{
    assert forall|n: u32, bytes: [u8; 4]| #[trigger]
        call_ensures(be_array, (n,), bytes) implies be4(bytes@) == n by {
        lemma_be_round_trip(n as nat, Seq::empty());
        assert(bytes@ =~= bytes@ + Seq::<u8>::empty());
    }
    assert forall|n: u32, bytes: [u8; 4]| #[trigger]
        call_ensures(le_array, (n,), bytes) implies le4(bytes@) == n by {
        lemma_le_round_trip(n as nat, Seq::empty());
        assert(bytes@ =~= bytes@ + Seq::<u8>::empty());
    }
}

/// The length of an optional body is the number of its bytes.
pub proof fn body_length_counts_its_bytes()
    ensures
        forall|body: Option<Bytes>, n: usize| #[trigger]
            call_ensures(optional_len, (&body,), n) ==> n == body_of(body).len(),
{
}

} // verus!
