//! The layout of a frame and what its two ends make of it.

use tarpc_fory::buffers::optional_len;
use tarpc_fory::endian::{be_array, le_array, low_word, read_le};
use tarpc_fory::error::{ErrorKind, FrameError};
use tarpc_fory::text::append_decimal;
use tarpc_fory::zerocopy::frame_codec;
use tarpc_fory::{encode_frame, split_frame_body, MAX_FRAME_LEN};
use tokio_util::bytes::{Bytes, BytesMut};
use tokio_util::codec::Encoder;

#[test]
fn frame_limit_is_64_mib() {
    assert_eq!(MAX_FRAME_LEN, 67_108_864);
    assert_eq!(frame_codec().max_frame_length(), 67_108_864);
}

#[test]
fn encoded_frame_has_the_documented_layout() {
    let mut dst = BytesMut::from(&[0xEEu8][..]);
    encode_frame(
        &mut frame_codec(),
        Bytes::from_static(&[1, 2, 3]),
        Some(Bytes::from_static(&[8, 9])),
        &mut dst,
    )
    .unwrap();
    assert_eq!(
        &dst[..],
        &[0xEE, 0, 0, 0, 9, 1, 2, 3, 8, 9, 2, 0, 0, 0]
    );
}

#[test]
fn frame_splits_back_into_its_parts() {
    let mut frame = BytesMut::from(&[1u8, 2, 3, 8, 9, 2, 0, 0, 0][..]);
    let (envelope, body) = split_frame_body(&mut frame).unwrap();
    assert_eq!(&envelope[..], &[1, 2, 3]);
    assert_eq!(&body.unwrap()[..], &[8, 9]);
    assert!(frame.is_empty());
}

#[test]
fn body_may_take_the_whole_frame() {
    let mut frame = BytesMut::from(&[8u8, 9, 2, 0, 0, 0][..]);
    let (envelope, body) = split_frame_body(&mut frame).unwrap();
    assert!(envelope.is_empty());
    assert_eq!(&body.unwrap()[..], &[8, 9]);
}

#[test]
fn suffix_alone_is_an_empty_frame() {
    let mut frame = BytesMut::from(&[0u8, 0, 0, 0][..]);
    let (envelope, body) = split_frame_body(&mut frame).unwrap();
    assert!(envelope.is_empty());
    assert!(body.is_none());
}

#[test]
fn short_frame_is_left_as_it_is() {
    let mut frame = BytesMut::from(&[1u8, 2, 3][..]);
    let error = split_frame_body(&mut frame).unwrap_err();
    assert_eq!(error, FrameError::SuffixMissing);
    assert_eq!(error.kind(), ErrorKind::InvalidData);
    assert_eq!(error.message(), "frame too small for body_len suffix");
    assert_eq!(&frame[..], &[1, 2, 3]);
}

#[test]
fn overlong_body_costs_the_frame_its_suffix() {
    let mut frame = BytesMut::from(&[1u8, 2, 3, 0, 0, 0][..]);
    let error = split_frame_body(&mut frame).unwrap_err();
    assert_eq!(
        error,
        FrameError::BodyLenTooLarge {
            body_len: 3,
            remaining: 2
        }
    );
    assert_eq!(error.kind(), ErrorKind::InvalidData);
    assert_eq!(
        error.message(),
        "body_len 3 exceeds remaining frame length 2"
    );
    assert_eq!(&frame[..], &[1, 2]);
}

#[test]
fn empty_body_arrives_as_none() {
    let mut dst = BytesMut::new();
    encode_frame(
        &mut frame_codec(),
        Bytes::from_static(&[5]),
        Some(Bytes::new()),
        &mut dst,
    )
    .unwrap();
    let mut frame = dst.split_off(4);
    let (envelope, body) = split_frame_body(&mut frame).unwrap();
    assert_eq!(&envelope[..], &[5]);
    assert!(body.is_none());
}

#[test]
fn largest_frame_is_accepted_and_one_more_byte_is_not() {
    let mut dst = BytesMut::new();
    let envelope = Bytes::from(vec![7u8; MAX_FRAME_LEN - 4]);
    encode_frame(&mut frame_codec(), envelope, None, &mut dst).unwrap();
    assert_eq!(dst.len(), MAX_FRAME_LEN + 4);
    assert_eq!(&dst[..4], &[4, 0, 0, 0]);

    let mut dst = BytesMut::new();
    let envelope = Bytes::from(vec![7u8; MAX_FRAME_LEN - 3]);
    let error = encode_frame(&mut frame_codec(), envelope, None, &mut dst).unwrap_err();
    assert_eq!(error, FrameError::FrameTooLarge { size: 67_108_865 });
    assert_eq!(error.kind(), ErrorKind::InvalidInput);
    assert_eq!(
        error.message(),
        "frame size 67108865 exceeds MAX_FRAME_LEN 67108864"
    );
    assert!(dst.is_empty());
}

#[test]
fn smaller_codec_limit_is_reported_by_the_codec() {
    let mut codec = frame_codec();
    codec.set_max_frame_length(7);
    let mut dst = BytesMut::new();
    let error =
        encode_frame(&mut codec, Bytes::from_static(&[1, 2, 3, 4]), None, &mut dst).unwrap_err();
    assert_eq!(error, FrameError::Unencodable);
    assert_eq!(error.kind(), ErrorKind::Other);
    assert_eq!(error.message(), "frame size too big");
    assert!(dst.is_empty());

    let told = codec
        .encode(Bytes::from_static(&[1, 2, 3, 4, 0, 0, 0, 0]), &mut dst)
        .unwrap_err();
    assert_eq!(told.to_string(), error.message());
}

#[test]
fn words_in_both_byte_orders() {
    assert_eq!(be_array(0x0102_0304), [1, 2, 3, 4]);
    assert_eq!(le_array(0x0102_0304), [4, 3, 2, 1]);
    assert_eq!(read_le(&[0xFF, 4, 3, 2, 1], 1), 0x0102_0304);
    assert_eq!(read_le(&[0xFF, 0xFF, 0xFF, 0xFF], 0), u32::MAX);
    assert_eq!(low_word(0xFFFF_FFFF), u32::MAX);
    assert_eq!(low_word(5), 5);
}

#[test]
fn absent_body_has_no_length() {
    assert_eq!(optional_len(&None), 0);
    assert_eq!(optional_len(&Some(Bytes::from_static(b"abcd"))), 4);
}

#[test]
fn numbers_in_decimal() {
    let mut text = String::from("n=");
    append_decimal(&mut text, 0);
    append_decimal(&mut text, 9_876_543_210);
    assert_eq!(text, "n=09876543210");
    let mut text = String::new();
    append_decimal(&mut text, u128::MAX);
    assert_eq!(text, format!("{}", u128::MAX));
}
