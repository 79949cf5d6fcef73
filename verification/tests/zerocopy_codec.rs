//! The two zero-copy codecs, with Fory behind them.

use fory::Fory;
use std::sync::Arc;
use tarpc::{context, ClientMessage, Request, Response};
use tarpc_fory::error::{CodecError, ErrorKind, FrameError};
use tarpc_fory::{ClientZeroCopyCodec, ServerZeroCopyCodec, MAX_FRAME_LEN};
use tokio_util::bytes::{Bytes, BytesMut};
use tokio_util::codec::{Decoder, Encoder, LengthDelimitedCodec};

fn make_fory() -> Arc<Fory> {
    Arc::new(Fory::default())
}

fn make_request(id: u64, msg: &str) -> ClientMessage<String> {
    ClientMessage::Request(Request {
        context: context::current(),
        id,
        message: msg.to_string(),
    })
}

fn write_request(fory: &Fory, message: &ClientMessage<String>) -> Result<Vec<u8>, fory::Error> {
    match message {
        ClientMessage::Request(request) => {
            fory.serialize(&format!("{}:{}", request.id, request.message))
        }
        _ => unreachable!(),
    }
}

fn read_request(fory: &Fory, bytes: &[u8]) -> Result<ClientMessage<String>, fory::Error> {
    let text: String = fory.deserialize(bytes)?;
    let (id, message) = text.split_once(':').unwrap();
    Ok(make_request(id.parse().unwrap(), message))
}

fn write_response(fory: &Fory, response: &Response<String>) -> Result<Vec<u8>, fory::Error> {
    let message = response.message.clone().unwrap();
    fory.serialize(&format!("{}:{}", response.request_id, message))
}

fn read_response(fory: &Fory, bytes: &[u8]) -> Result<Response<String>, fory::Error> {
    let text: String = fory.deserialize(bytes)?;
    let (id, message) = text.split_once(':').unwrap();
    Ok(Response {
        request_id: id.parse().unwrap(),
        message: Ok(message.to_string()),
    })
}

fn request_text(message: &ClientMessage<String>) -> (u64, String) {
    match message {
        ClientMessage::Request(request) => (request.id, request.message.clone()),
        _ => unreachable!(),
    }
}

/// The body that the decoder hands out lies in the buffer it was received in.
#[test]
fn body_is_aliased() {
    let fory = make_fory();

    let body_data = vec![0xABu8; 4 * 1024 * 1024];
    let body = Bytes::from(body_data);

    let req = make_request(1, "zerocopy-test");

    let mut client_codec = ClientZeroCopyCodec::<String, String>::new(fory.clone());
    let mut wire_buf = BytesMut::new();
    client_codec
        .encode((req, Some(body.clone())), &mut wire_buf, write_request)
        .expect("encode failed");

    let wire_start = wire_buf.as_ptr() as usize;
    let wire_end = wire_buf.as_ptr() as usize + wire_buf.len();

    let mut server_codec = ServerZeroCopyCodec::<String, String>::new(fory.clone());
    let decoded = server_codec
        .decode(&mut wire_buf, read_request)
        .expect("decode returned Err")
        .expect("decode returned None");

    let (_envelope, received_body) = decoded;
    let received_body = received_body.expect("expected Some(body), got None");

    assert_eq!(received_body.len(), 4 * 1024 * 1024, "body length mismatch");
    assert_eq!(received_body[0], 0xAB, "sentinel at [0] corrupted");
    assert_eq!(
        received_body[received_body.len() - 1],
        0xAB,
        "sentinel at [last] corrupted"
    );

    let body_ptr = received_body.as_ptr() as usize;
    assert!(
        body_ptr >= wire_start && body_ptr + received_body.len() <= wire_end,
        "body pointer is not within the frame allocation: a copy occurred"
    );
}

/// A frame shorter than 4 bytes cannot contain the body_len suffix.
#[test]
fn rejects_short_frame() {
    let fory = make_fory();
    let mut codec = ServerZeroCopyCodec::<String, String>::new(fory);

    let inner = Bytes::from_static(&[0x01, 0x02]);
    let mut ld = LengthDelimitedCodec::new();
    let mut buf = BytesMut::new();
    ld.encode(inner, &mut buf).expect("ld encode failed");

    let result = codec.decode(&mut buf, read_request);
    match result {
        Err(e) => assert_eq!(
            e.kind(),
            ErrorKind::InvalidData,
            "expected InvalidData, got {:?}",
            e
        ),
        Ok(v) => panic!("expected Err(InvalidData), got Ok({:?})", v),
    }
}

/// A frame whose body_len suffix claims a size larger than the remaining
/// frame bytes must be rejected with InvalidData.
#[test]
fn rejects_oversized_body_len() {
    let fory = make_fory();
    let mut codec = ServerZeroCopyCodec::<String, String>::new(fory);

    let mut frame_inner = vec![0u8; 16];
    frame_inner.extend_from_slice(&u32::MAX.to_le_bytes());

    let mut ld = LengthDelimitedCodec::new();
    let mut buf = BytesMut::new();
    ld.encode(Bytes::from(frame_inner), &mut buf)
        .expect("ld encode failed");

    let result = codec.decode(&mut buf, read_request);
    match result {
        Err(e) => {
            assert_eq!(
                e.kind(),
                ErrorKind::InvalidData,
                "expected InvalidData, got {:?}",
                e
            );
            assert_eq!(
                e.message(),
                "body_len 4294967295 exceeds remaining frame length 16"
            );
        }
        Ok(v) => panic!("expected Err(InvalidData), got Ok({:?})", v),
    }
}

/// When body_len = 0 the envelope region is the entire frame minus the 4-byte suffix.
#[test]
fn zero_body_len_roundtrip() {
    let fory = make_fory();
    let req = make_request(99, "no-body-negative");

    let mut client_codec = ClientZeroCopyCodec::<String, String>::new(fory.clone());
    let mut wire_buf = BytesMut::new();
    client_codec
        .encode((req, None), &mut wire_buf, write_request)
        .expect("encode failed");

    let mut server_codec = ServerZeroCopyCodec::<String, String>::new(fory);
    let decoded = server_codec
        .decode(&mut wire_buf, read_request)
        .expect("decode returned Err")
        .expect("decode returned None");

    let (msg, body) = decoded;
    assert!(body.is_none(), "expected no body for body_len = 0 frame");
    assert_eq!(request_text(&msg), (99, "no-body-negative".to_string()));
}

/// A response travels the other way, with its body.
#[test]
fn response_and_body_reach_the_client() {
    let fory = make_fory();
    let response = Response {
        request_id: 42,
        message: Ok("body_len:3".to_string()),
    };

    let mut wire = BytesMut::new();
    ServerZeroCopyCodec::<String, String>::new(fory.clone())
        .encode(
            (response, Some(Bytes::from_static(b"abc"))),
            &mut wire,
            write_response,
        )
        .unwrap();

    let (response, body) = ClientZeroCopyCodec::<String, String>::new(fory)
        .decode(&mut wire, read_response)
        .unwrap()
        .unwrap();
    assert_eq!(response.request_id, 42);
    assert_eq!(response.message.unwrap(), "body_len:3");
    assert_eq!(&body.unwrap()[..], b"abc");
    assert!(wire.is_empty());
}

/// Several frames on one connection arrive in order, however the bytes are cut.
#[test]
fn frames_arrive_in_order_byte_by_byte() {
    let fory = make_fory();
    let mut client = ClientZeroCopyCodec::<String, String>::new(fory.clone());
    let mut wire = BytesMut::new();
    for id in 0u64..5 {
        let body = if id % 2 == 0 {
            Some(Bytes::from(vec![id as u8; id as usize]))
        } else {
            None
        };
        client
            .encode((make_request(id, "piece"), body), &mut wire, write_request)
            .unwrap();
    }

    let mut server = ServerZeroCopyCodec::<String, String>::new(fory);
    let mut buffer = BytesMut::new();
    let mut seen = Vec::new();
    for byte in wire.iter() {
        buffer.extend_from_slice(&[*byte]);
        while let Some((message, body)) = server.decode(&mut buffer, read_request).unwrap() {
            seen.push((request_text(&message).0, body.map(|b| b.to_vec())));
        }
    }
    assert_eq!(
        seen,
        vec![
            (0, None),
            (1, None),
            (2, Some(vec![2, 2])),
            (3, None),
            (4, Some(vec![4, 4, 4, 4])),
        ]
    );
    assert!(buffer.is_empty());
}

/// Messages come back one per call, each with its own body; one call more
/// finds nothing and leaves nothing.
#[test]
fn messages_come_back_one_per_call() {
    let fory = make_fory();
    let bodies = [
        Some(Bytes::from_static(b"one")),
        None,
        Some(Bytes::new()),
        Some(Bytes::from_static(b"four")),
    ];
    let mut client = ClientZeroCopyCodec::<String, String>::new(fory.clone());
    let mut wire = BytesMut::new();
    for (id, body) in bodies.iter().enumerate() {
        let request = make_request(id as u64, &format!("message {}", id));
        client
            .encode((request, body.clone()), &mut wire, write_request)
            .unwrap();
    }

    let mut server = ServerZeroCopyCodec::<String, String>::new(fory);
    for (id, sent) in bodies.iter().enumerate() {
        let (message, body) = server.decode(&mut wire, read_request).unwrap().unwrap();
        assert_eq!(
            request_text(&message),
            (id as u64, format!("message {}", id))
        );
        assert_eq!(body, sent.clone().filter(|b| !b.is_empty()));
    }
    assert!(server.decode(&mut wire, read_request).unwrap().is_none());
    assert!(wire.is_empty());
}

/// An incomplete frame is awaited; its header is taken off the input at once.
#[test]
fn incomplete_frame_is_awaited() {
    let mut codec = ServerZeroCopyCodec::<String, String>::new(make_fory());
    let mut buffer = BytesMut::from(&[0u8, 0, 0][..]);
    assert!(codec.decode(&mut buffer, read_request).unwrap().is_none());
    assert_eq!(buffer.len(), 3);
    buffer.extend_from_slice(&[9, 1, 2]);
    assert!(codec.decode(&mut buffer, read_request).unwrap().is_none());
    assert_eq!(&buffer[..], &[1, 2]);
}

/// A header above the limit is refused and stays in the input.
#[test]
fn oversized_header_is_refused() {
    let mut codec = ServerZeroCopyCodec::<String, String>::new(make_fory());
    let header = ((MAX_FRAME_LEN + 1) as u32).to_be_bytes();
    let mut buffer = BytesMut::from(&header[..]);
    let error = codec.decode(&mut buffer, read_request).unwrap_err();
    assert!(matches!(error, CodecError::Frame(FrameError::Oversized)));
    assert_eq!(error.kind(), ErrorKind::InvalidData);
    assert_eq!(error.message(), "frame size too big");
    assert_eq!(&buffer[..], &header[..]);

    let mut plain = LengthDelimitedCodec::new();
    let told = plain.decode(&mut buffer).unwrap_err();
    assert_eq!(told.to_string(), error.message());
    assert_eq!(told.kind(), std::io::ErrorKind::InvalidData);
}

/// The limit itself is still announced and awaited.
#[test]
fn header_at_the_limit_is_awaited() {
    let mut codec = ServerZeroCopyCodec::<String, String>::new(make_fory());
    let mut buffer = BytesMut::from(&(MAX_FRAME_LEN as u32).to_be_bytes()[..]);
    assert!(codec.decode(&mut buffer, read_request).unwrap().is_none());
    assert!(buffer.is_empty());
}

/// An envelope that Fory cannot read is invalid data, told in Fory's words.
#[test]
fn unreadable_envelope_is_invalid_data() {
    let mut codec = ServerZeroCopyCodec::<String, String>::new(make_fory());
    let mut wire = BytesMut::from(&[0u8, 0, 0, 5, 0xFE, 0, 0, 0, 0][..]);
    let error = codec.decode(&mut wire, read_request).unwrap_err();
    assert_eq!(error.kind(), ErrorKind::InvalidData);
    let told = match &error {
        CodecError::Envelope(e) => e.to_string(),
        other => panic!("expected an envelope error, got {:?}", other),
    };
    assert_eq!(error.message(), told);
    assert!(wire.is_empty());
}

/// A message that Fory cannot write leaves the output as it was.
#[test]
fn unwritable_message_leaves_the_output_alone() {
    let mut codec = ClientZeroCopyCodec::<String, String>::new(make_fory());
    let mut wire = BytesMut::from(&b"kept"[..]);
    let error = codec
        .encode((make_request(1, "x"), None), &mut wire, |fory, _| {
            fory.deserialize::<String>(&[0xFE]).map(|_| Vec::new())
        })
        .unwrap_err();
    assert!(matches!(error, CodecError::Envelope(_)));
    assert_eq!(&wire[..], b"kept");
}

/// A frame above the limit is refused before anything is written.
#[test]
fn too_large_message_leaves_the_output_alone() {
    let mut codec = ClientZeroCopyCodec::<String, String>::new(make_fory());
    let mut wire = BytesMut::from(&b"kept"[..]);
    let body = Bytes::from(vec![0u8; MAX_FRAME_LEN - 6]);
    let error = codec
        .encode((make_request(1, "x"), Some(body)), &mut wire, |_, _| {
            Ok(vec![1, 2, 3])
        })
        .unwrap_err();
    assert!(matches!(
        error,
        CodecError::Frame(FrameError::FrameTooLarge { size: 67108865 })
    ));
    assert_eq!(error.kind(), ErrorKind::InvalidInput);
    assert_eq!(
        error.message(),
        "frame size 67108865 exceeds MAX_FRAME_LEN 67108864"
    );
    assert_eq!(&wire[..], b"kept");
}
