//! The vectored-write sink.

use fory::Fory;
use std::io;
use std::sync::Arc;
use tarpc::Response;
use tarpc_fory::error::{CodecError, ErrorKind, FrameError};
use tarpc_fory::sink::{
    close_step, frame_parts, poll_flush_pending, CloseAction, FlushAction, FlushEvent,
    PendingWrite, SendError,
};
use tarpc_fory::zerocopy::frame_codec;
use tarpc_fory::{encode_frame, ClientZeroCopyCodec, ToFrame, ZeroCopySink, MAX_FRAME_LEN};
use tokio_util::bytes::{Bytes, BytesMut};

fn make_fory() -> Arc<Fory> {
    Arc::new(Fory::default())
}

/// Drives a flush with a writer that takes at most `step` bytes at a time.
fn drain(pending: &mut Option<PendingWrite>, step: usize) -> Vec<u8> {
    let mut written = Vec::new();
    let mut action = poll_flush_pending(pending, FlushEvent::<io::Error>::Started);
    loop {
        match action {
            FlushAction::Write => {
                let offered: Vec<u8> = pending.as_ref().unwrap().io_slices().concat();
                let n = offered.len().min(step);
                written.extend_from_slice(&offered[..n]);
                action = poll_flush_pending(pending, FlushEvent::Written(n));
            }
            FlushAction::Flush => return written,
            other => panic!("unexpected action {:?}", other),
        }
    }
}

fn encoded(envelope: &[u8], body: Option<&[u8]>) -> Vec<u8> {
    let mut dst = BytesMut::new();
    encode_frame(
        &mut frame_codec(),
        Bytes::copy_from_slice(envelope),
        body.map(Bytes::copy_from_slice),
        &mut dst,
    )
    .unwrap();
    dst.to_vec()
}

#[test]
fn slices_of_a_fresh_frame() {
    let pending = PendingWrite::new(vec![1, 2, 3], Some(Bytes::from_static(&[8, 9])));
    let slices = pending.io_slices();
    assert_eq!(
        slices,
        vec![&[0u8, 0, 0, 9][..], &[1, 2, 3], &[8, 9], &[2, 0, 0, 0]]
    );
    assert_eq!(pending.cursor(), 0);
}

#[test]
fn slices_without_body_or_envelope() {
    let pending = PendingWrite::new(vec![], None);
    let empty: &[u8] = &[];
    assert_eq!(
        pending.io_slices(),
        vec![&[0u8, 0, 0, 4][..], empty, &[0, 0, 0, 0]]
    );
}

#[test]
fn slices_behind_the_cursor() {
    let mut pending = Some(PendingWrite::new(
        vec![1, 2, 3],
        Some(Bytes::from_static(&[8, 9])),
    ));
    let action = poll_flush_pending(&mut pending, FlushEvent::<()>::Written(5));
    assert!(matches!(action, FlushAction::Write));
    assert_eq!(
        pending.as_ref().unwrap().io_slices(),
        vec![&[2u8, 3][..], &[8, 9], &[2, 0, 0, 0]]
    );
    let action = poll_flush_pending(&mut pending, FlushEvent::<()>::Written(6));
    assert!(matches!(action, FlushAction::Write));
    assert_eq!(pending.as_ref().unwrap().io_slices(), vec![&[0u8, 0][..]]);
    assert_eq!(pending.as_ref().unwrap().cursor(), 11);
    let action = poll_flush_pending(&mut pending, FlushEvent::<()>::Written(2));
    assert!(matches!(action, FlushAction::Flush));
    assert!(pending.is_none());
}

#[test]
fn body_is_offered_in_place() {
    let body = Bytes::from(vec![0xBEu8; 4096]);
    let place = body.as_ptr();
    let pending = PendingWrite::new(vec![1], Some(body));
    assert_eq!(pending.io_slices()[2].as_ptr(), place);
}

#[test]
fn any_step_writes_the_encoded_frame() {
    let cases: [(&[u8], Option<&[u8]>); 4] = [
        (&[1, 2, 3], Some(&[8, 9])),
        (&[1, 2, 3], None),
        (&[], Some(&[7])),
        (&[], Some(&[])),
    ];
    for (envelope, body) in cases {
        for step in 1..20 {
            let mut pending = Some(PendingWrite::new(
                envelope.to_vec(),
                body.map(Bytes::copy_from_slice),
            ));
            assert_eq!(drain(&mut pending, step), encoded(envelope, body));
            assert!(pending.is_none());
        }
    }
}

#[test]
fn writer_that_takes_nothing_is_an_error() {
    let mut pending = Some(PendingWrite::new(vec![1], None));
    let action = poll_flush_pending(&mut pending, FlushEvent::<()>::Written(0));
    match action {
        FlushAction::Stall(error) => {
            assert_eq!(error, FrameError::WriteZero);
            assert_eq!(error.kind(), ErrorKind::WriteZero);
            assert_eq!(error.message(), "write_vectored returned 0 bytes");
        }
        other => panic!("unexpected action {:?}", other),
    }
    assert!(pending.is_some());
}

#[test]
fn blocked_and_failed_writers_keep_the_frame() {
    let mut pending = Some(PendingWrite::new(vec![1], None));
    let action = poll_flush_pending(&mut pending, FlushEvent::<&str>::Blocked);
    assert!(matches!(action, FlushAction::Wait));
    let action = poll_flush_pending(&mut pending, FlushEvent::Failed("broken"));
    assert!(matches!(action, FlushAction::Fail("broken")));
    assert_eq!(pending.unwrap().cursor(), 0);
}

#[test]
fn writer_is_shut_down_only_after_the_flush() {
    assert!(matches!(close_step::<&str>(None), CloseAction::Wait));
    assert!(matches!(
        close_step::<&str>(Some(Ok(()))),
        CloseAction::Shutdown
    ));
    assert!(matches!(
        close_step(Some(Err("broken"))),
        CloseAction::Fail("broken")
    ));
}

#[test]
fn idle_sink_flushes_its_writer() {
    let mut pending = None;
    let action = poll_flush_pending(&mut pending, FlushEvent::<()>::Started);
    assert!(matches!(action, FlushAction::Flush));
}

struct Text(&'static str, Option<Bytes>);

impl ToFrame for Text {
    fn to_frame(self, fory: &Fory) -> Result<(Vec<u8>, Option<Bytes>), io::Error> {
        if self.0.is_empty() {
            return Err(io::Error::new(io::ErrorKind::InvalidData, "nothing to say"));
        }
        let parts = frame_parts(fory.serialize(&self.0.to_string()), self.1);
        parts.map_err(|e| io::Error::other(e.message()))
    }
}

fn read_text(fory: &Fory, bytes: &[u8]) -> Result<Response<String>, fory::Error> {
    let text: String = fory.deserialize(bytes)?;
    Ok(Response {
        request_id: 0,
        message: Ok(text),
    })
}

#[test]
fn sent_item_is_in_flight_until_it_is_written() {
    let fory = make_fory();
    let mut sink = ZeroCopySink::new(Vec::<u8>::new(), fory.clone());
    assert!(!sink.needs_flush());
    sink.start_send(Text("hello", Some(Bytes::from_static(b"bulk"))))
        .unwrap();
    assert!(sink.needs_flush());

    let (pending, writer) = sink.parts();
    let written = drain(pending, 3);
    writer.extend_from_slice(&written);
    assert!(!sink.needs_flush());

    let envelope = fory.serialize(&"hello".to_string()).unwrap();
    let (_, writer) = sink.parts();
    assert_eq!(*writer, encoded(&envelope, Some(b"bulk")));
}

#[test]
fn sent_body_is_queued_in_place() {
    let body = Bytes::from(vec![0xBEu8; 4096]);
    let place = body.as_ptr();
    let mut sink = ZeroCopySink::new((), make_fory());
    sink.start_send(Text("x", Some(body.clone()))).unwrap();

    let (pending, _) = sink.parts();
    assert_eq!(pending.as_ref().unwrap().io_slices()[2].as_ptr(), place);

    let envelope_len = pending.as_ref().unwrap().io_slices()[1].len();
    let written = 4 + envelope_len + 100;
    poll_flush_pending(pending, FlushEvent::<()>::Written(written));
    let left = pending.as_ref().unwrap().io_slices()[0];
    assert_eq!(left.as_ptr() as usize, place as usize + 100);
    assert_eq!(left.len(), 4096 - 100);
}

#[test]
fn flushed_items_arrive_in_order() {
    let fory = make_fory();
    let mut sink = ZeroCopySink::new(BytesMut::new(), fory.clone());
    let items = [
        Text("first", Some(Bytes::from_static(b"one"))),
        Text("second", None),
        Text("third", Some(Bytes::from_static(b"three"))),
    ];
    for (step, item) in items.into_iter().enumerate() {
        sink.start_send(item).unwrap();
        let (pending, writer) = sink.parts();
        let written = drain(pending, step + 2);
        writer.extend_from_slice(&written);
    }

    let mut codec = ClientZeroCopyCodec::<String, String>::new(fory);
    let mut seen = Vec::new();
    let (_, wire) = sink.parts();
    while let Some((response, body)) = codec.decode(wire, read_text).unwrap() {
        seen.push((response.message.unwrap(), body.map(|b| b.to_vec())));
    }
    assert_eq!(
        seen,
        vec![
            ("first".to_string(), Some(b"one".to_vec())),
            ("second".to_string(), None),
            ("third".to_string(), Some(b"three".to_vec())),
        ]
    );
    assert!(wire.is_empty());
}

#[test]
fn unserialisable_item_is_refused() {
    let mut sink = ZeroCopySink::new((), make_fory());
    match sink.start_send(Text("", None)) {
        Err(SendError::Item(error)) => assert_eq!(error.to_string(), "nothing to say"),
        other => panic!("unexpected {:?}", other),
    }
    assert!(!sink.needs_flush());
}

#[test]
fn too_large_item_is_refused() {
    let mut sink = ZeroCopySink::<(), Text>::new((), make_fory());
    let body = Bytes::from(vec![0u8; MAX_FRAME_LEN - 4]);
    match sink.start_send(Text("x", Some(body))) {
        Err(SendError::Frame(FrameError::FrameTooLarge { size })) => {
            assert!(size > MAX_FRAME_LEN as u128)
        }
        other => panic!("unexpected {:?}", other),
    }
    assert!(!sink.needs_flush());

    assert_eq!(
        sink.start_frame(vec![1], Some(Bytes::from(vec![0u8; MAX_FRAME_LEN - 4]))),
        Err(FrameError::FrameTooLarge { size: 67_108_865 })
    );
    assert_eq!(
        sink.start_frame(vec![], Some(Bytes::from(vec![0u8; MAX_FRAME_LEN - 4]))),
        Ok(())
    );
    assert!(sink.needs_flush());
}

#[test]
fn failed_serialisation_is_an_envelope_error() {
    let error = make_fory().deserialize::<String>(&[0xFE]).unwrap_err();
    let told = error.to_string();
    match frame_parts(Err(error), None) {
        Err(CodecError::Envelope(e)) => assert_eq!(e.to_string(), told),
        other => panic!("unexpected {:?}", other),
    }
}
