//! The envelope codec, the registry of a service and the listeners.

use fory::Fory;
use std::sync::Arc;
use tarpc_fory::codec::decoded;
use tarpc_fory::error::{envelope_result, CodecError, ErrorKind};
use tarpc_fory::listener::{
    accept_step, accepted, client_halves, envelope_connection, server_halves,
    zerocopy_connection, AcceptAction,
};
use tarpc_fory::registry::{registered, service_registry};
use tarpc_fory::{ForyEnvelopeCodec, ServiceWireSchema, StreamingMode};
use tokio_util::bytes::{Bytes, BytesMut};

fn fory_error() -> fory::Error {
    Fory::default().deserialize::<String>(&[0xFE]).unwrap_err()
}

fn write_text(fory: &Fory, text: &String) -> Result<Vec<u8>, fory::Error> {
    fory.serialize(text)
}

fn read_text(fory: &Fory, bytes: &[u8]) -> Result<String, fory::Error> {
    fory.deserialize(bytes)
}

#[test]
fn envelope_codec_round_trip() {
    let fory = Arc::new(Fory::default());
    let codec = ForyEnvelopeCodec::<String, String>::new(fory.clone());
    let bytes = codec.serialize(&"hello".to_string(), write_text).unwrap();
    assert_eq!(&bytes[..], &fory.serialize(&"hello".to_string()).unwrap()[..]);
    let received = BytesMut::from(&bytes[..]);
    let text = codec.clone().deserialize(&received, read_text).unwrap();
    assert_eq!(text, "hello");
    assert_eq!(&received[..], &bytes[..]);
}

#[test]
fn envelope_codec_reports_fory_errors() {
    let codec = ForyEnvelopeCodec::<String, String>::new(Arc::new(Fory::default()));
    let received = BytesMut::from(&[0xFEu8][..]);
    let error = codec.deserialize(&received, read_text).unwrap_err();
    assert_eq!(error.kind(), ErrorKind::InvalidData);
    assert_eq!(error.message(), fory_error().to_string());

    let error = codec
        .serialize(&(), |_, _| Err(fory_error()))
        .unwrap_err();
    assert!(matches!(error, CodecError::Envelope(_)));
}

#[test]
fn results_of_fory_are_passed_on() {
    assert_eq!(envelope_result(Ok(7)).unwrap(), 7);
    assert!(matches!(
        envelope_result::<()>(Err(fory_error())),
        Err(CodecError::Envelope(_))
    ));
    let body = Some(Bytes::from_static(b"b"));
    assert_eq!(decoded(Ok(7), body.clone()).unwrap(), Some((7, body)));
    assert!(matches!(
        decoded::<()>(Err(fory_error()), None),
        Err(CodecError::Envelope(_))
    ));
}

struct Hello;

impl ServiceWireSchema for Hello {
    type Req = String;
    type Resp = String;

    fn register(_: &mut Fory) -> Result<(), fory::Error> {
        Ok(())
    }
}

struct Broken;

impl ServiceWireSchema for Broken {
    type Req = String;
    type Resp = String;

    fn register(_: &mut Fory) -> Result<(), fory::Error> {
        Err(fory_error())
    }
}

#[test]
fn registry_of_a_service_can_be_used() {
    let fory = service_registry::<Hello>().unwrap();
    let bytes = fory.serialize(&"x".to_string()).unwrap();
    assert_eq!(fory.deserialize::<String>(&bytes).unwrap(), "x");
}

#[test]
fn failed_registration_is_reported() {
    let error = match service_registry::<Broken>() {
        Err(error) => error,
        Ok(_) => panic!("expected an error"),
    };
    assert_eq!(error.kind(), ErrorKind::Other);
    assert_eq!(error.message(), fory_error().to_string());
    assert!(matches!(error, CodecError::Registration(_)));
    assert!(registered(Fory::default(), Ok(())).is_ok());
}

#[test]
fn accept_loop_stops_on_the_first_error() {
    let answers: [(Result<(u8, ()), &str>, &str); 4] = [
        (Ok((1, ())), "old"),
        (Ok((2, ())), "new"),
        (Err("gone"), "new"),
        (Ok((3, ())), "new"),
    ];
    let mut handshakes = Vec::new();
    let mut failure = None;
    for (outcome, config) in answers {
        match accept_step(outcome, config) {
            AcceptAction::Handshake { stream, config } => handshakes.push((stream, config)),
            AcceptAction::Stop { error } => {
                failure = Some(error);
                break;
            }
        }
    }
    assert_eq!(handshakes, vec![(1, "old"), (2, "new")]);
    assert_eq!(failure, Some("gone"));
}

#[test]
fn each_handshake_yields_its_own_item() {
    let fory = Arc::new(Fory::default());
    let outcomes: [Result<u8, &str>; 3] = [Ok(1), Err("bad certificate"), Ok(3)];
    let mut items = Vec::new();
    for outcome in outcomes {
        let item = zerocopy_connection::<_, String, String, _>(outcome, fory.clone());
        items.push(item.map(|(stream, _codec)| stream));
    }
    assert_eq!(items, vec![Ok(1), Err("bad certificate"), Ok(3)]);

    let item = envelope_connection::<u8, String, String, &str>(Ok(7), fory.clone());
    let (stream, frames, codec) = item.ok().unwrap();
    assert_eq!(stream, 7);
    assert_eq!(frames.max_frame_length(), 67_108_864);
    let bytes = codec.serialize(&"x".to_string(), write_text).unwrap();
    assert_eq!(&bytes[..], &fory.serialize(&"x".to_string()).unwrap()[..]);
    let item = envelope_connection::<u8, String, String, &str>(Err("reset"), fory);
    assert_eq!(item.err(), Some("reset"));
}

#[test]
fn plain_listener_passes_errors_on() {
    assert_eq!(accepted::<u8, (), &str>(Ok((9, ()))), Some(Ok(9)));
    assert_eq!(accepted::<u8, (), &str>(Err("busy")), Some(Err("busy")));
}

#[test]
fn halves_of_a_connection_start_idle() {
    let fory = Arc::new(Fory::default());
    let (_codec, mut sink) = server_halves::<_, String, String, String>(vec![1u8], &fory);
    assert!(!sink.needs_flush());
    assert_eq!(*sink.parts().1, vec![1]);
    let (_codec, mut sink) = client_halves::<_, String, String, String>(vec![2u8], &fory);
    assert!(!sink.needs_flush());
    assert_eq!(*sink.parts().1, vec![2]);
    assert_eq!(Arc::strong_count(&fory), 5);
}

#[test]
fn streaming_modes_are_distinct() {
    let mode = StreamingMode::Server;
    assert_eq!(mode, mode.clone());
    assert_ne!(StreamingMode::Server, StreamingMode::Client);
    assert_ne!(StreamingMode::Client, StreamingMode::Bidirectional);
}
