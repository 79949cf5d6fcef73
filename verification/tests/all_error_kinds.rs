//! Every error category through its number on the wire and through Fory.

use fory::{Fory, ForyDefault, ReadContext, Serializer, TypeId, TypeResolver, WriteContext};
use std::any::Any;
use std::collections::HashSet;
use std::sync::Arc;
use tarpc_fory::envelope::{error_kind_to_u32, u32_to_error_kind, ServerError, SERVER_ERROR_TYPE_ID};
use tarpc_fory::error::ErrorKind;
use tarpc_fory::{ForyEnvelopeCodec, ForyServerError};
use tokio_util::bytes::BytesMut;

/// A server error in a form that Fory can carry.
struct Carried(ForyServerError);

impl Serializer for Carried {
    fn fory_write_data(&self, context: &mut WriteContext) -> Result<(), fory::Error> {
        self.0.kind.fory_write_data(context)?;
        self.0.detail.fory_write_data(context)
    }

    fn fory_read_data(context: &mut ReadContext) -> Result<Self, fory::Error> {
        let kind = u32::fory_read_data(context)?;
        let detail = String::fory_read_data(context)?;
        Ok(Carried(ForyServerError { kind, detail }))
    }

    fn fory_type_id_dyn(&self, resolver: &TypeResolver) -> Result<TypeId, fory::Error> {
        Self::fory_get_type_id(resolver)
    }

    fn as_any(&self) -> &dyn Any {
        self
    }
}

impl ForyDefault for Carried {
    fn fory_default() -> Self {
        Carried(ForyServerError {
            kind: 0,
            detail: String::new(),
        })
    }
}

fn make_fory() -> Fory {
    let mut fory = Fory::default();
    fory.register_serializer::<Carried>(SERVER_ERROR_TYPE_ID).unwrap();
    fory
}

const ALL_KINDS: &[ErrorKind] = &[
    ErrorKind::NotFound,
    ErrorKind::PermissionDenied,
    ErrorKind::ConnectionRefused,
    ErrorKind::ConnectionReset,
    ErrorKind::ConnectionAborted,
    ErrorKind::NotConnected,
    ErrorKind::AddrInUse,
    ErrorKind::AddrNotAvailable,
    ErrorKind::BrokenPipe,
    ErrorKind::AlreadyExists,
    ErrorKind::WouldBlock,
    ErrorKind::InvalidInput,
    ErrorKind::InvalidData,
    ErrorKind::TimedOut,
    ErrorKind::WriteZero,
    ErrorKind::Interrupted,
    ErrorKind::Other,
    ErrorKind::UnexpectedEof,
];

#[test]
fn all_error_kinds_bijective_through_fory_encoding() {
    let fory = make_fory();

    for &kind in ALL_KINDS {
        let native = ServerError {
            kind,
            detail: "test".to_string(),
        };

        let wrapper = ForyServerError::from(&native);
        assert_eq!(wrapper.detail, "test", "detail lost for {kind:?}");

        let bytes = fory.serialize(&Carried(wrapper)).unwrap();
        let decoded: Carried = fory.deserialize(&bytes).unwrap();

        let round_tripped = ServerError::from(decoded.0);
        assert_eq!(round_tripped.kind, kind, "kind mismatch for {kind:?}");
        assert_eq!(round_tripped.detail, "test", "detail mismatch for {kind:?}");
    }
}

#[test]
fn all_error_kinds_come_through_the_envelope_codec() {
    let codec = ForyEnvelopeCodec::<String, String>::new(Arc::new(make_fory()));

    for &kind in ALL_KINDS {
        let native = ServerError {
            kind,
            detail: format!("detail of {kind:?}"),
        };
        let sent = codec
            .serialize(&Carried(ForyServerError::from(&native)), |fory, item| {
                fory.serialize(item)
            })
            .unwrap();
        let received = BytesMut::from(&sent[..]);
        let wire: Carried = codec
            .deserialize(&received, |fory, bytes| fory.deserialize(bytes))
            .unwrap();
        let read = ServerError::from(wire.0);
        assert_eq!(read.kind, native.kind);
        assert_eq!(read.detail, native.detail);
    }
}

#[test]
fn error_kind_discriminants_match_table() {
    let table: &[(ErrorKind, u32)] = &[
        (ErrorKind::NotFound, 0),
        (ErrorKind::PermissionDenied, 1),
        (ErrorKind::ConnectionRefused, 2),
        (ErrorKind::ConnectionReset, 3),
        (ErrorKind::ConnectionAborted, 4),
        (ErrorKind::NotConnected, 5),
        (ErrorKind::AddrInUse, 6),
        (ErrorKind::AddrNotAvailable, 7),
        (ErrorKind::BrokenPipe, 8),
        (ErrorKind::AlreadyExists, 9),
        (ErrorKind::WouldBlock, 10),
        (ErrorKind::InvalidInput, 11),
        (ErrorKind::InvalidData, 12),
        (ErrorKind::TimedOut, 13),
        (ErrorKind::WriteZero, 14),
        (ErrorKind::Interrupted, 15),
        (ErrorKind::Other, 16),
        (ErrorKind::UnexpectedEof, 17),
    ];

    for &(kind, expected) in table {
        let got = error_kind_to_u32(kind);
        assert_eq!(got, expected, "wrong u32 for {kind:?}: expected {expected}, got {got}");
        assert_eq!(u32_to_error_kind(expected), kind);
    }

    let discriminants: Vec<u32> = table.iter().map(|&(k, _)| error_kind_to_u32(k)).collect();
    let unique: HashSet<u32> = discriminants.iter().copied().collect();
    assert_eq!(unique.len(), 18, "discriminants are not unique");
}

#[test]
fn unknown_discriminant_decodes_as_other() {
    for unknown in [18u32, 99, 255, 1000] {
        let kind = u32_to_error_kind(unknown);
        assert_eq!(
            kind,
            ErrorKind::Other,
            "u32={unknown} should map to Other, got {kind:?}"
        );
    }
}
