//! The envelope codec of the classic transport.
//!
//! Whole messages go through Fory here; there is no separate body.
use fory::Fory;
use std::marker::PhantomData;
use std::sync::Arc;
use tokio_util::bytes::{Bytes, BytesMut};
use vstd::prelude::*;

use crate::buffers::{buffer_content, buffer_slice, bytes_content, bytes_from_vec};
use crate::error::{envelope_result, CodecError};
use crate::registry::share;

verus! {

/// The bytes to send for a message, given what serialising it returned.
pub fn serialized(value: Result<Vec<u8>, fory::Error>) -> (r: Result<Bytes, CodecError>)
    ensures
        match value {
            Ok(envelope) => r matches Ok(bytes) && bytes_content(bytes) == envelope@,
            Err(error) => r == Err::<Bytes, CodecError>(CodecError::Envelope(error)),
        },
{
    match envelope_result(value) {
        Ok(envelope) => Ok(bytes_from_vec(envelope)),
        Err(error) => Err(error),
    }
}

/// What serialising a message answers under a given registry.
pub open spec fn serializes<M, S: FnOnce(&Fory, &M) -> Result<Vec<u8>, fory::Error>>(
    registry: Fory,
    item: M,
    serialize: S,
    r: Result<Bytes, CodecError>,
) -> bool {
    exists|value: Result<Vec<u8>, fory::Error>|
        {
            &&& #[trigger] call_ensures(serialize, (&registry, &item), value)
            &&& match value {
                Ok(envelope) => r matches Ok(bytes) && bytes_content(bytes) == envelope@,
                Err(error) => r == Err::<Bytes, CodecError>(CodecError::Envelope(error)),
            }
        }
}

/// What deserialising a received frame answers under a given registry.
pub open spec fn deserializes<T, D: FnOnce(&Fory, &[u8]) -> Result<T, fory::Error>>(
    registry: Fory,
    input: Seq<u8>,
    deserialize: D,
    r: Result<T, CodecError>,
) -> bool {
    exists|bytes: &[u8], value: Result<T, fory::Error>|
        {
            &&& bytes@ == input
            &&& #[trigger] call_ensures(deserialize, (&registry, bytes), value)
            &&& r == match value {
                Ok(message) => Ok::<T, CodecError>(message),
                Err(error) => Err(CodecError::Envelope(error)),
            }
        }
}

/// Codec between the messages of a service and their Fory form. It serves both
/// sides of a connection.
pub struct ForyEnvelopeCodec<Req, Resp> {
    fory: Arc<Fory>,
    _marker: PhantomData<(Req, Resp)>,
}

impl<Req, Resp> ForyEnvelopeCodec<Req, Resp> {
    /// The registry that messages are serialised with.
    pub closed spec fn registry(self) -> Fory {
        *self.fory
    }

    /// A codec that shares the given registry.
    pub fn new(fory: Arc<Fory>) -> (codec: Self)
        ensures
            codec.registry() == *fory,
    {
        ForyEnvelopeCodec { fory, _marker: PhantomData }
    }

    /// The bytes of a message.
    pub fn serialize<M, S>(&self, item: &M, serialize: S) -> (r: Result<Bytes, CodecError>) where
        S: FnOnce(&Fory, &M) -> Result<Vec<u8>, fory::Error>,

        requires
            call_requires(serialize, (&self.registry(), item)),
        ensures
            serializes(self.registry(), *item, serialize, r),
    {
        serialized(serialize(&self.fory, item))
    }

    /// The message that a received frame holds.
    pub fn deserialize<T, D>(&self, src: &BytesMut, deserialize: D) -> (r: Result<
        T,
        CodecError,
    >) where D: FnOnce(&Fory, &[u8]) -> Result<T, fory::Error>
        requires
            forall|bytes: &[u8]| #[trigger] call_requires(deserialize, (&self.registry(), bytes)),
        ensures
            deserializes(self.registry(), buffer_content(*src), deserialize, r),
    {
        let fory: &Fory = &self.fory;
        assert(*fory == self.registry());
        envelope_result(deserialize(fory, buffer_slice(src)))
    }
}

impl<Req, Resp> Clone for ForyEnvelopeCodec<Req, Resp> {
    /// Another codec on the same registry.
    fn clone(&self) -> (codec: Self)
        ensures
            codec.registry() == self.registry(),
    {
        ForyEnvelopeCodec { fory: share(&self.fory), _marker: PhantomData }
    }
}

} // verus!
