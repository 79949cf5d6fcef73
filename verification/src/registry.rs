//! The Fory type registry that a transport serialises with.
use fory::Fory;
use std::sync::Arc;
use vstd::prelude::*;

use crate::error::CodecError;

verus! {

#[verifier::external_type_specification]
#[verifier::external_body]
pub struct ExFory(Fory);

/// What a service sends over the wire, and how it registers these types.
///
/// Implemented by the marker type of each service.
pub trait ServiceWireSchema {
    /// The request type of the service.
    type Req;

    /// The response type of the service.
    type Resp;

    /// Registers every type of the service that crosses the wire.
    fn register(fory: &mut Fory) -> Result<(), fory::Error>;
}

/// `<Fory as Default>::default` makes a registry with the default options and
/// no user type in it. A registry is opaque here, so nothing is said of it.
pub assume_specification[ <Fory as Default>::default ]() -> (fory: Fory)
;

/// `<Arc<Fory> as Clone>::clone` makes another pointer to the same registry.
#[verifier::external_body]
pub(crate) fn share(fory: &Arc<Fory>) -> (shared: Arc<Fory>)
    ensures
        shared == *fory,
{
    fory.clone()
}

/// The shared registry of a service, given what its registration returned.
pub fn registered(fory: Fory, outcome: Result<(), fory::Error>) -> (r: Result<
    Arc<Fory>,
    CodecError,
>)
    ensures
        match outcome {
            Ok(()) => r matches Ok(shared) && *shared == fory,
            Err(error) => r == Err::<Arc<Fory>, CodecError>(CodecError::Registration(error)),
        },
{
    match outcome {
        Ok(()) => Ok(Arc::new(fory)),
        Err(error) => Err(CodecError::Registration(error)),
    }
}

/// A registry with the types of service `S` and no others.
pub fn service_registry<S: ServiceWireSchema>() -> (r: Result<Arc<Fory>, CodecError>)
    ensures
        exists|fory: &mut Fory, outcome: Result<(), fory::Error>| #[trigger]
            call_ensures(S::register, (fory,), outcome) && call_ensures(
                <Fory as Default>::default,
                (),
                *fory,
            ) && match outcome {
                Ok(()) => r matches Ok(shared) && *shared == *final(fory),
                Err(error) => r == Err::<Arc<Fory>, CodecError>(CodecError::Registration(error)),
            },
{
    let mut fory: Fory = Fory::default();
    let outcome: Result<(), fory::Error> = S::register(&mut fory);
    registered(fory, outcome)
}

} // verus!
