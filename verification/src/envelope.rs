//! The numbers that stand for errors and trace contexts inside an envelope.
use vstd::prelude::*;

use crate::error::ErrorKind;

verus! {

/// Fory type id of [`ForyTraceContext`].
pub const TRACE_CONTEXT_TYPE_ID: u32 = 2;

/// Fory type id of [`ForyServerError`].
pub const SERVER_ERROR_TYPE_ID: u32 = 3;

/// Fory type id of a request inside a client message.
pub const REQUEST_TYPE_ID: u32 = 5;

/// Fory type id of a response.
pub const RESPONSE_TYPE_ID: u32 = 6;

/// Fory type id of a client message.
pub const CLIENT_MESSAGE_TYPE_ID: u32 = 7;

/// The number of error categories that have a number on the wire.
pub const ERROR_KINDS: u32 = 18;

/// The number of an error category on the wire.
pub open spec fn kind_number(kind: ErrorKind) -> u32 {
    match kind {
        ErrorKind::NotFound => 0,
        ErrorKind::PermissionDenied => 1,
        ErrorKind::ConnectionRefused => 2,
        ErrorKind::ConnectionReset => 3,
        ErrorKind::ConnectionAborted => 4,
        ErrorKind::NotConnected => 5,
        ErrorKind::AddrInUse => 6,
        ErrorKind::AddrNotAvailable => 7,
        ErrorKind::BrokenPipe => 8,
        ErrorKind::AlreadyExists => 9,
        ErrorKind::WouldBlock => 10,
        ErrorKind::InvalidInput => 11,
        ErrorKind::InvalidData => 12,
        ErrorKind::TimedOut => 13,
        ErrorKind::WriteZero => 14,
        ErrorKind::Interrupted => 15,
        ErrorKind::Other => 16,
        ErrorKind::UnexpectedEof => 17,
    }
}

/// The error category that a number on the wire stands for; `Other` for a
/// number that none has.
pub open spec fn kind_numbered(number: u32) -> ErrorKind {
    match number {
        0 => ErrorKind::NotFound,
        1 => ErrorKind::PermissionDenied,
        2 => ErrorKind::ConnectionRefused,
        3 => ErrorKind::ConnectionReset,
        4 => ErrorKind::ConnectionAborted,
        5 => ErrorKind::NotConnected,
        6 => ErrorKind::AddrInUse,
        7 => ErrorKind::AddrNotAvailable,
        8 => ErrorKind::BrokenPipe,
        9 => ErrorKind::AlreadyExists,
        10 => ErrorKind::WouldBlock,
        11 => ErrorKind::InvalidInput,
        12 => ErrorKind::InvalidData,
        13 => ErrorKind::TimedOut,
        14 => ErrorKind::WriteZero,
        15 => ErrorKind::Interrupted,
        16 => ErrorKind::Other,
        17 => ErrorKind::UnexpectedEof,
        _ => ErrorKind::Other,
    }
}

/// The number of an error category on the wire.
pub fn error_kind_to_u32(kind: ErrorKind) -> (number: u32)
    ensures
        number == kind_number(kind),
{
    match kind {
        ErrorKind::NotFound => 0,
        ErrorKind::PermissionDenied => 1,
        ErrorKind::ConnectionRefused => 2,
        ErrorKind::ConnectionReset => 3,
        ErrorKind::ConnectionAborted => 4,
        ErrorKind::NotConnected => 5,
        ErrorKind::AddrInUse => 6,
        ErrorKind::AddrNotAvailable => 7,
        ErrorKind::BrokenPipe => 8,
        ErrorKind::AlreadyExists => 9,
        ErrorKind::WouldBlock => 10,
        ErrorKind::InvalidInput => 11,
        ErrorKind::InvalidData => 12,
        ErrorKind::TimedOut => 13,
        ErrorKind::WriteZero => 14,
        ErrorKind::Interrupted => 15,
        ErrorKind::Other => 16,
        ErrorKind::UnexpectedEof => 17,
    }
}

/// The error category that a number on the wire stands for.
pub fn u32_to_error_kind(number: u32) -> (kind: ErrorKind)
    ensures
        kind == kind_numbered(number),
{
    match number {
        0 => ErrorKind::NotFound,
        1 => ErrorKind::PermissionDenied,
        2 => ErrorKind::ConnectionRefused,
        3 => ErrorKind::ConnectionReset,
        4 => ErrorKind::ConnectionAborted,
        5 => ErrorKind::NotConnected,
        6 => ErrorKind::AddrInUse,
        7 => ErrorKind::AddrNotAvailable,
        8 => ErrorKind::BrokenPipe,
        9 => ErrorKind::AlreadyExists,
        10 => ErrorKind::WouldBlock,
        11 => ErrorKind::InvalidInput,
        12 => ErrorKind::InvalidData,
        13 => ErrorKind::TimedOut,
        14 => ErrorKind::WriteZero,
        15 => ErrorKind::Interrupted,
        16 => ErrorKind::Other,
        17 => ErrorKind::UnexpectedEof,
        _ => ErrorKind::Other,
    }
}

/// No two error categories share a number, and all numbers are below
/// [`ERROR_KINDS`].
pub proof fn error_kinds_have_distinct_numbers(a: ErrorKind, b: ErrorKind)
    ensures
        kind_number(a) == kind_number(b) ==> a == b,
        kind_number(a) < ERROR_KINDS,
{
}

/// A category that went over the wire as its number is read back as itself.
pub proof fn error_kind_survives_the_wire(kind: ErrorKind)
    ensures
        kind_numbered(kind_number(kind)) == kind,
{
}

/// Every number below [`ERROR_KINDS`] is read as the category whose number it
/// is, and every other number as `Other`.
pub proof fn every_number_is_read_as_a_kind(number: u32)
    ensures
        number < ERROR_KINDS ==> kind_number(kind_numbered(number)) == number,
        number >= ERROR_KINDS ==> kind_numbered(number) == ErrorKind::Other,
{
}

/// An error that a server answers a request with.
#[derive(Debug)]
pub struct ServerError {
    /// What kind of error failed the request.
    pub kind: ErrorKind,
    /// What happened in detail.
    pub detail: String,
}

/// A [`ServerError`] as it stands inside an envelope.
#[derive(Debug)]
pub struct ForyServerError {
    /// The number of the error's category.
    pub kind: u32,
    /// What happened in detail.
    pub detail: String,
}

impl<'a> vstd::std_specs::convert::FromSpecImpl<&'a ServerError> for ForyServerError {
    open spec fn obeys_from_spec() -> bool {
        true
    }

    open spec fn from_spec(error: &'a ServerError) -> ForyServerError {
        ForyServerError { kind: kind_number(error.kind), detail: error.detail }
    }
}

impl<'a> From<&'a ServerError> for ForyServerError {
    /// The form of a server error inside an envelope.
    fn from(error: &'a ServerError) -> (wire: ForyServerError) {
        ForyServerError { kind: error_kind_to_u32(error.kind), detail: error.detail.clone() }
    }
}

impl vstd::std_specs::convert::FromSpecImpl<ForyServerError> for ServerError {
    open spec fn obeys_from_spec() -> bool {
        true
    }

    open spec fn from_spec(wire: ForyServerError) -> ServerError {
        ServerError { kind: kind_numbered(wire.kind), detail: wire.detail }
    }
}

impl From<ForyServerError> for ServerError {
    /// The server error that an envelope holds.
    fn from(wire: ForyServerError) -> (error: ServerError) {
        ServerError { kind: u32_to_error_kind(wire.kind), detail: wire.detail }
    }
}

/// A server error that went over the wire arrives unchanged.
pub proof fn server_error_survives_the_wire(error: ServerError)
    ensures
        <ServerError as vstd::std_specs::convert::FromSpec<ForyServerError>>::from_spec(
            <ForyServerError as vstd::std_specs::convert::FromSpec<&ServerError>>::from_spec(
                &error,
            ),
        ) == error,
{
    error_kind_survives_the_wire(error.kind);
}

/// Whether the process that created a span sampled it.
#[derive(Debug, Clone, Copy, PartialEq, Eq, Structural)]
pub enum SamplingDecision {
    Sampled,
    Unsampled,
}

/// The place of a request in a chain of causally related actions.
#[derive(Debug, Clone, Copy, PartialEq, Eq, Structural)]
pub struct TraceContext {
    pub trace_id: u128,
    pub span_id: u64,
    pub sampling_decision: SamplingDecision,
}

/// A [`TraceContext`] as it stands inside an envelope.
#[derive(Debug, Clone, Copy, PartialEq, Eq, Structural)]
pub struct ForyTraceContext {
    pub trace_id: u128,
    pub span_id: u64,
    /// `1` for a sampled span, `0` for one that was not.
    pub sampling: u8,
}

/// The byte of a sampling decision on the wire.
pub open spec fn sampling_byte(decision: SamplingDecision) -> u8 {
    match decision {
        SamplingDecision::Sampled => 1,
        SamplingDecision::Unsampled => 0,
    }
}

/// The byte of a sampling decision on the wire.
pub fn sampling_to_u8(decision: SamplingDecision) -> (byte: u8)
    ensures
        byte == sampling_byte(decision),
{
    match decision {
        SamplingDecision::Sampled => 1,
        SamplingDecision::Unsampled => 0,
    }
}

/// The sampling decision that a byte on the wire stands for. A byte that no
/// decision has is read as unsampled.
pub open spec fn byte_sampling(byte: u8) -> SamplingDecision {
    if byte == 1 {
        SamplingDecision::Sampled
    } else {
        SamplingDecision::Unsampled
    }
}

/// The sampling decision that a byte on the wire stands for.
pub fn u8_to_sampling(byte: u8) -> (decision: SamplingDecision)
    ensures
        decision == byte_sampling(byte),
{
    if byte == 1 {
        SamplingDecision::Sampled
    } else {
        SamplingDecision::Unsampled
    }
}

impl<'a> vstd::std_specs::convert::FromSpecImpl<&'a TraceContext> for ForyTraceContext {
    open spec fn obeys_from_spec() -> bool {
        true
    }

    open spec fn from_spec(context: &'a TraceContext) -> ForyTraceContext {
        ForyTraceContext {
            trace_id: context.trace_id,
            span_id: context.span_id,
            sampling: sampling_byte(context.sampling_decision),
        }
    }
}

impl<'a> From<&'a TraceContext> for ForyTraceContext {
    /// The form of a trace context inside an envelope.
    fn from(context: &'a TraceContext) -> (wire: ForyTraceContext) {
        ForyTraceContext {
            trace_id: context.trace_id,
            span_id: context.span_id,
            sampling: sampling_to_u8(context.sampling_decision),
        }
    }
}

impl vstd::std_specs::convert::FromSpecImpl<ForyTraceContext> for TraceContext {
    open spec fn obeys_from_spec() -> bool {
        true
    }

    open spec fn from_spec(wire: ForyTraceContext) -> TraceContext {
        TraceContext {
            trace_id: wire.trace_id,
            span_id: wire.span_id,
            sampling_decision: byte_sampling(wire.sampling),
        }
    }
}

impl From<ForyTraceContext> for TraceContext {
    /// The trace context that an envelope holds.
    fn from(wire: ForyTraceContext) -> (context: TraceContext) {
        TraceContext {
            trace_id: wire.trace_id,
            span_id: wire.span_id,
            sampling_decision: u8_to_sampling(wire.sampling),
        }
    }
}

/// A trace context that went over the wire arrives unchanged.
pub proof fn trace_context_survives_the_wire(context: TraceContext)
    ensures
        <TraceContext as vstd::std_specs::convert::FromSpec<ForyTraceContext>>::from_spec(
            <ForyTraceContext as vstd::std_specs::convert::FromSpec<&TraceContext>>::from_spec(
                &context,
            ),
        ) == context,
{
}

} // verus!
