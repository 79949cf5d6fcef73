//! Laws of the calls that give errors and trace contexts their form on the wire.
use vstd::prelude::*;

use crate::envelope::{
    error_kind_to_u32, sampling_to_u8, u32_to_error_kind, u8_to_sampling, ForyServerError,
    ForyTraceContext, SamplingDecision, ServerError, TraceContext, CLIENT_MESSAGE_TYPE_ID,
    ERROR_KINDS, REQUEST_TYPE_ID, RESPONSE_TYPE_ID, SERVER_ERROR_TYPE_ID, TRACE_CONTEXT_TYPE_ID,
};
use crate::error::ErrorKind;

verus! {

/// Whether the category goes over the wire as this number.
pub open spec fn has_number(kind: ErrorKind, number: int) -> bool {
    ||| kind is NotFound && number == 0
    ||| kind is PermissionDenied && number == 1
    ||| kind is ConnectionRefused && number == 2
    ||| kind is ConnectionReset && number == 3
    ||| kind is ConnectionAborted && number == 4
    ||| kind is NotConnected && number == 5
    ||| kind is AddrInUse && number == 6
    ||| kind is AddrNotAvailable && number == 7
    ||| kind is BrokenPipe && number == 8
    ||| kind is AlreadyExists && number == 9
    ||| kind is WouldBlock && number == 10
    ||| kind is InvalidInput && number == 11
    ||| kind is InvalidData && number == 12
    ||| kind is TimedOut && number == 13
    ||| kind is WriteZero && number == 14
    ||| kind is Interrupted && number == 15
    ||| kind is Other && number == 16
    ||| kind is UnexpectedEof && number == 17
}

/// Whether a number on the wire is read as this category: the one that has the
/// number, or `Other` where none has.
pub open spec fn reads_as(number: int, kind: ErrorKind) -> bool {
    if 0 <= number < 18 {
        has_number(kind, number)
    } else {
        kind is Other
    }
}

/// Every category has one number below 18, and no two have the same.
pub proof fn numbers_tell_kinds_apart(a: ErrorKind, b: ErrorKind, m: int, n: int)
    requires
        has_number(a, m),
        has_number(b, n),
    ensures
        0 <= m < 18,
        m == n <==> a == b,
        ERROR_KINDS == 18,
{
}

/// A category is written as its number.
pub proof fn kind_is_written_as_its_number(kind: ErrorKind, number: u32)
    requires
        call_ensures(error_kind_to_u32, (kind,), number),
    ensures
        has_number(kind, number as int),
{
}

/// A number is read as the category that has it.
pub proof fn number_is_read_as_its_kind(number: u32, kind: ErrorKind)
    requires
        call_ensures(u32_to_error_kind, (number,), kind),
    ensures
        reads_as(number as int, kind),
{
}

/// A server error is written with the number of its category and with its
/// detail as it is.
pub proof fn server_error_is_written_with_its_number(error: ServerError, wire: ForyServerError)
    requires
        call_ensures(<ForyServerError as From<&ServerError>>::from, (&error,), wire),
    ensures
        has_number(error.kind, wire.kind as int),
        wire.detail == error.detail,
{
}

/// A server error is read with the category that has its number and with its
/// detail as it is.
pub proof fn server_error_is_read_by_its_number(wire: ForyServerError, error: ServerError)
    requires
        call_ensures(<ServerError as From<ForyServerError>>::from, (wire,), error),
    ensures
        reads_as(wire.kind as int, error.kind),
        error.detail == wire.detail,
{
}

/// In specifications too, a server error is converted by the number of its
/// category, in both directions.
pub proof fn server_errors_convert_by_number(error: ServerError, wire: ForyServerError)
    ensures
        ({
            let written = <ForyServerError as vstd::std_specs::convert::FromSpec<
                &ServerError,
            >>::from_spec(&error);
            has_number(error.kind, written.kind as int) && written.detail == error.detail
        }),
        ({
            let read = <ServerError as vstd::std_specs::convert::FromSpec<
                ForyServerError,
            >>::from_spec(wire);
            reads_as(wire.kind as int, read.kind) && read.detail == wire.detail
        }),
{
}

/// A server error that is written and read again is the error that it was.
pub proof fn written_server_error_is_read_back(
    error: ServerError,
    wire: ForyServerError,
    read: ServerError,
)
    requires
        call_ensures(<ForyServerError as From<&ServerError>>::from, (&error,), wire),
        call_ensures(<ServerError as From<ForyServerError>>::from, (wire,), read),
    ensures
        read == error,
{
}

/// A sampled span is written as `1`, another as `0`.
pub proof fn sampling_is_written_as_a_bit(decision: SamplingDecision, byte: u8)
    requires
        call_ensures(sampling_to_u8, (decision,), byte),
    ensures
        decision is Sampled ==> byte == 1,
        decision is Unsampled ==> byte == 0,
{
}

/// Only a `1` is read as a sampled span.
pub proof fn only_one_is_read_as_sampled(byte: u8, decision: SamplingDecision)
    requires
        call_ensures(u8_to_sampling, (byte,), decision),
    ensures
        decision is Sampled <==> byte == 1,
{
}

/// A trace context is written field by field.
pub proof fn trace_context_is_written_by_field(context: TraceContext, wire: ForyTraceContext)
    requires
        call_ensures(<ForyTraceContext as From<&TraceContext>>::from, (&context,), wire),
    ensures
        wire.trace_id == context.trace_id,
        wire.span_id == context.span_id,
        context.sampling_decision is Sampled ==> wire.sampling == 1,
        context.sampling_decision is Unsampled ==> wire.sampling == 0,
{
}

/// A trace context is read field by field.
pub proof fn trace_context_is_read_by_field(wire: ForyTraceContext, context: TraceContext)
    requires
        call_ensures(<TraceContext as From<ForyTraceContext>>::from, (wire,), context),
    ensures
        context.trace_id == wire.trace_id,
        context.span_id == wire.span_id,
        context.sampling_decision is Sampled <==> wire.sampling == 1,
{
}

/// A trace context that is written and read again is the context that it was.
pub proof fn written_trace_context_is_read_back(
    context: TraceContext,
    wire: ForyTraceContext,
    read: TraceContext,
)
    requires
        call_ensures(<ForyTraceContext as From<&TraceContext>>::from, (&context,), wire),
        call_ensures(<TraceContext as From<ForyTraceContext>>::from, (wire,), read),
    ensures
        read == context,
{
}

/// The type ids on the wire: trace context, server error, request, response,
/// client message.
pub proof fn type_ids_are_fixed()
    ensures
        TRACE_CONTEXT_TYPE_ID == 2,
        SERVER_ERROR_TYPE_ID == 3,
        REQUEST_TYPE_ID == 5,
        RESPONSE_TYPE_ID == 6,
        CLIENT_MESSAGE_TYPE_ID == 7,
{
}

} // verus!
