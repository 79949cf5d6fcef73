//! Laws of the calls that decide about connections.
use fory::Fory;
use std::sync::Arc;
use tokio_util::codec::LengthDelimitedCodec;
use vstd::prelude::*;

use crate::codec::{ClientZeroCopyCodec, ServerZeroCopyCodec};
use crate::delimited::{awaited_len, default_header, frame_limit};
use crate::listener::{
    accept_step, accepted, client_halves, envelope_connection, server_halves, zerocopy_connection,
    AcceptAction,
};
use crate::sink::ZeroCopySink;
use crate::transport::ForyEnvelopeCodec;

verus! {

/// A connection is always shaken hands on, under the current configuration,
/// whoever the peer is; only an error of the socket stops the loop, and it is
/// the error that is reported.
pub proof fn only_an_error_stops_accepting<S, P, C, E>(
    outcome: Result<(S, P), E>,
    config: C,
    action: AcceptAction<S, C, E>,
)
    requires
        call_ensures(accept_step::<S, P, C, E>, (outcome, config), action),
    ensures
        outcome is Ok <==> action is Handshake,
        outcome matches Ok((stream, _)) ==> action == (AcceptAction::Handshake::<S, C, E> {
            stream,
            config,
        }),
        outcome matches Err(error) ==> action == (AcceptAction::Stop::<S, C, E> { error }),
{
}

/// Every answer of a socket is handed on: a connection as itself, an error as
/// itself, and the stream of connections never ends.
pub proof fn every_answer_is_handed_on<S, P, E>(
    outcome: Result<(S, P), E>,
    r: Option<Result<S, E>>,
)
    requires
        call_ensures(accepted::<S, P, E>, (outcome,), r),
    ensures
        r is Some,
        outcome matches Ok((stream, _)) ==> r == Some(Ok::<S, E>(stream)),
        outcome matches Err(error) ==> r == Some(Err::<S, E>(error)),
{
}

/// A zero-copy connection is served on its own stream, with the listener's
/// registry, from the start of a frame; a failed handshake yields its error.
pub proof fn zerocopy_connection_starts_between_frames<T, Req, Resp, E>(
    outcome: Result<T, E>,
    fory: Arc<Fory>,
    item: Result<(T, ServerZeroCopyCodec<Req, Resp>), E>,
)
    requires
        call_ensures(zerocopy_connection::<T, Req, Resp, E>, (outcome, fory), item),
    ensures
        outcome is Ok <==> item is Ok,
        item matches Ok((served, codec)) ==> outcome == Ok::<T, E>(served) && codec.wf()
            && codec@.registry == *fory && codec@.awaited is None,
        item matches Err(error) ==> outcome == Err::<T, E>(error),
{
}

/// A classic connection is served on its own stream, with the listener's
/// registry and frames of up to 64 MiB, from the start of a frame; a failed
/// handshake yields its error.
pub proof fn envelope_connection_starts_between_frames<T, Req, Resp, E>(
    outcome: Result<T, E>,
    fory: Arc<Fory>,
    item: Result<(T, LengthDelimitedCodec, ForyEnvelopeCodec<Req, Resp>), E>,
)
    requires
        call_ensures(envelope_connection::<T, Req, Resp, E>, (outcome, fory), item),
    ensures
        outcome is Ok <==> item is Ok,
        item matches Ok((served, frames, codec)) ==> outcome == Ok::<T, E>(served)
            && default_header(frames) && frame_limit(frames) == 67108864 && awaited_len(frames)
            is None && codec.registry() == *fory,
        item matches Err(error) ==> outcome == Err::<T, E>(error),
{
}

/// The halves of a server's connection share its registry; the read half
/// starts between frames, and the write half has nothing in flight.
pub proof fn server_halves_share_a_registry<W, Req, Resp, Item>(
    writer: W,
    fory: Arc<Fory>,
    halves: (ServerZeroCopyCodec<Req, Resp>, ZeroCopySink<W, Item>),
)
    requires
        call_ensures(server_halves::<W, Req, Resp, Item>, (writer, &fory), halves),
    ensures
        halves.0.wf(),
        halves.0@.registry == *fory,
        halves.0@.awaited is None,
        halves.1.registry() == *fory,
        halves.1.pending() is None,
        halves.1.writer() == writer,
{
}

/// The halves of a client's connection share its registry; the read half
/// starts between frames, and the write half has nothing in flight.
pub proof fn client_halves_share_a_registry<W, Req, Resp, Item>(
    writer: W,
    fory: Arc<Fory>,
    halves: (ClientZeroCopyCodec<Req, Resp>, ZeroCopySink<W, Item>),
)
    requires
        call_ensures(client_halves::<W, Req, Resp, Item>, (writer, &fory), halves),
    ensures
        halves.0.wf(),
        halves.0@.registry == *fory,
        halves.0@.awaited is None,
        halves.1.registry() == *fory,
        halves.1.pending() is None,
        halves.1.writer() == writer,
{
}

} // verus!
