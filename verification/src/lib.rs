//! Fory-serialised envelopes with zero-copy bulk payloads for `tarpc` services.
//!
//! The crate holds the part of the transport that can be stated and proved:
//! the frame layout, the two zero-copy codecs, the vectored-write sink, the
//! envelope codec, the accept decisions of the listeners and the wire numbers
//! of the envelope types. Sockets, TLS handshakes and the task plumbing around
//! them live outside of it.
pub mod buffers;
pub mod codec;
pub mod delimited;
pub mod endian;
pub mod envelope;
pub mod error;
pub mod guarantees;
pub mod laws;
pub mod listener;
pub mod registry;
pub mod round_trip;
pub mod sink;
pub mod text;
pub mod transport;
pub mod zerocopy;

use vstd::prelude::*;

pub use codec::{ClientZeroCopyCodec, ServerZeroCopyCodec};
pub use envelope::{ForyServerError, ForyTraceContext};
pub use registry::ServiceWireSchema;
pub use sink::{ToFrame, ZeroCopySink};
pub use transport::ForyEnvelopeCodec;
pub use zerocopy::{encode_frame, split_frame_body, MAX_FRAME_LEN};

verus! {

/// Streaming mode of a service method.
#[derive(Debug, Clone, Copy, PartialEq, Eq, Structural)]
pub enum StreamingMode {
    /// Server sends a stream; client sends a single request.
    Server,
    /// Client sends a stream; server replies once.
    Client,
    /// Both sides stream concurrently.
    Bidirectional,
}

} // verus!
