//! What each operation does, said of its calls.
//!
//! The laws here speak of arbitrary calls of the executable functions, in terms
//! of what goes in and what comes out: bytes, lengths and numbers written out.
//! Beside the views of the types and the names of what a buffer or a codec
//! holds, they share no definition with the contracts of those functions.
pub mod codecs;
pub mod envelopes;
pub mod frames;
pub mod listeners;
pub mod messages;
pub mod sinks;
