//! What the transport reports when it fails.
use vstd::prelude::*;

use crate::text::{append_decimal, decimal};
use crate::zerocopy::MAX_FRAME_LEN;

verus! {

/// The category of a failure. The variants are those categories of
/// `std::io::ErrorKind` that have a number on the wire.
#[derive(Debug, Clone, Copy, PartialEq, Eq, Structural)]
pub enum ErrorKind {
    NotFound,
    PermissionDenied,
    ConnectionRefused,
    ConnectionReset,
    ConnectionAborted,
    NotConnected,
    AddrInUse,
    AddrNotAvailable,
    BrokenPipe,
    AlreadyExists,
    WouldBlock,
    InvalidInput,
    InvalidData,
    TimedOut,
    WriteZero,
    Interrupted,
    Other,
    UnexpectedEof,
}

/// A failure of the framing layer.
#[derive(Debug, Clone, Copy, PartialEq, Eq, Structural)]
pub enum FrameError {
    /// A received frame is too short to hold the body length.
    SuffixMissing,
    /// A received frame announces a longer body than it holds.
    BodyLenTooLarge { body_len: usize, remaining: usize },
    /// A received header announces a frame above the limit.
    Oversized,
    /// A frame to be sent is above [`MAX_FRAME_LEN`].
    FrameTooLarge { size: u128 },
    /// A frame to be sent is above the limit of the length-delimited codec.
    Unencodable,
    /// The writer accepted no byte of a frame.
    WriteZero,
}

/// The category of a framing failure.
pub open spec fn frame_error_kind(error: FrameError) -> ErrorKind {
    match error {
        FrameError::SuffixMissing => ErrorKind::InvalidData,
        FrameError::BodyLenTooLarge { .. } => ErrorKind::InvalidData,
        FrameError::Oversized => ErrorKind::InvalidData,
        FrameError::FrameTooLarge { .. } => ErrorKind::InvalidInput,
        FrameError::Unencodable => ErrorKind::Other,
        FrameError::WriteZero => ErrorKind::WriteZero,
    }
}

/// The message of a framing failure.
pub open spec fn frame_error_message(error: FrameError) -> Seq<char> {
    match error {
        FrameError::SuffixMissing => "frame too small for body_len suffix"@,
        FrameError::BodyLenTooLarge { body_len, remaining } => "body_len "@ + decimal(
            body_len as nat,
        ) + " exceeds remaining frame length "@ + decimal(remaining as nat),
        FrameError::Oversized => "frame size too big"@,
        FrameError::FrameTooLarge { size } => "frame size "@ + decimal(size as nat)
            + " exceeds MAX_FRAME_LEN "@ + decimal(MAX_FRAME_LEN as nat),
        FrameError::Unencodable => "frame size too big"@,
        FrameError::WriteZero => "write_vectored returned 0 bytes"@,
    }
}

impl FrameError {
    /// The category of the failure.
    pub fn kind(&self) -> (kind: ErrorKind)
        ensures
            kind == frame_error_kind(*self),
    {
        match self {
            FrameError::SuffixMissing => ErrorKind::InvalidData,
            FrameError::BodyLenTooLarge { .. } => ErrorKind::InvalidData,
            FrameError::Oversized => ErrorKind::InvalidData,
            FrameError::FrameTooLarge { .. } => ErrorKind::InvalidInput,
            FrameError::Unencodable => ErrorKind::Other,
            FrameError::WriteZero => ErrorKind::WriteZero,
        }
    }

    /// The message of the failure.
    pub fn message(&self) -> (message: String)
        ensures
            message@ == frame_error_message(*self),
    {
        let mut message: String = String::new();
        match self {
            FrameError::SuffixMissing => {
                message.append("frame too small for body_len suffix");
            },
            FrameError::BodyLenTooLarge { body_len, remaining } => {
                message.append("body_len ");
                append_decimal(&mut message, *body_len as u128);
                message.append(" exceeds remaining frame length ");
                append_decimal(&mut message, *remaining as u128);
            },
            FrameError::Oversized => {
                message.append("frame size too big");
            },
            FrameError::FrameTooLarge { size } => {
                message.append("frame size ");
                append_decimal(&mut message, *size);
                message.append(" exceeds MAX_FRAME_LEN ");
                append_decimal(&mut message, MAX_FRAME_LEN as u128);
            },
            FrameError::Unencodable => {
                message.append("frame size too big");
            },
            FrameError::WriteZero => {
                message.append("write_vectored returned 0 bytes");
            },
        }
        assert(message@ =~= frame_error_message(*self));
        message
    }
}

#[verifier::external_type_specification]
#[verifier::external_body]
pub struct ExForyError(fory::Error);

/// A failure of a codec or of the setup of a transport.
#[derive(Debug)]
pub enum CodecError {
    /// The framing layer failed.
    Frame(FrameError),
    /// An envelope could not be serialised or deserialised.
    Envelope(fory::Error),
    /// The types of a service could not be registered.
    Registration(fory::Error),
}

/// The category of a codec failure.
pub open spec fn codec_error_kind(error: CodecError) -> ErrorKind {
    match error {
        CodecError::Frame(e) => frame_error_kind(e),
        CodecError::Envelope(_) => ErrorKind::InvalidData,
        CodecError::Registration(_) => ErrorKind::Other,
    }
}

impl CodecError {
    /// The category of the failure.
    pub fn kind(&self) -> (kind: ErrorKind)
        ensures
            kind == codec_error_kind(*self),
    {
        match self {
            CodecError::Frame(e) => e.kind(),
            CodecError::Envelope(_) => ErrorKind::InvalidData,
            CodecError::Registration(_) => ErrorKind::Other,
        }
    }

    /// The message of the failure. A Fory error speaks for itself.
    pub fn message(&self) -> (message: String)
        ensures
            match *self {
                CodecError::Frame(e) => message@ == frame_error_message(e),
                CodecError::Envelope(e) => vstd::string::to_string_from_display_ensures(
                    &e,
                    message,
                ),
                CodecError::Registration(e) => vstd::string::to_string_from_display_ensures(
                    &e,
                    message,
                ),
            },
    {
        match self {
            CodecError::Frame(e) => e.message(),
            CodecError::Envelope(e) => e.to_string(),
            CodecError::Registration(e) => e.to_string(),
        }
    }
}

/// Marks a failure of Fory as one of the envelope.
pub fn envelope_result<T>(value: Result<T, fory::Error>) -> (r: Result<T, CodecError>)
    ensures
        r == match value {
            Ok(item) => Ok::<T, CodecError>(item),
            Err(error) => Err(CodecError::Envelope(error)),
        },
{
    match value {
        Ok(item) => Ok(item),
        Err(error) => Err(CodecError::Envelope(error)),
    }
}

} // verus!
