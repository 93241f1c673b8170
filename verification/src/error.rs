//! Error types of the library.

use vstd::prelude::*;
use crate::{Codec, Container};

verus! {

/// Every failure a pipeline or one of its stages can report.
///
/// Failures carry a message naming the failing stage; failures that
/// originate outside the library (I/O, image decoding, an external
/// process) are carried as their rendered message.
#[derive(Debug, Clone)]
pub enum Error {
    /// Invalid input parameter.
    InvalidInput(String),
    /// Codec is not available from this library build.
    CodecUnavailable(String),
    /// Container and codec combination is not supported.
    ContainerCodecMismatch { container: Container, codec: Codec },
    /// I/O error.
    Io(String),
    /// Image processing error.
    Image(String),
    /// Encoding error.
    Encode(String),
    /// Decoding error.
    Decode(String),
    /// Muxing error.
    Mux(String),
    /// External encoder process error.
    Ffmpeg(String),
    /// Platform-specific error.
    Platform(String),
}

/// Coarse error classification for the C ABI boundary.
#[derive(Debug, Clone, Copy, PartialEq, Eq, Structural)]
pub enum ErrorCode {
    /// Success.
    Success,
    /// Invalid input parameter.
    InvalidInput,
    /// Codec not available.
    CodecUnavailable,
    /// Container/codec mismatch.
    ContainerCodecMismatch,
    /// I/O error.
    IoError,
    /// Encoding error.
    EncodeError,
    /// Decoding error.
    DecodeError,
}

impl ErrorCode {
    /// How each error maps to its code.
    pub open spec fn spec_of_error(err: Error) -> ErrorCode {
        match err {
            Error::InvalidInput(_) => ErrorCode::InvalidInput,
            Error::CodecUnavailable(_) => ErrorCode::CodecUnavailable,
            Error::ContainerCodecMismatch { .. } => ErrorCode::ContainerCodecMismatch,
            Error::Io(_) => ErrorCode::IoError,
            Error::Image(_) => ErrorCode::EncodeError,
            Error::Encode(_) => ErrorCode::EncodeError,
            Error::Decode(_) => ErrorCode::DecodeError,
            Error::Mux(_) => ErrorCode::EncodeError,
            Error::Ffmpeg(_) => ErrorCode::EncodeError,
            Error::Platform(_) => ErrorCode::EncodeError,
        }
    }

    /// Classify an error for the C ABI boundary.
    pub fn of_error(err: &Error) -> (r: ErrorCode)
        ensures
            r == ErrorCode::spec_of_error(*err),
    {
        match err {
            Error::InvalidInput(_) => ErrorCode::InvalidInput,
            Error::CodecUnavailable(_) => ErrorCode::CodecUnavailable,
            Error::ContainerCodecMismatch { .. } => ErrorCode::ContainerCodecMismatch,
            Error::Io(_) => ErrorCode::IoError,
            Error::Image(_) => ErrorCode::EncodeError,
            Error::Encode(_) => ErrorCode::EncodeError,
            Error::Decode(_) => ErrorCode::DecodeError,
            Error::Mux(_) => ErrorCode::EncodeError,
            Error::Ffmpeg(_) => ErrorCode::EncodeError,
            Error::Platform(_) => ErrorCode::EncodeError,
        }
    }
}

} // verus!
