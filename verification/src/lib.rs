//! Verified core of a minimal video generation library.
//!
//! The library turns sequences of still images or pairs of decoded videos
//! into encoded, muxed video byte streams.  It owns the codec-agnostic
//! encode/mux pipeline, the raw-pixel-to-planar conversion, a from-scratch
//! chunked (EBML/WebM-style) container writer, the H.264 parameter-set
//! (NAL) handling, and the frame-level orchestration of the two pipelines.
//! File and process I/O stay outside; callers hand the library loaded
//! pixel buffers and receive the finished container bytes.

use vstd::prelude::*;

pub mod av1;
pub mod encoder;
pub mod error;
pub mod image_ops;
pub mod juxtapose;
pub mod mp4;
pub mod muxer;
pub mod nal;
pub mod pixel;
pub mod slideshow;
pub mod sps;
pub mod webm;

verus! {

/// Video codec selector.
#[derive(Debug, Clone, Copy, PartialEq, Eq, Structural)]
pub enum Codec {
    /// AV1 codec.
    Av1,
    /// H.264 codec (backend supplied by the embedding application).
    H264,
}

/// Container format selector.
#[derive(Debug, Clone, Copy, PartialEq, Eq, Structural)]
pub enum Container {
    /// Conventional MP4-style container.
    Mp4,
    /// Chunked WebM-style container.
    WebM,
}

impl Container {
    /// The compatibility matrix: which codecs a container accepts.
    pub open spec fn spec_supports_codec(self, codec: Codec) -> bool {
        match (self, codec) {
            (Container::Mp4, _) => true,
            (Container::WebM, Codec::Av1) => true,
            (Container::WebM, Codec::H264) => false,
        }
    }

    /// Check if the container supports the given codec.
    pub fn supports_codec(&self, codec: Codec) -> (r: bool)
        ensures
            r == self.spec_supports_codec(codec),
    {
        match (self, codec) {
            (Container::Mp4, _) => true,
            (Container::WebM, Codec::Av1) => true,
            (Container::WebM, Codec::H264) => false,
        }
    }
}

/// RGB color, used as the background fill of composed frames.
#[derive(Debug, Clone, Copy, PartialEq, Eq, Structural)]
pub struct Color {
    pub r: u8,
    pub g: u8,
    pub b: u8,
}

impl Default for Color {
    /// Opaque white.
    fn default() -> (c: Color)
        ensures
            c == (Color { r: 255, g: 255, b: 255 }),
    {
        Color { r: 255, g: 255, b: 255 }
    }
}

/// One slide of a slideshow: an image path and its display duration.
#[derive(Debug, Clone)]
pub struct SlideEntry {
    /// Path to the image file.
    pub path: String,
    /// Duration to display this image, in milliseconds.
    pub duration_ms: u32,
}

/// Options shared by both encoding pipelines.
#[derive(Debug, Clone)]
pub struct EncodeOptions {
    /// Output file path (used by the embedding application).
    pub output_path: String,
    /// Container format.
    pub container: Container,
    /// Video codec.
    pub codec: Codec,
    /// Quality, 0-100, where 100 is highest quality.
    pub quality: u8,
    /// Path to an external encoder executable, where a backend needs one.
    pub ffmpeg_path: Option<String>,
}

impl EncodeOptions {
    /// Validate the options: the (container, codec) pair must be compatible.
    pub fn validate(&self) -> (r: Result<(), error::Error>)
        ensures
            r is Ok <==> self.container.spec_supports_codec(self.codec),
            r is Err ==> r->Err_0 == (error::Error::ContainerCodecMismatch {
                container: self.container,
                codec: self.codec,
            }),
    {
        if !self.container.supports_codec(self.codec) {
            return Err(error::Error::ContainerCodecMismatch {
                container: self.container,
                codec: self.codec,
            });
        }
        Ok(())
    }
}

/// Check whether a codec can be encoded.  The AV1 backend ships with
/// the library; H.264 backends are platform collaborators supplied by
/// the embedding application, which probes for them itself.
pub fn available(codec: Codec, ffmpeg_path: Option<&str>) -> (r: Result<(), error::Error>)
    ensures
        r is Ok <==> codec is Av1,
        r is Err ==> r->Err_0 is CodecUnavailable,
{
    match codec {
        Codec::Av1 => Ok(()),
        Codec::H264 => Err(
            error::Error::CodecUnavailable(
                "H.264 encoding is provided by the embedding application".to_owned(),
            ),
        ),
    }
}

} // verus!
