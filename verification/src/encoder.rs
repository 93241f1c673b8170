//! Shared encoder data types and the encoder contract.

use vstd::prelude::*;
use crate::error::Error;

verus! {

/// Raw video frame in interleaved RGBA format.
#[derive(Debug, Clone)]
pub struct Frame {
    /// Frame width in pixels (even).
    pub width: u32,
    /// Frame height in pixels (even).
    pub height: u32,
    /// RGBA pixel data, `width * height * 4` bytes.
    pub data: Vec<u8>,
    /// Presentation timestamp in milliseconds.
    pub pts_ms: u64,
}

impl Frame {
    /// Well-formedness: dimensions are even, as the encoders in scope
    /// require, and the buffer holds exactly four bytes per pixel.
    pub open spec fn wf(self) -> bool {
        &&& self.width % 2 == 0
        &&& self.height % 2 == 0
        &&& self.data@.len() == self.width * self.height * 4
    }
}

/// Encoded video packet.
#[derive(Debug, Clone)]
pub struct Packet {
    /// Encoded payload bytes.
    pub data: Vec<u8>,
    /// Presentation timestamp in time-base units.
    pub pts: i64,
    /// Decoding timestamp in time-base units.
    pub dts: i64,
    /// Whether this packet starts at a keyframe.
    pub is_keyframe: bool,
}

/// Encoder configuration, immutable for the lifetime of one encoder.
#[derive(Debug, Clone)]
pub struct EncoderConfig {
    /// Frame width in pixels.
    pub width: u32,
    /// Frame height in pixels.
    pub height: u32,
    /// Frame rate in frames per second.
    pub fps: u32,
    /// Quality, 0-100, higher is better.
    pub quality: u8,
}

/// The uniform contract over heterogeneous encoder backends.
///
/// A backend buffers internally as it pleases: `encode` returns whatever
/// is currently drainable, possibly nothing.  `flush` is called exactly
/// once, after the last frame, and drains the rest.  The parameter-set
/// accessors may return `None` until after at least one `encode` or
/// `flush` call; absence is not an error.
pub trait Encoder: Sized {
    /// The encoder's internal state is usable.
    spec fn wf(&self) -> bool;

    /// The width the encoder was configured with.
    spec fn cfg_width(&self) -> u32;

    /// The height the encoder was configured with.
    spec fn cfg_height(&self) -> u32;

    /// Encode a frame, returning the packets that are drainable now.
    /// A backend failure is reported as a backend error, never as a
    /// validation error.
    fn encode(&mut self, frame: &Frame) -> (r: Result<Vec<Packet>, Error>)
        requires
            old(self).wf(),
            frame.wf(),
            frame.width == old(self).cfg_width(),
            frame.height == old(self).cfg_height(),
        ensures
            final(self).wf(),
            final(self).cfg_width() == old(self).cfg_width(),
            final(self).cfg_height() == old(self).cfg_height(),
            r is Err ==> !(r->Err_0 is ContainerCodecMismatch) && !(r->Err_0 is InvalidInput),
    ;

    /// Drain remaining packets; the encoder must not be used afterward.
    fn flush(&mut self) -> (r: Result<Vec<Packet>, Error>)
        requires
            old(self).wf(),
        ensures
            final(self).wf(),
            final(self).cfg_width() == old(self).cfg_width(),
            final(self).cfg_height() == old(self).cfg_height(),
            r is Err ==> !(r->Err_0 is ContainerCodecMismatch) && !(r->Err_0 is InvalidInput),
    ;

    /// The codec's configuration record (the SPS for H.264), once known.
    fn codec_config(&self) -> Option<Vec<u8>>;

    /// The picture parameter set (the PPS for H.264), once known.
    fn pps(&self) -> Option<Vec<u8>>;
}

} // verus!
