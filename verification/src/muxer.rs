//! The muxer contract and the container dispatch.

use vstd::prelude::*;
use crate::{Codec, Container};
use crate::encoder::Packet;
use crate::error::Error;
use crate::mp4::Mp4Muxer;
use crate::webm::WebmMuxer;

verus! {

/// Muxer configuration.
#[derive(Debug, Clone)]
pub struct MuxerConfig {
    /// Frame width in pixels.
    pub width: u32,
    /// Frame height in pixels.
    pub height: u32,
    /// Frame rate in frames per second.
    pub fps: u32,
    /// Video codec.
    pub codec: Codec,
    /// Codec configuration record (the SPS for H.264), if known.
    pub codec_config: Option<Vec<u8>>,
    /// Picture parameter set (the PPS for H.264), if known.
    pub pps: Option<Vec<u8>>,
}

/// The muxer contract: packets are written one at a time, in call
/// order; `finalize` consumes the muxer and yields the complete
/// container bytes, after which no further writes are possible.  Each
/// implementation states what one write appends and what the finished
/// container looks like through `write_ens` and `finalize_ens`.
pub trait Muxer: Sized {
    /// The muxer is in a state that accepts another packet.
    spec fn wf(&self) -> bool;

    /// What a successful or failed write leaves behind.
    spec fn write_ens(pre: Self, post: Self, packet: Packet, r: Result<(), Error>) -> bool;

    /// How the finished container bytes relate to the final state.
    spec fn finalize_ens(pre: Self, r: Result<Vec<u8>, Error>) -> bool;

    /// Append one encoded packet to the container.
    fn write_packet(&mut self, packet: &Packet) -> (r: Result<(), Error>)
        requires
            old(self).wf(),
        ensures
            final(self).wf(),
            Self::write_ens(*old(self), *final(self), *packet, r),
    ;

    /// Close the container and hand back its bytes.
    fn finalize(self) -> (r: Result<Vec<u8>, Error>)
        requires
            self.wf(),
        ensures
            Self::finalize_ens(self, r),
    ;
}

/// A muxer for one of the two container formats.
pub enum MuxerBackend {
    /// Conventional MP4-style container.
    Mp4(Mp4Muxer),
    /// Chunked WebM-style container.
    WebM(WebmMuxer),
}

impl Muxer for MuxerBackend {
    open spec fn wf(&self) -> bool {
        match self {
            MuxerBackend::Mp4(m) => m.wf(),
            MuxerBackend::WebM(m) => m.wf(),
        }
    }

    open spec fn write_ens(pre: Self, post: Self, packet: Packet, r: Result<(), Error>) -> bool {
        match (pre, post) {
            (MuxerBackend::Mp4(m0), MuxerBackend::Mp4(m1)) => Mp4Muxer::write_ens(
                m0,
                m1,
                packet,
                r,
            ),
            (MuxerBackend::WebM(m0), MuxerBackend::WebM(m1)) => WebmMuxer::write_ens(
                m0,
                m1,
                packet,
                r,
            ),
            _ => false,
        }
    }

    open spec fn finalize_ens(pre: Self, r: Result<Vec<u8>, Error>) -> bool {
        match pre {
            MuxerBackend::Mp4(m) => Mp4Muxer::finalize_ens(m, r),
            MuxerBackend::WebM(m) => WebmMuxer::finalize_ens(m, r),
        }
    }

    fn write_packet(&mut self, packet: &Packet) -> (r: Result<(), Error>) {
        match self {
            MuxerBackend::Mp4(m) => m.write_packet(packet),
            MuxerBackend::WebM(m) => m.write_packet(packet),
        }
    }

    fn finalize(self) -> (r: Result<Vec<u8>, Error>) {
        match self {
            MuxerBackend::Mp4(m) => m.finalize(),
            MuxerBackend::WebM(m) => m.finalize(),
        }
    }
}

/// Create a muxer for the requested container format.  The WebM
/// backend accepts exactly the AV1 codec; the MP4 backend accepts
/// exactly H.264 with both parameter sets present.  A successful
/// result carries the configuration marshaled by the selected
/// constructor: the declared dimensions for WebM, the one video track
/// for MP4.
pub fn create_muxer(container: Container, config: MuxerConfig) -> (r: Result<
    MuxerBackend,
    Error,
>)
    requires
        config.fps >= 1,
    ensures
        r is Ok ==> r->Ok_0.wf(),
        r is Ok ==> (r->Ok_0 is Mp4 <==> container is Mp4),
        r is Err ==> r->Err_0 is Mux,
        container is WebM ==> (r is Ok <==> config.codec is Av1),
        container is Mp4 ==> (r is Ok <==> crate::mp4::mp4_config_ok(config)),
        (r is Ok && container is WebM) ==> {
            let m = r->Ok_0->WebM_0;
            &&& m.spec_width() == config.width
            &&& m.spec_height() == config.height
        },
        (r is Ok && container is Mp4) ==> {
            let m = r->Ok_0->Mp4_0;
            &&& m.spec_sample_count() == 0
            &&& m.samples() == Seq::<(u32, bool, Seq<u8>)>::empty()
            &&& m.tracks() == seq![
                (
                    config.width as u16,
                    config.height as u16,
                    config.fps,
                    config.codec_config->0@,
                    config.pps->0@,
                ),
            ]
        },
{
    match container {
        Container::Mp4 => {
            match Mp4Muxer::new(config) {
                Ok(m) => Ok(MuxerBackend::Mp4(m)),
                Err(e) => Err(e),
            }
        },
        Container::WebM => {
            match WebmMuxer::new(config) {
                Ok(m) => Ok(MuxerBackend::WebM(m)),
                Err(e) => Err(e),
            }
        },
    }
}

} // verus!
