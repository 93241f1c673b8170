//! The AV1 encoder backend, over an external software encoder.
//!
//! The backend owns an encoding context; frames go in as planar
//! luma/chroma buffers produced by the verified pixel converter, and
//! whatever packets are currently drainable come out.  Quality 0-100
//! maps monotonically onto the encoder's quantizer range: 100 to the
//! highest-fidelity setting (quantizer 0), 0 to the lowest-bitrate
//! setting (quantizer 255).

use vstd::prelude::*;
use crate::Codec;
use crate::encoder::{Encoder, EncoderConfig, Frame, Packet};
use crate::error::Error;
use crate::pixel::rgba_to_yuv420;

verus! {

/// An owned external encoding context.  The context type itself
/// cannot be declared to the verifier (its type parameter is bound by
/// an external trait), so it is held opaquely here.
#[verifier::external_body]
pub struct Av1Context {
    inner: rav1e::Context<u8>,
}

/// The pixel dimensions an encoding context was created with.
pub uninterp spec fn av1_ctx_dims(ctx: Av1Context) -> (int, int);

/// The dimension range the backend's configuration validation
/// accepts for motion video.
pub open spec fn av1_dims_ok(width: u32, height: u32) -> bool {
    &&& 16 <= width <= 0xFFFF
    &&& 16 <= height <= 0xFFFF
}

/// Relies on rav1e::Config::new_context: construction validates the
/// configuration and, for this wrapper's fixed fields and a positive
/// frame rate, succeeds exactly when both dimensions lie in the
/// accepted range; the context then carries those dimensions.
#[verifier::external_body]
fn av1_new_context(width: u32, height: u32, fps: u32, quantizer: usize, min_quantizer: u8) -> (r:
    Result<Av1Context, String>)
    requires
        width >= 2,
        height >= 2,
        fps >= 1,
    ensures
        r is Ok <==> av1_dims_ok(width, height),
        r is Ok ==> av1_ctx_dims(r->Ok_0) == (width as int, height as int),
{
    let mut enc = rav1e::EncoderConfig::default();
    enc.width = width as usize;
    enc.height = height as usize;
    enc.time_base = rav1e::data::Rational::new(1, fps as u64);
    enc.min_key_frame_interval = 0;
    enc.quantizer = quantizer;
    enc.min_quantizer = min_quantizer;
    let cfg = rav1e::Config::new().with_encoder_config(enc).with_threads(0);
    match cfg.new_context::<u8>() {
        Ok(inner) => Ok(Av1Context { inner }),
        Err(e) => Err(e.to_string()),
    }
}

/// Relies on rav1e::Context::send_frame and the frame plane copy: the
/// three planes are filled row by row from the given buffers, then the
/// frame is queued for encoding.
#[verifier::external_body]
fn av1_send_frame(
    ctx: &mut Av1Context,
    y: &Vec<u8>,
    u: &Vec<u8>,
    v: &Vec<u8>,
) -> (r: Result<(), String>)
    requires
        ({
            let (w, h) = av1_ctx_dims(*old(ctx));
            &&& w >= 2 && h >= 2
            &&& y@.len() == w * h
            &&& u@.len() == (w / 2) * (h / 2)
            &&& v@.len() == (w / 2) * (h / 2)
        }),
    ensures
        av1_ctx_dims(*final(ctx)) == av1_ctx_dims(*old(ctx)),
{
    let mut frame = ctx.inner.new_frame();
    let w0 = frame.planes[0].cfg.width;
    let w1 = frame.planes[1].cfg.width;
    let w2 = frame.planes[2].cfg.width;
    frame.planes[0].copy_from_raw_u8(y.as_slice(), w0, 1);
    frame.planes[1].copy_from_raw_u8(u.as_slice(), w1, 1);
    frame.planes[2].copy_from_raw_u8(v.as_slice(), w2, 1);
    ctx.inner.send_frame(frame).map_err(|e| e.to_string())
}

/// One drain call's outcome, one variant per encoder status.
pub enum RecvResult {
    /// An encoded packet: payload, input frame number, keyframe flag.
    Pkt { data: Vec<u8>, frameno: u64, keyframe: bool },
    /// A frame was encoded but not emitted yet; keep draining.
    Encoded,
    /// The encoder needs more input; the drain loop ends.
    NeedMoreData,
    /// The requested frames are done; the drain loop ends.
    LimitReached,
    /// A fatal encoder error.
    Failure(String),
}

/// Relies on rav1e::Context::receive_packet: one arm per encoder
/// status, moving the packet fields only.
#[verifier::external_body]
fn av1_receive(ctx: &mut Av1Context) -> (r: RecvResult)
    ensures
        av1_ctx_dims(*final(ctx)) == av1_ctx_dims(*old(ctx)),
{
    match ctx.inner.receive_packet() {
        Ok(p) => RecvResult::Pkt {
            data: p.data,
            frameno: p.input_frameno,
            keyframe: p.frame_type == rav1e::data::FrameType::KEY,
        },
        Err(rav1e::EncoderStatus::Encoded) => RecvResult::Encoded,
        Err(rav1e::EncoderStatus::NeedMoreData) => RecvResult::NeedMoreData,
        Err(rav1e::EncoderStatus::LimitReached) => RecvResult::LimitReached,
        Err(e) => RecvResult::Failure(e.to_string()),
    }
}

/// Relies on rav1e::Context::flush: signals the end of the video, so
/// the remaining packets can be drained.
#[verifier::external_body]
fn av1_flush_ctx(ctx: &mut Av1Context)
    ensures
        av1_ctx_dims(*final(ctx)) == av1_ctx_dims(*old(ctx)),
{
    ctx.inner.flush();
}

/// The quantizer that a 0-100 quality maps to: 100 gives 0 (highest
/// fidelity), 0 gives 255 (lowest bitrate), monotonically.
pub open spec fn spec_quality_to_quantizer(quality: u8) -> int {
    (100 - (if quality > 100 {
        100int
    } else {
        quality as int
    })) * 255 / 100
}

/// Map quality to the backend quantizer range.
pub fn quality_to_quantizer(quality: u8) -> (q: usize)
    ensures
        q == spec_quality_to_quantizer(quality),
        q <= 255,
        quality == 100 ==> q == 0,
        quality == 0 ==> q == 255,
{
    let clamped: usize = if quality > 100 {
        100
    } else {
        quality as usize
    };
    ((100 - clamped) * 255) / 100
}

/// Higher quality never gets a higher (coarser) quantizer: the
/// quality knob maps monotonically onto the backend's rate parameter.
pub proof fn lemma_quality_monotone(q1: u8, q2: u8)
    by (nonlinear_arith)
    requires
        q1 <= q2,
    ensures
        spec_quality_to_quantizer(q1) >= spec_quality_to_quantizer(q2),
{
}

/// The constant-rate factor that a 0-100 quality maps to for the
/// external H.264 encoder: 100 gives 0 (highest fidelity), 0 gives 51
/// (lowest bitrate), monotonically.
pub open spec fn spec_quality_to_crf(quality: u8) -> int {
    (100 - (if quality > 100 {
        100int
    } else {
        quality as int
    })) * 51 / 100
}

/// Map quality to the external encoder's constant-rate-factor range.
pub fn quality_to_crf(quality: u8) -> (crf: u32)
    ensures
        crf == spec_quality_to_crf(quality),
        crf <= 51,
        quality == 100 ==> crf == 0,
        quality == 0 ==> crf == 51,
{
    let clamped: u32 = if quality > 100 {
        100
    } else {
        quality as u32
    };
    ((100 - clamped) * 51) / 100
}

/// The AV1 encoder backend.
pub struct Av1Encoder {
    /// The external encoding context.
    ctx: Av1Context,
    /// The configuration the context was created with.
    config: EncoderConfig,
    /// How many frames have been sent.
    frame_count: u64,
}

impl Av1Encoder {
    /// Create an AV1 encoder.  Dimensions must be even and at least
    /// two pixels each, as the planar pixel format requires; creation
    /// succeeds exactly when they also lie in the backend's accepted
    /// range.
    pub fn new(config: EncoderConfig) -> (r: Result<Av1Encoder, Error>)
        requires
            config.width >= 2,
            config.height >= 2,
            config.width % 2 == 0,
            config.height % 2 == 0,
            config.fps >= 1,
        ensures
            r is Ok <==> av1_dims_ok(config.width, config.height),
            r is Ok ==> {
                let e = r->Ok_0;
                &&& e.wf()
                &&& e.cfg_width() == config.width
                &&& e.cfg_height() == config.height
            },
            r is Err ==> r->Err_0 is Encode,
    {
        let quantizer = quality_to_quantizer(config.quality);
        let min_quantizer: u8 = if quantizer >= 10 {
            (quantizer - 10) as u8
        } else {
            0
        };
        match av1_new_context(config.width, config.height, config.fps, quantizer, min_quantizer) {
            Ok(ctx) => Ok(Av1Encoder { ctx, config, frame_count: 0 }),
            Err(e) => Err(Error::Encode(e)),
        }
    }

    /// Drain whatever packets the backend has ready.  Statuses that
    /// only signal flow control end the loop; a failure status is an
    /// error.
    fn receive_packets(&mut self) -> (r: Result<Vec<Packet>, Error>)
        requires
            old(self).wf(),
        ensures
            final(self).wf(),
            final(self).cfg_width() == old(self).cfg_width(),
            final(self).cfg_height() == old(self).cfg_height(),
            r is Err ==> r->Err_0 is Encode,
    {
        let mut packets: Vec<Packet> = Vec::new();
        // The counter only bounds the drain loop so that it provably
        // terminates; it is never reached in practice.
        let mut fuel: u64 = u64::MAX;
        loop
            invariant
                self.wf(),
                self.cfg_width() == old(self).cfg_width(),
                self.cfg_height() == old(self).cfg_height(),
            ensures
                self.wf(),
                self.cfg_width() == old(self).cfg_width(),
                self.cfg_height() == old(self).cfg_height(),
            decreases fuel,
        {
            if fuel == 0 {
                return Err(Error::Encode("encoder did not finish draining".to_owned()));
            }
            fuel = fuel - 1;
            match av1_receive(&mut self.ctx) {
                RecvResult::Pkt { data, frameno, keyframe } => {
                    let pts = #[verifier::truncate] (frameno as i64);
                    packets.push(Packet { data, pts, dts: pts, is_keyframe: keyframe });
                },
                RecvResult::Encoded => {},
                RecvResult::NeedMoreData => {
                    break;
                },
                RecvResult::LimitReached => {
                    break;
                },
                RecvResult::Failure(e) => {
                    return Err(Error::Encode(e));
                },
            }
        }
        Ok(packets)
    }
}

impl Encoder for Av1Encoder {
    /// The context matches the stored configuration, whose dimensions
    /// are even and large enough for planar conversion.
    closed spec fn wf(&self) -> bool {
        &&& av1_ctx_dims(self.ctx) == (self.config.width as int, self.config.height as int)
        &&& self.config.width >= 2
        &&& self.config.height >= 2
        &&& self.config.width % 2 == 0
        &&& self.config.height % 2 == 0
    }

    closed spec fn cfg_width(&self) -> u32 {
        self.config.width
    }

    closed spec fn cfg_height(&self) -> u32 {
        self.config.height
    }

    fn encode(&mut self, frame: &Frame) -> (r: Result<Vec<Packet>, Error>) {
        let (y, u, v) = rgba_to_yuv420(frame);
        match av1_send_frame(&mut self.ctx, &y, &u, &v) {
            Ok(()) => {},
            Err(e) => {
                return Err(Error::Encode(e));
            },
        }
        if self.frame_count < u64::MAX {
            self.frame_count = self.frame_count + 1;
        }
        self.receive_packets()
    }

    fn flush(&mut self) -> (r: Result<Vec<Packet>, Error>) {
        av1_flush_ctx(&mut self.ctx);
        self.receive_packets()
    }

    fn codec_config(&self) -> (r: Option<Vec<u8>>)
        ensures
            r is None,
    {
        None
    }

    fn pps(&self) -> (r: Option<Vec<u8>>)
        ensures
            r is None,
    {
        None
    }
}

/// Create an encoder for the requested codec.  The library ships the
/// AV1 backend; H.264 backends are platform collaborators supplied by
/// the embedding application through the `Encoder` contract.
pub fn create_encoder(codec: Codec, config: EncoderConfig) -> (r: Result<Av1Encoder, Error>)
    requires
        config.width >= 2,
        config.height >= 2,
        config.width % 2 == 0,
        config.height % 2 == 0,
        config.fps >= 1,
    ensures
        codec is H264 ==> r is Err && r->Err_0 is CodecUnavailable,
        r is Err ==> (r->Err_0 is CodecUnavailable || r->Err_0 is Encode),
        r is Ok <==> (codec is Av1 && av1_dims_ok(config.width, config.height)),
        r is Ok ==> {
            let e = r->Ok_0;
            &&& e.wf()
            &&& e.cfg_width() == config.width
            &&& e.cfg_height() == config.height
        },
{
    match codec {
        Codec::Av1 => Av1Encoder::new(config),
        Codec::H264 => Err(
            Error::CodecUnavailable(
                "H.264 encoding is provided by the embedding application".to_owned(),
            ),
        ),
    }
}

} // verus!
