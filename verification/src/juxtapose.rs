//! The composition pipeline: two decoded videos become one encoded,
//! muxed side-by-side video byte stream.
//!
//! Each input arrives as a probed description and its raw frames,
//! already resampled to the output frame rate by an external decoder.
//! The canvas is the two widths side by side and the taller height,
//! each axis rounded down to even; a source that runs out of frames
//! holds its last decoded frame for the remaining output frames.

use vstd::prelude::*;
use crate::{Color, EncodeOptions};
use crate::encoder::{EncoderConfig, Frame};
use crate::error::Error;
use crate::image_ops::{bg_at, blit, fill_rgba, px_at, LoadedImage};
use crate::slideshow::{encode_and_mux, DEFAULT_FPS};

verus! {

/// What probing one input video yields: its native geometry, frame
/// rate as an exact rational, and frame count.
#[derive(Debug, Clone)]
pub struct VideoInfo {
    /// Native width in pixels.
    pub width: u32,
    /// Native height in pixels.
    pub height: u32,
    /// Frame rate numerator.
    pub fps_num: u32,
    /// Frame rate denominator.
    pub fps_den: u32,
    /// Number of frames in the source.
    pub frame_count: u64,
}

impl VideoInfo {
    /// A sane probe result: a positive rational frame rate with a
    /// bounded denominator, and a frame count that fits 32 bits.
    pub open spec fn wf(self) -> bool {
        &&& self.fps_num >= 1
        &&& 1 <= self.fps_den <= 100000
        &&& self.frame_count <= 0xFFFFFFFFu64
    }
}

/// The source's frame count resampled to the output rate:
/// `ceil(frame_count * out_fps / fps)`.
pub open spec fn frames_at_output_fps(info: VideoInfo, out_fps: int) -> int {
    (info.frame_count * out_fps * info.fps_den + info.fps_num - 1) / info.fps_num as int
}

/// Compute the resampled frame count of one source.
pub fn duration_frames(info: &VideoInfo, out_fps: u32) -> (r: u64)
    requires
        info.wf(),
        1 <= out_fps <= 1000,
    ensures
        r == frames_at_output_fps(*info, out_fps as int),
{
    proof {
        let ab = (info.frame_count as int) * (out_fps as int);
        assert(0 <= ab <= 0xFFFFFFFF000) by (nonlinear_arith)
            requires
                0 <= info.frame_count <= 0xFFFFFFFFu64,
                0 <= out_fps <= 1000,
                ab == (info.frame_count as int) * (out_fps as int),
        ;
        let abc = ab * (info.fps_den as int);
        assert(0 <= abc <= 0xFFFFFFFF000 * 100000) by (nonlinear_arith)
            requires
                0 <= ab <= 0xFFFFFFFF000,
                1 <= info.fps_den <= 100000,
                abc == ab * (info.fps_den as int),
        ;
        assert((abc + info.fps_num - 1) / (info.fps_num as int) <= abc) by (nonlinear_arith)
            requires
                info.fps_num >= 1,
                abc >= 0,
        ;
    }
    let n = ((info.frame_count as u128) * (out_fps as u128) * (info.fps_den as u128)
        + (info.fps_num as u128) - 1) / (info.fps_num as u128);
    n as u64
}

/// One decoded input: its probe result and its raw frames, resampled
/// to the output rate.
pub struct DecodedVideo {
    /// The probe result.
    pub info: VideoInfo,
    /// The decoded RGBA frames, in order.
    pub frames: Vec<LoadedImage>,
}

impl DecodedVideo {
    /// The probe is sane and every frame matches its geometry.
    pub open spec fn wf(self) -> bool {
        &&& self.info.wf()
        &&& forall|i: int|
            0 <= i < self.frames@.len() ==> {
                let f = #[trigger] self.frames@[i];
                &&& f.wf()
                &&& f.width == self.info.width
                &&& f.height == self.info.height
            }
    }
}

/// The frame a source shows at output index `i`: its own frame while
/// any are left, then its last decoded frame held for the remainder;
/// nothing if it never yielded a frame.
pub open spec fn held_frame(frames: Seq<LoadedImage>, i: int) -> Option<LoadedImage> {
    if frames.len() == 0 {
        None
    } else if i < frames.len() {
        Some(frames[i])
    } else {
        Some(frames.last())
    }
}

/// The width the left source occupies at the canvas origin.
pub open spec fn left_width(left: Option<LoadedImage>) -> int {
    match left {
        Some(l) => l.width as int,
        None => 0,
    }
}

/// Channel `c` of canvas pixel `(x, y)` of a side-by-side merge: the
/// left frame at the origin, the right frame immediately to its
/// right, both top-aligned; everything else is background.
pub open spec fn side_px(
    left: Option<LoadedImage>,
    rgt: Option<LoadedImage>,
    bg: Color,
    x: int,
    y: int,
    c: int,
) -> u8 {
    let lw = left_width(left);
    if left is Some && 0 <= x < lw && y < left->0.height {
        px_at(left->0.data@, lw, x, y, c)
    } else if rgt is Some && lw <= x < lw + rgt->0.width && y < rgt->0.height {
        px_at(rgt->0.data@, rgt->0.width as int, x - lw, y, c)
    } else {
        bg_at(bg, c)
    }
}

/// The whole combined canvas buffer, pixel by pixel.
pub open spec fn combined_data(
    left: Option<LoadedImage>,
    rgt: Option<LoadedImage>,
    w: int,
    h: int,
    bg: Color,
) -> Seq<u8> {
    Seq::new(
        (w * h * 4) as nat,
        |idx: int| side_px(left, rgt, bg, (idx / 4) % w, (idx / 4) / w, idx % 4),
    )
}

/// The view of an optional borrowed frame.
pub open spec fn opt_view(o: Option<&LoadedImage>) -> Option<LoadedImage> {
    match o {
        Some(l) => Some(*l),
        None => None,
    }
}

/// A buffer that matches the merge pixel-for-pixel is the combined
/// canvas.
proof fn lemma_pointwise_combined(
    data: Seq<u8>,
    left: Option<LoadedImage>,
    rgt: Option<LoadedImage>,
    w: int,
    h: int,
    bg: Color,
)
    requires
        w >= 1,
        h >= 0,
        data.len() == w * h * 4,
        forall|x: int, y: int, c: int|
            0 <= x < w && 0 <= y < h && 0 <= c < 4 ==> #[trigger] px_at(data, w, x, y, c)
                == side_px(left, rgt, bg, x, y, c),
    ensures
        data == combined_data(left, rgt, w, h, bg),
{
    let cd = combined_data(left, rgt, w, h, bg);
    assert forall|idx: int| 0 <= idx < data.len() implies data[idx] == cd[idx] by {
        let p = idx / 4;
        let c = idx % 4;
        let x = p % w;
        let y = p / w;
        vstd::arithmetic::div_mod::lemma_fundamental_div_mod(idx, 4);
        vstd::arithmetic::div_mod::lemma_mod_bound(idx, 4);
        vstd::arithmetic::div_mod::lemma_fundamental_div_mod(p, w);
        vstd::arithmetic::div_mod::lemma_mod_bound(p, w);
        assert(0 <= p < w * h) by (nonlinear_arith)
            requires
                0 <= idx < w * h * 4,
                p == idx / 4,
        ;
        assert(0 <= y < h) by (nonlinear_arith)
            requires
                w >= 1,
                0 <= p < w * h,
                y == p / w,
        ;
        assert(idx == (y * w + x) * 4 + c) by (nonlinear_arith)
            requires
                idx == 4 * p + c,
                p == w * y + x,
        ;
        assert(px_at(data, w, x, y, c) == side_px(left, rgt, bg, x, y, c));
    }
    assert(data =~= cd);
}

/// Combine two optional frames side by side on a background canvas.
pub fn combine_frames(
    left: Option<&LoadedImage>,
    right: Option<&LoadedImage>,
    output_width: u32,
    output_height: u32,
    bg: &Color,
) -> (r: Vec<u8>)
    requires
        output_width >= 1,
        output_width * output_height * 4 <= usize::MAX,
        left is Some ==> left->0.wf(),
        right is Some ==> right->0.wf(),
        left_width(opt_view(left)) + (if right is Some {
            right->0.width as int
        } else {
            0int
        }) <= u32::MAX,
    ensures
        r@.len() == output_width * output_height * 4,
        r@ == combined_data(
            opt_view(left),
            opt_view(right),
            output_width as int,
            output_height as int,
            *bg,
        ),
{
    let mut canvas = fill_rgba(output_width, output_height, bg.r, bg.g, bg.b, 255);
    let lw: u32 = match left {
        Some(l) => {
            blit(&mut canvas, output_width, output_height, &l.data, l.width, l.height, 0, 0);
            l.width
        },
        None => 0,
    };
    match right {
        Some(rg) => {
            blit(&mut canvas, output_width, output_height, &rg.data, rg.width, rg.height, lw, 0);
        },
        None => {},
    }
    proof {
        assert forall|x: int, y: int, c: int|
            0 <= x < output_width && 0 <= y < output_height && 0 <= c < 4 implies #[trigger] px_at(
            canvas@,
            output_width as int,
            x,
            y,
            c,
        ) == side_px(opt_view(left), opt_view(right), *bg, x, y, c) by {
            assert(bg_at(*bg, c) == crate::image_ops::quad_at(bg.r, bg.g, bg.b, 255u8, c));
        }
        lemma_pointwise_combined(
            canvas@,
            opt_view(left),
            opt_view(right),
            output_width as int,
            output_height as int,
            *bg,
        );
    }
    canvas
}

/// The output canvas width of two sources: the widths side by side,
/// rounded down to even.
pub open spec fn spec_output_width(l: VideoInfo, rgt: VideoInfo) -> int {
    ((l.width + rgt.width) / 2) * 2
}

/// The output canvas height of two sources: the taller height,
/// rounded down to even.
pub open spec fn spec_output_height(l: VideoInfo, rgt: VideoInfo) -> int {
    ((if l.height >= rgt.height {
        l.height as int
    } else {
        rgt.height as int
    }) / 2) * 2
}

/// The total output length: the longer source's resampled count.
pub open spec fn spec_total_frames(l: VideoInfo, rgt: VideoInfo, out_fps: int) -> int {
    if frames_at_output_fps(l, out_fps) >= frames_at_output_fps(rgt, out_fps) {
        frames_at_output_fps(l, out_fps)
    } else {
        frames_at_output_fps(rgt, out_fps)
    }
}

/// The inputs the composition pipeline rejects after validation: a
/// canvas axis below two pixels, a canvas buffer beyond the machine's
/// address range, or a composition longer than it can index.
pub open spec fn juxtapose_rejects(l: VideoInfo, rgt: VideoInfo) -> bool {
    ||| spec_output_width(l, rgt) < 2
    ||| spec_output_height(l, rgt) < 2
    ||| spec_output_width(l, rgt) * spec_output_height(l, rgt) * 4 > usize::MAX
    ||| spec_total_frames(l, rgt, 30) > usize::MAX
}

/// The output canvas of two sources: the widths side by side and the
/// taller height, each axis rounded down to even.
pub fn output_dims(left: &VideoInfo, right: &VideoInfo) -> (r: (u32, u32))
    requires
        left.width + right.width <= u32::MAX,
    ensures
        r.0 == spec_output_width(*left, *right),
        r.1 == spec_output_height(*left, *right),
        r.0 % 2 == 0,
        r.1 % 2 == 0,
{
    let w = left.width + right.width;
    let h = if left.height >= right.height {
        left.height
    } else {
        right.height
    };
    ((w / 2) * 2, (h / 2) * 2)
}

/// Lay out the composed frame sequence: `total` frames, each the
/// side-by-side merge of what each source shows at that index; once a
/// source is exhausted its last decoded frame is reused rather than
/// the pipeline terminating early.
pub fn compose_frames(
    left: &DecodedVideo,
    right: &DecodedVideo,
    output_width: u32,
    output_height: u32,
    total: u64,
    bg: Color,
) -> (frames: Vec<Frame>)
    requires
        left.wf(),
        right.wf(),
        output_width >= 2,
        output_height >= 2,
        output_width % 2 == 0,
        output_height % 2 == 0,
        output_width * output_height * 4 <= usize::MAX,
        left.info.width + right.info.width <= u32::MAX,
        total <= usize::MAX,
    ensures
        frames@.len() == total,
        forall|i: int|
            0 <= i < frames@.len() ==> {
                let f = #[trigger] frames@[i];
                &&& f.wf()
                &&& f.width == output_width
                &&& f.height == output_height
                &&& i * (1000int / DEFAULT_FPS as int) <= u64::MAX ==> f.pts_ms == i * (
                1000int / DEFAULT_FPS as int)
            },
        forall|i: int|
            0 <= i < frames@.len() ==> (#[trigger] frames@[i]).data@ == combined_data(
                held_frame(left.frames@, i),
                held_frame(right.frames@, i),
                output_width as int,
                output_height as int,
                bg,
            ),
{
    let frame_ms: u64 = (1000 / DEFAULT_FPS) as u64;
    let mut frames: Vec<Frame> = Vec::new();
    let total_us: usize = total as usize;
    let llen = left.frames.len();
    let rlen = right.frames.len();
    let mut i: usize = 0;
    let mut pts_ms: u64 = 0;
    proof {
        assert(frames@.len() * (frame_ms as int) == 0) by (nonlinear_arith)
            requires
                frames@.len() == 0,
        ;
    }
    while i < total_us
        invariant
            left.wf(),
            right.wf(),
            output_width >= 2,
            output_height >= 2,
            output_width % 2 == 0,
            output_height % 2 == 0,
            output_width * output_height * 4 <= usize::MAX,
            left.info.width + right.info.width <= u32::MAX,
            llen == left.frames@.len(),
            rlen == right.frames@.len(),
            i <= total_us,
            frames@.len() == i,
            frame_ms == 1000int / DEFAULT_FPS as int,
            frames@.len() * frame_ms <= u64::MAX ==> pts_ms == frames@.len() * frame_ms,
            forall|k: int|
                0 <= k < frames@.len() ==> {
                    let f = #[trigger] frames@[k];
                    &&& f.wf()
                    &&& f.width == output_width
                    &&& f.height == output_height
                    &&& k * (frame_ms as int) <= u64::MAX ==> f.pts_ms == k * (frame_ms as int)
                },
            forall|k: int|
                0 <= k < frames@.len() ==> (#[trigger] frames@[k]).data@ == combined_data(
                    held_frame(left.frames@, k),
                    held_frame(right.frames@, k),
                    output_width as int,
                    output_height as int,
                    bg,
                ),
        decreases total_us - i,
    {
        let lf: Option<&LoadedImage> = if llen == 0 {
            None
        } else if i < llen {
            Some(&left.frames[i])
        } else {
            Some(&left.frames[llen - 1])
        };
        let rf: Option<&LoadedImage> = if rlen == 0 {
            None
        } else if i < rlen {
            Some(&right.frames[i])
        } else {
            Some(&right.frames[rlen - 1])
        };
        proof {
            assert(opt_view(lf) == held_frame(left.frames@, i as int));
            assert(opt_view(rf) == held_frame(right.frames@, i as int));
            if lf is Some {
                assert(left_width(opt_view(lf)) == lf->0.width as int);
                assert(lf->0.width == left.info.width);
            }
        }
        let data = combine_frames(lf, rf, output_width, output_height, &bg);
        proof {
            lemma_tick_linear(frames@.len() as int, frame_ms as int);
        }
        frames.push(Frame { width: output_width, height: output_height, data, pts_ms });
        if pts_ms <= u64::MAX - frame_ms {
            pts_ms = pts_ms + frame_ms;
        } else {
            proof {
                assert(frames@.len() * (frame_ms as int) > u64::MAX) by (nonlinear_arith)
                    requires
                        pts_ms > u64::MAX - frame_ms,
                        (frames@.len() - 1) * (frame_ms as int) <= u64::MAX ==> pts_ms == (
                        frames@.len() - 1) * (frame_ms as int),
                        frames@.len() >= 1,
                        frame_ms >= 0,
                        pts_ms <= u64::MAX,
                ;
            }
        }
        i = i + 1;
    }
    frames
}

/// Stepping the frame clock: the next tick relates linearly to the
/// last one.
proof fn lemma_tick_linear(len: int, f: int)
    by (nonlinear_arith)
    requires
        len >= 0,
        f >= 0,
    ensures
        (len + 1) * f == len * f + f,
        len * f <= (len + 1) * f,
{
}

/// Run the composition pipeline with the library's own encoder.
/// Validates the (container, codec) pair before any other work; the
/// total output length is the longer source's resampled frame count.
pub fn juxtapose(
    left: &DecodedVideo,
    right: &DecodedVideo,
    options: &EncodeOptions,
    background: Option<Color>,
) -> (r: Result<Vec<u8>, Error>)
    requires
        left.wf(),
        right.wf(),
        left.info.width + right.info.width <= u32::MAX,
    ensures
        (r is Err && r->Err_0 is ContainerCodecMismatch) <==> !options.container.spec_supports_codec(
            options.codec,
        ),
        (r is Err && r->Err_0 is InvalidInput) <==> (options.container.spec_supports_codec(
            options.codec,
        ) && juxtapose_rejects(left.info, right.info)),
        (r is Ok && options.container is WebM) ==> {
            let header = crate::webm::webm_file_header(
                spec_output_width(left.info, right.info) as u32,
                spec_output_height(left.info, right.info) as u32,
            );
            &&& r->Ok_0@.len() >= header.len()
            &&& r->Ok_0@.take(header.len() as int) == header
            &&& r->Ok_0@.take(4) == crate::webm::webm_magic()
        },
        (r is Ok && options.container is Mp4) ==> r->Ok_0@.len() >= 8 && r->Ok_0@.subrange(4, 8)
            == crate::mp4::ftyp_tag(),
        (options.container.spec_supports_codec(options.codec) && !juxtapose_rejects(
            left.info,
            right.info,
        ) && options.codec is H264) ==> (r is Err && r->Err_0 is CodecUnavailable),
{
    match options.validate() {
        Ok(()) => {},
        Err(e) => {
            return Err(e);
        },
    }
    let bg = match background {
        Some(c) => c,
        None => Color { r: 255, g: 255, b: 255 },
    };
    let (output_width, output_height) = output_dims(&left.info, &right.info);
    if output_width < 2 || output_height < 2 {
        return Err(Error::InvalidInput("output canvas too small to encode".to_owned()));
    }
    proof {
        assert((output_width as int) * (output_height as int) * 4
            < 0x100000000000000000000000000000000) by (nonlinear_arith)
            requires
                output_width <= 0xFFFFFFFFu32,
                output_height <= 0xFFFFFFFFu32,
        ;
    }
    if (output_width as u128) * (output_height as u128) * 4 > usize::MAX as u128 {
        return Err(Error::InvalidInput("output canvas too large".to_owned()));
    }
    let dl = duration_frames(&left.info, DEFAULT_FPS);
    let dr = duration_frames(&right.info, DEFAULT_FPS);
    let total: u64 = if dl >= dr {
        dl
    } else {
        dr
    };
    if total > usize::MAX as u64 {
        return Err(Error::InvalidInput("composition too long".to_owned()));
    }
    let frames = compose_frames(left, right, output_width, output_height, total, bg);
    let encoder_config = EncoderConfig {
        width: output_width,
        height: output_height,
        fps: DEFAULT_FPS,
        quality: options.quality,
    };
    let mut enc = match crate::av1::create_encoder(options.codec, encoder_config) {
        Ok(e) => e,
        Err(e) => {
            return Err(e);
        },
    };
    encode_and_mux(&frames, output_width, output_height, options, &mut enc)
}

} // verus!
