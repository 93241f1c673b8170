//! The slide-sequence pipeline: a list of (image, duration) pairs
//! becomes an encoded, muxed video byte stream.
//!
//! All frames are encoded before any muxer is constructed, because an
//! H.264 muxer needs parameter sets that some backends only yield
//! after the first encode; the muxer is then opened with the
//! now-known parameter sets and given every buffered packet in order.

use vstd::prelude::*;
use crate::EncodeOptions;
use crate::encoder::{Encoder, EncoderConfig, Frame, Packet};
use crate::error::Error;
use crate::image_ops::LoadedImage;
use crate::muxer::{create_muxer, Muxer, MuxerConfig};

verus! {

/// The frame rate both pipelines encode at.
pub const DEFAULT_FPS: u32 = 30;

/// One loaded slide: its image and its display duration.
pub struct Slide {
    /// The image, already decoded to RGBA.
    pub image: LoadedImage,
    /// Duration to display this image, in milliseconds.
    pub duration_ms: u32,
}

/// How many output frames one slide takes: its duration rounded to
/// the nearest frame, but at least one, so every slide is visible.
pub open spec fn slide_frame_count(duration_ms: int, fps: int) -> int {
    let n = (duration_ms * fps + 500) / 1000;
    if n < 1 {
        1
    } else {
        n
    }
}

/// Total output frames of a slide list: the sum of each slide's count.
pub open spec fn total_frame_count(slides: Seq<Slide>, fps: int) -> int
    decreases slides.len(),
{
    if slides.len() == 0 {
        0
    } else {
        total_frame_count(slides.drop_last(), fps) + slide_frame_count(
            slides.last().duration_ms as int,
            fps,
        )
    }
}

/// Every prefix of the plan is at most the whole, and each slide's
/// frames fit after its predecessors'.
proof fn lemma_total_monotone(slides: Seq<Slide>, fps: int, j: int)
    requires
        0 <= j < slides.len(),
        fps >= 1,
    ensures
        total_frame_count(slides.take(j), fps) + slide_frame_count(
            slides[j].duration_ms as int,
            fps,
        ) <= total_frame_count(slides, fps),
        total_frame_count(slides.take(j), fps) >= 0,
    decreases slides.len(),
{
    lemma_total_nonneg(slides.take(j), fps);
    if j == slides.len() - 1 {
        assert(slides.take(j) =~= slides.drop_last());
    } else {
        lemma_total_monotone(slides.drop_last(), fps, j);
        assert(slides.drop_last().take(j) =~= slides.take(j));
        assert(slide_frame_count(slides.last().duration_ms as int, fps) >= 1);
    }
}

/// No slide takes a negative number of frames.
proof fn lemma_total_nonneg(slides: Seq<Slide>, fps: int)
    ensures
        total_frame_count(slides, fps) >= 0,
    decreases slides.len(),
{
    if slides.len() > 0 {
        lemma_total_nonneg(slides.drop_last(), fps);
    }
}

/// Frame `k` of slide `j` sits right after the frames of the slides
/// before it and shows that slide's pixels.
pub open spec fn slide_frame_ok(
    frames: Seq<Frame>,
    slides: Seq<Slide>,
    fps: int,
    j: int,
    k: int,
) -> bool {
    frames[total_frame_count(slides.take(j), fps) + k].data@ == slides[j].image.data@
}

/// Copy a byte buffer.
fn clone_bytes(v: &Vec<u8>) -> (r: Vec<u8>)
    ensures
        r@ == v@,
{
    let n = v.len();
    let mut r: Vec<u8> = Vec::new();
    let mut i: usize = 0;
    while i < n
        invariant
            n == v@.len(),
            i <= n,
            r@ == v@.subrange(0, i as int),
        decreases n - i,
    {
        r.push(v[i]);
        proof {
            assert(r@ =~= v@.subrange(0, i + 1));
        }
        i = i + 1;
    }
    proof {
        assert(v@.subrange(0, n as int) =~= v@);
    }
    r
}

/// Lay out the frame sequence of a slide list: for each slide, in
/// order, `max(1, round(duration * fps / 1000))` frames carrying that
/// slide's pixels.  Every slide is visible at least one frame even if
/// its requested duration rounds to zero.
pub fn plan_slide_frames(slides: &Vec<Slide>, width: u32, height: u32, fps: u32) -> (frames: Vec<
    Frame,
>)
    requires
        1 <= fps <= 1000,
        width % 2 == 0,
        height % 2 == 0,
        forall|i: int|
            0 <= i < slides@.len() ==> {
                let img = (#[trigger] slides@[i]).image;
                &&& img.wf()
                &&& img.width == width
                &&& img.height == height
            },
    ensures
        frames@.len() == total_frame_count(slides@, fps as int),
        forall|i: int|
            0 <= i < frames@.len() ==> {
                let f = #[trigger] frames@[i];
                &&& f.wf()
                &&& f.width == width
                &&& f.height == height
                &&& i * (1000int / fps as int) <= u64::MAX ==> f.pts_ms == i * (1000int / fps as int)
            },
        forall|j: int, k: int|
            0 <= j < slides@.len() && 0 <= k < slide_frame_count(
                slides@[j].duration_ms as int,
                fps as int,
            ) ==> #[trigger] slide_frame_ok(frames@, slides@, fps as int, j, k),
{
    let frame_ms: u64 = (1000 / fps) as u64;
    let mut frames: Vec<Frame> = Vec::new();
    let mut total_ms: u64 = 0;
    let count = slides.len();
    proof {
        assert(frames@.len() * (frame_ms as int) == 0) by (nonlinear_arith)
            requires
                frames@.len() == 0,
        ;
    }
    let mut j: usize = 0;
    while j < count
        invariant
            count == slides@.len(),
            1 <= fps <= 1000,
            width % 2 == 0,
            height % 2 == 0,
            forall|i: int|
                0 <= i < slides@.len() ==> {
                    let img = (#[trigger] slides@[i]).image;
                    &&& img.wf()
                    &&& img.width == width
                    &&& img.height == height
                },
            j <= count,
            frame_ms == 1000int / fps as int,
            frames@.len() * frame_ms <= u64::MAX ==> total_ms == frames@.len() * frame_ms,
            frames@.len() == total_frame_count(slides@.take(j as int), fps as int),
            forall|i: int|
                0 <= i < frames@.len() ==> {
                    let f = #[trigger] frames@[i];
                    &&& f.wf()
                    &&& f.width == width
                    &&& f.height == height
                    &&& i * (frame_ms as int) <= u64::MAX ==> f.pts_ms == i * (frame_ms as int)
                },
            forall|j2: int, k: int|
                0 <= j2 < j && 0 <= k < slide_frame_count(
                    slides@[j2].duration_ms as int,
                    fps as int,
                ) ==> #[trigger] slide_frame_ok(frames@, slides@, fps as int, j2, k),
        decreases count - j,
    {
        let duration_ms = slides[j].duration_ms;
        proof {
            assert((duration_ms as int) * (fps as int) + 500 <= 0xFFFFFFFFFFFFFFFF)
                by (nonlinear_arith)
                requires
                    duration_ms <= 0xFFFFFFFFu32,
                    1 <= fps <= 1000,
            ;
        }
        let n_raw: u64 = ((duration_ms as u64) * (fps as u64) + 500) / 1000;
        let n: u64 = if n_raw < 1 {
            1
        } else {
            n_raw
        };
        assert(n == slide_frame_count(duration_ms as int, fps as int));
        let ghost base = frames@;
        let ghost pre_len = frames@.len() as int;
        let mut k: u64 = 0;
        while k < n
            invariant
                count == slides@.len(),
                0 <= j < count,
                duration_ms == slides@[j as int].duration_ms,
                n == slide_frame_count(duration_ms as int, fps as int),
                slides@[j as int].image.wf(),
                slides@[j as int].image.width == width,
                slides@[j as int].image.height == height,
                width % 2 == 0,
                height % 2 == 0,
                k <= n,
                frame_ms == 1000int / fps as int,
                frames@.len() * frame_ms <= u64::MAX ==> total_ms == frames@.len() * frame_ms,
                pre_len == base.len(),
                frames@.len() == pre_len + k,
                frames@.take(pre_len) == base,
                forall|k2: int|
                    pre_len <= k2 < frames@.len() ==> {
                        let f = #[trigger] frames@[k2];
                        &&& f.data@ == slides@[j as int].image.data@
                        &&& f.wf()
                        &&& f.width == width
                        &&& f.height == height
                    },
                forall|k2: int|
                    0 <= k2 < frames@.len() && k2 * (frame_ms as int) <= u64::MAX
                        ==> (#[trigger] frames@[k2]).pts_ms == k2 * (frame_ms as int),
            decreases n - k,
        {
            let frame = Frame {
                width,
                height,
                data: clone_bytes(&slides[j].image.data),
                pts_ms: total_ms,
            };
            proof {
                lemma_tick_step(frames@.len() as int, frame_ms as int);
            }
            frames.push(frame);
            proof {
                assert(frames@.take(pre_len) =~= base);
            }
            if total_ms <= u64::MAX - frame_ms {
                total_ms = total_ms + frame_ms;
            } else {
                proof {
                    assert(frames@.len() * (frame_ms as int) > u64::MAX) by (nonlinear_arith)
                        requires
                            total_ms > u64::MAX - frame_ms,
                            (frames@.len() - 1) * (frame_ms as int) <= u64::MAX ==> total_ms
                                == (frames@.len() - 1) * (frame_ms as int),
                            frames@.len() >= 1,
                            frame_ms >= 0,
                            total_ms <= u64::MAX,
                    ;
                }
            }
            k = k + 1;
        }
        proof {
            assert(slides@.take(j + 1).drop_last() =~= slides@.take(j as int));
            assert(slides@.take(j + 1).last() == slides@[j as int]);
            assert(frames@.len() == total_frame_count(slides@.take(j + 1), fps as int));
            lemma_total_nonneg(slides@.take(j as int), fps as int);
            assert forall|j2: int, k2: int|
                0 <= j2 < j + 1 && 0 <= k2 < slide_frame_count(
                    slides@[j2].duration_ms as int,
                    fps as int,
                ) implies #[trigger] slide_frame_ok(frames@, slides@, fps as int, j2, k2) by {
                lemma_total_nonneg(slides@.take(j2), fps as int);
                let pos = total_frame_count(slides@.take(j2), fps as int) + k2;
                if j2 < j {
                    lemma_total_monotone(slides@.take(j as int), fps as int, j2);
                    assert(slides@.take(j as int).take(j2) =~= slides@.take(j2));
                    assert(slides@.take(j as int)[j2] == slides@[j2]);
                    assert(slide_frame_ok(base, slides@, fps as int, j2, k2));
                    assert(0 <= pos < pre_len);
                    assert(frames@[pos] == base[pos]) by {
                        assert(frames@.take(pre_len) == base);
                        assert(frames@.take(pre_len)[pos] == frames@[pos]);
                    }
                } else {
                    assert(pos == pre_len + k2);
                    assert(frames@[pos].data@ == slides@[j as int].image.data@);
                }
            }
            assert forall|i: int| 0 <= i < frames@.len() implies {
                let f = #[trigger] frames@[i];
                &&& f.wf()
                &&& f.width == width
                &&& f.height == height
            } by {
                if i < pre_len {
                    assert(frames@[i] == base[i]) by {
                        assert(frames@.take(pre_len) == base);
                        assert(frames@.take(pre_len)[i] == frames@[i]);
                    }
                }
            }
        }
        j = j + 1;
    }
    proof {
        assert(slides@.take(count as int) =~= slides@);
    }
    frames
}

/// Stepping the frame clock: the next tick relates linearly to the
/// last, and a tick that fits leaves every earlier tick fitting.
proof fn lemma_tick_step(len: int, f: int)
    by (nonlinear_arith)
    requires
        len >= 0,
        f >= 0,
    ensures
        (len + 1) * f == len * f + f,
        len * f <= (len + 1) * f,
{
}

/// Append the packets of `src` to `dst`.
fn append_packets(dst: &mut Vec<Packet>, src: Vec<Packet>)
    ensures
        final(dst)@.len() == old(dst)@.len() + src@.len(),
{
    let mut src = src;
    let n = src.len();
    let mut i: usize = 0;
    while i < n
        invariant
            n == src@.len() + i,
            dst@.len() == old(dst)@.len() + i,
        decreases n - i,
    {
        let p = src.remove(0);
        dst.push(p);
        i = i + 1;
    }
}

/// Encode a planned frame sequence and mux the packets: every frame
/// is encoded and the encoder flushed before the muxer is opened with
/// the encoder's now-known parameter sets; the buffered packets are
/// then written in original order and the container finalized.
pub fn encode_and_mux<E: Encoder>(
    frames: &Vec<Frame>,
    width: u32,
    height: u32,
    options: &EncodeOptions,
    enc: &mut E,
) -> (r: Result<Vec<u8>, Error>)
    requires
        old(enc).wf(),
        width == old(enc).cfg_width(),
        height == old(enc).cfg_height(),
        options.container.spec_supports_codec(options.codec),
        forall|k: int|
            0 <= k < frames@.len() ==> {
                let f = #[trigger] frames@[k];
                &&& f.wf()
                &&& f.width == old(enc).cfg_width()
                &&& f.height == old(enc).cfg_height()
            },
    ensures
        r is Err ==> !(r->Err_0 is ContainerCodecMismatch) && !(r->Err_0 is InvalidInput),
        (r is Ok && options.container is WebM) ==> r->Ok_0@.len() >= 4 && r->Ok_0@.take(4)
            == crate::webm::webm_magic(),
        (r is Ok && options.container is WebM) ==> {
            let header = crate::webm::webm_file_header(width, height);
            &&& r->Ok_0@.len() >= header.len()
            &&& r->Ok_0@.take(header.len() as int) == header
        },
        (r is Ok && options.container is Mp4) ==> r->Ok_0@.len() >= 8 && r->Ok_0@.subrange(4, 8)
            == crate::mp4::ftyp_tag(),
{
    let mut all_packets: Vec<Packet> = Vec::new();
    let total = frames.len();
    let mut i: usize = 0;
    while i < total
        invariant
            enc.wf(),
            enc.cfg_width() == old(enc).cfg_width(),
            enc.cfg_height() == old(enc).cfg_height(),
            total == frames@.len(),
            i <= total,
            forall|k: int|
                0 <= k < frames@.len() ==> {
                    let f = #[trigger] frames@[k];
                    &&& f.wf()
                    &&& f.width == old(enc).cfg_width()
                    &&& f.height == old(enc).cfg_height()
                },
        decreases total - i,
    {
        let r = enc.encode(&frames[i]);
        match r {
            Ok(packets) => {
                append_packets(&mut all_packets, packets);
            },
            Err(e) => {
                return Err(e);
            },
        }
        i = i + 1;
    }
    match enc.flush() {
        Ok(packets) => {
            append_packets(&mut all_packets, packets);
        },
        Err(e) => {
            return Err(e);
        },
    }
    let muxer_config = MuxerConfig {
        width,
        height,
        fps: DEFAULT_FPS,
        codec: options.codec,
        codec_config: enc.codec_config(),
        pps: enc.pps(),
    };
    let mut muxer = match create_muxer(options.container, muxer_config) {
        Ok(m) => m,
        Err(e) => {
            return Err(e);
        },
    };
    let n = all_packets.len();
    let mut k: usize = 0;
    while k < n
        invariant
            muxer.wf(),
            muxer is Mp4 <==> options.container is Mp4,
            muxer is WebM ==> muxer->WebM_0.spec_width() == width
                && muxer->WebM_0.spec_height() == height,
            n == all_packets@.len(),
            k <= n,
        decreases n - k,
    {
        let wr = muxer.write_packet(&all_packets[k]);
        match wr {
            Ok(()) => {},
            Err(e) => {
                return Err(e);
            },
        }
        k = k + 1;
    }
    let ghost pre = muxer;
    match muxer.finalize() {
        Ok(bytes) => {
            proof {
                match pre {
                    crate::muxer::MuxerBackend::WebM(m) => {
                        crate::webm::lemma_chunked_output_magic(m, Ok(bytes));
                    },
                    crate::muxer::MuxerBackend::Mp4(m) => {
                        crate::mp4::lemma_conventional_output_tag(m, Ok(bytes));
                    },
                }
            }
            Ok(bytes)
        },
        Err(e) => Err(e),
    }
}

/// Run the slide-sequence pipeline against a caller-supplied encoder
/// backend whose configured dimensions the slides already match.
/// Validates the (container, codec) pair before any other work.
pub fn slideshow_with_encoder<E: Encoder>(
    slides: &Vec<Slide>,
    options: &EncodeOptions,
    enc: &mut E,
) -> (r: Result<Vec<u8>, Error>)
    requires
        old(enc).wf(),
        old(enc).cfg_width() % 2 == 0,
        old(enc).cfg_height() % 2 == 0,
        1 <= old(enc).cfg_width(),
        1 <= old(enc).cfg_height(),
        forall|i: int|
            0 <= i < slides@.len() ==> {
                let img = (#[trigger] slides@[i]).image;
                &&& img.wf()
                &&& img.width == old(enc).cfg_width()
                &&& img.height == old(enc).cfg_height()
            },
    ensures
        (r is Err && r->Err_0 is ContainerCodecMismatch) <==> !options.container.spec_supports_codec(
            options.codec,
        ),
        (r is Err && r->Err_0 is InvalidInput) <==> (options.container.spec_supports_codec(
            options.codec,
        ) && slides@.len() == 0),
        (r is Ok && options.container is WebM) ==> {
            let header = crate::webm::webm_file_header(
                slides@[0].image.width,
                slides@[0].image.height,
            );
            &&& r->Ok_0@.len() >= header.len()
            &&& r->Ok_0@.take(header.len() as int) == header
            &&& r->Ok_0@.take(4) == crate::webm::webm_magic()
        },
        (r is Ok && options.container is Mp4) ==> r->Ok_0@.len() >= 8 && r->Ok_0@.subrange(4, 8)
            == crate::mp4::ftyp_tag(),
{
    match options.validate() {
        Ok(()) => {},
        Err(e) => {
            return Err(e);
        },
    }
    if slides.len() == 0 {
        return Err(Error::InvalidInput("No slides provided".to_owned()));
    }
    let width = slides[0].image.width;
    let height = slides[0].image.height;
    let frames = plan_slide_frames(slides, width, height, DEFAULT_FPS);
    encode_and_mux(&frames, width, height, options, enc)
}

/// Run the slide-sequence pipeline with the library's own encoder.
/// All images are resized to the first image's dimensions rounded
/// down to even on each axis; the pair is validated before any work.
pub fn slideshow(slides: &Vec<Slide>, options: &EncodeOptions) -> (r: Result<Vec<u8>, Error>)
    requires
        forall|i: int|
            0 <= i < slides@.len() ==> {
                let img = (#[trigger] slides@[i]).image;
                &&& img.wf()
                &&& img.width >= 1
                &&& img.height >= 1
            },
    ensures
        (r is Err && r->Err_0 is ContainerCodecMismatch) <==> !options.container.spec_supports_codec(
            options.codec,
        ),
        (r is Err && r->Err_0 is InvalidInput) <==> (options.container.spec_supports_codec(
            options.codec,
        ) && (slides@.len() == 0 || (slides@[0].image.width / 2) * 2 < 2 || (slides@[0].image.height
            / 2) * 2 < 2)),
        (r is Ok && options.container is WebM) ==> {
            let header = crate::webm::webm_file_header(
                ((slides@[0].image.width / 2) * 2) as u32,
                ((slides@[0].image.height / 2) * 2) as u32,
            );
            &&& r->Ok_0@.len() >= header.len()
            &&& r->Ok_0@.take(header.len() as int) == header
            &&& r->Ok_0@.take(4) == crate::webm::webm_magic()
        },
        (r is Ok && options.container is Mp4) ==> r->Ok_0@.len() >= 8 && r->Ok_0@.subrange(4, 8)
            == crate::mp4::ftyp_tag(),
        (options.container.spec_supports_codec(options.codec) && slides@.len() > 0 && (
        slides@[0].image.width / 2) * 2 >= 2 && (slides@[0].image.height / 2) * 2 >= 2
            && options.codec is H264) ==> (r is Err && r->Err_0 is CodecUnavailable),
{
    match options.validate() {
        Ok(()) => {},
        Err(e) => {
            return Err(e);
        },
    }
    if slides.len() == 0 {
        return Err(Error::InvalidInput("No slides provided".to_owned()));
    }
    let target_width = (slides[0].image.width / 2) * 2;
    let target_height = (slides[0].image.height / 2) * 2;
    if target_width < 2 || target_height < 2 {
        return Err(Error::InvalidInput("image too small to encode".to_owned()));
    }
    let first_len = slides[0].image.data.len();
    proof {
        assert(target_width * target_height * 4 <= slides@[0].image.width
            * slides@[0].image.height * 4) by (nonlinear_arith)
            requires
                target_width <= slides@[0].image.width,
                target_height <= slides@[0].image.height,
                target_width >= 0,
                target_height >= 0,
        ;
    }
    let mut resized: Vec<Slide> = Vec::new();
    let count = slides.len();
    let mut i: usize = 0;
    while i < count
        invariant
            count == slides@.len(),
            2 <= target_width,
            2 <= target_height,
            target_width % 2 == 0,
            target_height % 2 == 0,
            target_width * target_height * 4 <= usize::MAX,
            forall|k: int|
                0 <= k < slides@.len() ==> {
                    let img = (#[trigger] slides@[k]).image;
                    &&& img.wf()
                    &&& img.width >= 1
                    &&& img.height >= 1
                },
            i <= count,
            resized@.len() == i,
            forall|k: int|
                0 <= k < i ==> {
                    let img = (#[trigger] resized@[k]).image;
                    &&& img.wf()
                    &&& img.width == target_width
                    &&& img.height == target_height
                },
        decreases count - i,
    {
        let img = slides[i].image.resize(target_width, target_height);
        let duration_ms = slides[i].duration_ms;
        resized.push(Slide { image: img, duration_ms });
        i = i + 1;
    }
    let encoder_config = EncoderConfig {
        width: target_width,
        height: target_height,
        fps: DEFAULT_FPS,
        quality: options.quality,
    };
    let mut enc = match crate::av1::create_encoder(options.codec, encoder_config) {
        Ok(e) => e,
        Err(e) => {
            return Err(e);
        },
    };
    slideshow_with_encoder(&resized, options, &mut enc)
}

} // verus!
