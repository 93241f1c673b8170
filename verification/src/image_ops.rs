//! Loaded raw images and the resizing operations the pipelines use.
//!
//! Decoding image files is the embedding application's job; the
//! library works on interleaved RGBA buffers.  Resampling itself is
//! delegated to an external image library; the aspect-preserving,
//! letterboxed fit around it is computed and proved here.

use vstd::prelude::*;
use vstd::pervasive::VecAdditionalExecFns;
use crate::Color;
use crate::error::Error;

verus! {

/// Channel `c` of the canvas pixel `(x, y)` of an interleaved RGBA
/// buffer with row length `w`.
pub open spec fn px_at(data: Seq<u8>, w: int, x: int, y: int, c: int) -> u8 {
    data[(y * w + x) * 4 + c]
}

/// Channel `c` of a background fill: the three color channels, then
/// opaque alpha.
pub open spec fn bg_at(bg: Color, c: int) -> u8 {
    if c == 0 {
        bg.r
    } else if c == 1 {
        bg.g
    } else if c == 2 {
        bg.b
    } else {
        255u8
    }
}

/// A decoded image in interleaved RGBA form.
#[derive(Debug, Clone)]
pub struct LoadedImage {
    /// Image width in pixels.
    pub width: u32,
    /// Image height in pixels.
    pub height: u32,
    /// RGBA pixel data, `width * height * 4` bytes.
    pub data: Vec<u8>,
}

impl LoadedImage {
    /// The buffer holds exactly four bytes per pixel.
    pub open spec fn wf(self) -> bool {
        self.data@.len() == self.width * self.height * 4
    }
}

/// What the external resampler returns for a source buffer and a
/// target geometry.  The result depends on those arguments alone
/// within one toolchain: the resampling kernel uses floating-point
/// math whose last bit may differ between platforms' math libraries,
/// so nothing here compares results across machines.
pub uninterp spec fn resized_pixels(data: Seq<u8>, w: int, h: int, tw: int, th: int) -> Seq<u8>;

/// Relies on the external image library's exact-size resampling
/// (Lanczos3 filter): a deterministic function of the source pixels
/// and the dimensions, returning exactly four bytes per target pixel.
#[verifier::external_body]
fn resize_rgba(data: &Vec<u8>, w: u32, h: u32, tw: u32, th: u32) -> (r: Vec<u8>)
    requires
        data@.len() == w * h * 4,
        w >= 1,
        h >= 1,
        tw >= 1,
        th >= 1,
        tw * th * 4 <= usize::MAX,
    ensures
        r@ == resized_pixels(data@, w as int, h as int, tw as int, th as int),
        r@.len() == tw * th * 4,
{
    let img = match image::RgbaImage::from_raw(w, h, data.clone()) {
        Some(i) => i,
        None => return Vec::new(),
    };
    let resized = image::DynamicImage::ImageRgba8(img).resize_exact(
        tw,
        th,
        image::imageops::FilterType::Lanczos3,
    );
    resized.into_rgba8().into_raw()
}

/// Copy a byte buffer.
fn clone_bytes(v: &Vec<u8>) -> (r: Vec<u8>)
    ensures
        r@ == v@,
{
    let n = v.len();
    let mut r: Vec<u8> = Vec::new();
    let mut i: usize = 0;
    while i < n
        invariant
            n == v@.len(),
            i <= n,
            r@ == v@.subrange(0, i as int),
        decreases n - i,
    {
        r.push(v[i]);
        proof {
            assert(r@ =~= v@.subrange(0, i + 1));
        }
        i = i + 1;
    }
    proof {
        assert(v@.subrange(0, n as int) =~= v@);
    }
    r
}

/// An RGBA canvas of the given size, every pixel the background color
/// with opaque alpha.
pub fn fill_canvas(cw: u32, ch: u32, bg: Color) -> (r: Vec<u8>)
    requires
        cw * ch * 4 <= usize::MAX,
    ensures
        r@.len() == cw * ch * 4,
        forall|x: int, y: int, c: int|
            0 <= x < cw && 0 <= y < ch && 0 <= c < 4 ==> #[trigger] px_at(r@, cw as int, x, y, c)
                == bg_at(bg, c),
{
    let n: usize = (cw as usize) * (ch as usize);
    let mut r: Vec<u8> = Vec::new();
    let mut i: usize = 0;
    while i < n
        invariant
            n == cw * ch,
            4 * n <= usize::MAX,
            i <= n,
            r@.len() == 4 * i,
            forall|k: int, c: int|
                0 <= k < i && 0 <= c < 4 ==> #[trigger] r@[4 * k + c] == bg_at(bg, c),
        decreases n - i,
    {
        r.push(bg.r);
        r.push(bg.g);
        r.push(bg.b);
        r.push(255);
        i = i + 1;
    }
    proof {
        assert forall|x: int, y: int, c: int|
            0 <= x < cw && 0 <= y < ch && 0 <= c < 4 implies #[trigger] px_at(
            r@,
            cw as int,
            x,
            y,
            c,
        ) == bg_at(bg, c) by {
            let k = y * cw + x;
            assert(0 <= k < cw * ch) by (nonlinear_arith)
                requires
                    0 <= x < cw,
                    0 <= y < ch,
                    k == y * cw + x,
            ;
            assert(r@[4 * k + c] == bg_at(bg, c));
            assert((y * cw + x) * 4 + c == 4 * k + c);
        }
    }
    r
}

/// Copy a source image onto the canvas with its top-left corner at
/// `(ox, oy)`, clipped to the canvas; every other canvas byte stays.
pub fn blit(
    canvas: &mut Vec<u8>,
    cw: u32,
    ch: u32,
    src: &Vec<u8>,
    sw: u32,
    sh: u32,
    ox: u32,
    oy: u32,
)
    requires
        old(canvas)@.len() == cw * ch * 4,
        src@.len() == sw * sh * 4,
        ox + sw <= u32::MAX,
        oy + sh <= u32::MAX,
    ensures
        final(canvas)@.len() == cw * ch * 4,
        forall|x: int, y: int, c: int|
            0 <= x < cw && 0 <= y < ch && 0 <= c < 4 ==> #[trigger] px_at(
                final(canvas)@,
                cw as int,
                x,
                y,
                c,
            ) == if ox <= x < ox + sw && oy <= y < oy + sh {
                px_at(src@, sw as int, x - ox, y - oy, c)
            } else {
                px_at(old(canvas)@, cw as int, x, y, c)
            },
{
    let clen = canvas.len();
    let slen = src.len();
    let copy_w: u32 = if ox >= cw {
        0
    } else if sw < cw - ox {
        sw
    } else {
        cw - ox
    };
    let copy_h: u32 = if oy >= ch {
        0
    } else if sh < ch - oy {
        sh
    } else {
        ch - oy
    };
    let mut y: u32 = 0;
    while y < copy_h
        invariant
            canvas@.len() == cw * ch * 4,
            src@.len() == sw * sh * 4,
            clen == canvas@.len(),
            slen == src@.len(),
            copy_w <= sw,
            copy_h <= sh,
            copy_w == 0 || ox + copy_w <= cw,
            copy_h == 0 || oy + copy_h <= ch,
            y <= copy_h,
            forall|jx: int, jy: int, c: int|
                0 <= jx < cw && 0 <= jy < ch && 0 <= c < 4 ==> #[trigger] px_at(
                    canvas@,
                    cw as int,
                    jx,
                    jy,
                    c,
                ) == if ox <= jx < ox + copy_w && oy <= jy < oy + y {
                    px_at(src@, sw as int, jx - ox, jy - oy, c)
                } else {
                    px_at(old(canvas)@, cw as int, jx, jy, c)
                },
        decreases copy_h - y,
    {
        let mut x: u32 = 0;
        while x < copy_w
            invariant
                canvas@.len() == cw * ch * 4,
                src@.len() == sw * sh * 4,
                clen == canvas@.len(),
                slen == src@.len(),
                copy_w <= sw,
                copy_h <= sh,
                copy_w == 0 || ox + copy_w <= cw,
                copy_h == 0 || oy + copy_h <= ch,
                y < copy_h,
                x <= copy_w,
                forall|jx: int, jy: int, c: int|
                    0 <= jx < cw && 0 <= jy < ch && 0 <= c < 4 ==> #[trigger] px_at(
                        canvas@,
                        cw as int,
                        jx,
                        jy,
                        c,
                    ) == if (ox <= jx < ox + copy_w && oy <= jy < oy + y) || (jy == oy + y && ox
                        <= jx < ox + x) {
                        px_at(src@, sw as int, jx - ox, jy - oy, c)
                    } else {
                        px_at(old(canvas)@, cw as int, jx, jy, c)
                    },
            decreases copy_w - x,
        {
            proof {
                lemma_blit_indices(
                    cw as int,
                    ch as int,
                    sw as int,
                    sh as int,
                    ox as int,
                    oy as int,
                    x as int,
                    y as int,
                    copy_w as int,
                    copy_h as int,
                );
            }
            let di: usize = (((oy + y) as usize) * (cw as usize) + ((ox + x) as usize)) * 4;
            let si: usize = ((y as usize) * (sw as usize) + (x as usize)) * 4;
            let ghost pre = canvas@;
            canvas.set(di, src[si]);
            canvas.set(di + 1, src[si + 1]);
            canvas.set(di + 2, src[si + 2]);
            canvas.set(di + 3, src[si + 3]);
            proof {
                lemma_blit_step(
                    pre,
                    canvas@,
                    old(canvas)@,
                    src@,
                    cw as int,
                    ch as int,
                    sw as int,
                    sh as int,
                    ox as int,
                    oy as int,
                    x as int,
                    y as int,
                    copy_w as int,
                    copy_h as int,
                );
            }
            x = x + 1;
        }
        y = y + 1;
    }
    proof {
        assert forall|jx: int, jy: int, c: int|
            0 <= jx < cw && 0 <= jy < ch && 0 <= c < 4 implies #[trigger] px_at(
            canvas@,
            cw as int,
            jx,
            jy,
            c,
        ) == if ox <= jx < ox + sw && oy <= jy < oy + sh {
            px_at(src@, sw as int, jx - ox, jy - oy, c)
        } else {
            px_at(old(canvas)@, cw as int, jx, jy, c)
        } by {
            if ox <= jx < ox + sw && oy <= jy < oy + sh {
                assert(jx < ox + copy_w && jy < oy + copy_h);
            }
        }
    }
}

/// The byte the blit writes stays inside the canvas, and every
/// intermediate index computation stays inside `usize`.
proof fn lemma_blit_indices(
    cw: int,
    ch: int,
    sw: int,
    sh: int,
    ox: int,
    oy: int,
    x: int,
    y: int,
    copy_w: int,
    copy_h: int,
)
    by (nonlinear_arith)
    requires
        cw >= 0,
        ch >= 0,
        sw >= 0,
        0 <= x < copy_w,
        0 <= y < copy_h,
        copy_w <= sw,
        copy_h <= sh,
        ox >= 0,
        oy >= 0,
        ox + copy_w <= cw,
        oy + copy_h <= ch,
    ensures
        ((oy + y) * cw + (ox + x)) * 4 + 3 < cw * ch * 4,
        (y * sw + x) * 4 + 3 < sw * sh * 4,
        0 <= (oy + y) * cw + (ox + x),
        0 <= y * sw + x,
        (oy + y) * cw <= cw * ch,
        (oy + y) * cw + (ox + x) <= cw * ch,
        y * sw <= sw * sh,
        y * sw + x <= sw * sh,
{
}

/// One four-byte pixel write updates exactly the target cell of the
/// blit invariant and leaves every other pixel byte unchanged.
proof fn lemma_blit_step(
    pre: Seq<u8>,
    post: Seq<u8>,
    orig: Seq<u8>,
    src: Seq<u8>,
    cw: int,
    ch: int,
    sw: int,
    sh: int,
    ox: int,
    oy: int,
    x: int,
    y: int,
    copy_w: int,
    copy_h: int,
)
    requires
        pre.len() == cw * ch * 4,
        src.len() == sw * sh * 4,
        0 <= x < copy_w,
        0 <= y < copy_h,
        copy_w <= sw,
        copy_h <= sh,
        ox >= 0,
        oy >= 0,
        ox + copy_w <= cw,
        oy + copy_h <= ch,
        ({
            let di = ((oy + y) * cw + (ox + x)) * 4;
            let si = (y * sw + x) * 4;
            post == pre.update(di, src[si]).update(di + 1, src[si + 1]).update(
                di + 2,
                src[si + 2],
            ).update(di + 3, src[si + 3])
        }),
        forall|jx: int, jy: int, c: int|
            0 <= jx < cw && 0 <= jy < ch && 0 <= c < 4 ==> #[trigger] px_at(pre, cw, jx, jy, c)
                == if (ox <= jx < ox + copy_w && oy <= jy < oy + y) || (jy == oy + y && ox <= jx
                < ox + x) {
                px_at(src, sw, jx - ox, jy - oy, c)
            } else {
                px_at(orig, cw, jx, jy, c)
            },
    ensures
        forall|jx: int, jy: int, c: int|
            0 <= jx < cw && 0 <= jy < ch && 0 <= c < 4 ==> #[trigger] px_at(post, cw, jx, jy, c)
                == if (ox <= jx < ox + copy_w && oy <= jy < oy + y) || (jy == oy + y && ox <= jx
                < ox + x + 1) {
                px_at(src, sw, jx - ox, jy - oy, c)
            } else {
                px_at(orig, cw, jx, jy, c)
            },
{
    let di = ((oy + y) * cw + (ox + x)) * 4;
    let si = (y * sw + x) * 4;
    lemma_blit_indices(cw, ch, sw, sh, ox, oy, x, y, copy_w, copy_h);
    assert forall|jx: int, jy: int, c: int|
        0 <= jx < cw && 0 <= jy < ch && 0 <= c < 4 implies #[trigger] px_at(post, cw, jx, jy, c)
        == if (ox <= jx < ox + copy_w && oy <= jy < oy + y) || (jy == oy + y && ox <= jx < ox + x
        + 1) {
        px_at(src, sw, jx - ox, jy - oy, c)
    } else {
        px_at(orig, cw, jx, jy, c)
    } by {
        let idx = (jy * cw + jx) * 4 + c;
        if jx == ox + x && jy == oy + y {
            assert(idx == di + c) by (nonlinear_arith)
                requires
                    jx == ox + x,
                    jy == oy + y,
                    idx == (jy * cw + jx) * 4 + c,
                    di == ((oy + y) * cw + (ox + x)) * 4,
            ;
            assert(px_at(src, sw, jx - ox, jy - oy, c) == src[si + c]) by (nonlinear_arith)
                requires
                    jx == ox + x,
                    jy == oy + y,
                    si == (y * sw + x) * 4,
                    px_at(src, sw, jx - ox, jy - oy, c) == src[((jy - oy) * sw + (jx - ox)) * 4
                        + c],
                    0 <= c < 4,
            ;
        } else {
            assert(idx < di || idx > di + 3) by (nonlinear_arith)
                requires
                    !(jx == ox + x && jy == oy + y),
                    0 <= jx < cw,
                    0 <= jy < ch,
                    0 <= c < 4,
                    0 <= ox + x < cw,
                    0 <= oy + y < ch,
                    idx == (jy * cw + jx) * 4 + c,
                    di == ((oy + y) * cw + (ox + x)) * 4,
            ;
            assert(0 <= idx < cw * ch * 4) by (nonlinear_arith)
                requires
                    0 <= jx < cw,
                    0 <= jy < ch,
                    0 <= c < 4,
                    idx == (jy * cw + jx) * 4 + c,
            ;
            assert(px_at(post, cw, jx, jy, c) == px_at(pre, cw, jx, jy, c));
            assert(px_at(pre, cw, jx, jy, c) == if (ox <= jx < ox + copy_w && oy <= jy < oy + y)
                || (jy == oy + y && ox <= jx < ox + x) {
                px_at(src, sw, jx - ox, jy - oy, c)
            } else {
                px_at(orig, cw, jx, jy, c)
            });
        }
    }
}

/// One of four explicit fill bytes.
pub open spec fn quad_at(b0: u8, b1: u8, b2: u8, b3: u8, c: int) -> u8 {
    if c == 0 {
        b0
    } else if c == 1 {
        b1
    } else if c == 2 {
        b2
    } else {
        b3
    }
}

/// An RGBA canvas of the given size with four explicit fill bytes.
pub fn fill_rgba(cw: u32, ch: u32, b0: u8, b1: u8, b2: u8, b3: u8) -> (r: Vec<u8>)
    requires
        cw * ch * 4 <= usize::MAX,
    ensures
        r@.len() == cw * ch * 4,
        forall|x: int, y: int, c: int|
            0 <= x < cw && 0 <= y < ch && 0 <= c < 4 ==> #[trigger] px_at(r@, cw as int, x, y, c)
                == quad_at(b0, b1, b2, b3, c),
{
    let n: usize = (cw as usize) * (ch as usize);
    let mut r: Vec<u8> = Vec::new();
    let mut i: usize = 0;
    while i < n
        invariant
            n == cw * ch,
            4 * n <= usize::MAX,
            i <= n,
            r@.len() == 4 * i,
            forall|k: int, c: int|
                0 <= k < i && 0 <= c < 4 ==> #[trigger] r@[4 * k + c] == quad_at(b0, b1, b2, b3, c),
        decreases n - i,
    {
        r.push(b0);
        r.push(b1);
        r.push(b2);
        r.push(b3);
        i = i + 1;
    }
    proof {
        assert forall|x: int, y: int, c: int|
            0 <= x < cw && 0 <= y < ch && 0 <= c < 4 implies #[trigger] px_at(
            r@,
            cw as int,
            x,
            y,
            c,
        ) == quad_at(b0, b1, b2, b3, c) by {
            let k = y * cw + x;
            assert(0 <= k < cw * ch) by (nonlinear_arith)
                requires
                    0 <= x < cw,
                    0 <= y < ch,
                    k == y * cw + x,
            ;
            assert(r@[4 * k + c] == quad_at(b0, b1, b2, b3, c));
            assert((y * cw + x) * 4 + c == 4 * k + c);
        }
    }
    r
}

/// The target fits by width: scaling to the target width is the
/// tighter of the two scale factors.
pub open spec fn fits_by_width(w: int, h: int, tw: int, th: int) -> bool {
    tw * h <= th * w
}

/// The scaled width of an aspect-preserving fit: the target width, or
/// the source width scaled by the height ratio, rounded to nearest.
pub open spec fn fit_width(w: int, h: int, tw: int, th: int) -> int {
    if fits_by_width(w, h, tw, th) {
        tw
    } else {
        (2 * w * th + h) / (2 * h)
    }
}

/// The scaled height of an aspect-preserving fit.
pub open spec fn fit_height(w: int, h: int, tw: int, th: int) -> int {
    if fits_by_width(w, h, tw, th) {
        (2 * h * tw + w) / (2 * w)
    } else {
        th
    }
}

/// The scaled dimensions never exceed the target box.
proof fn lemma_fit_bounds(w: int, h: int, tw: int, th: int)
    by (nonlinear_arith)
    requires
        w >= 1,
        h >= 1,
        tw >= 1,
        th >= 1,
    ensures
        0 <= fit_width(w, h, tw, th) <= tw,
        0 <= fit_height(w, h, tw, th) <= th,
{
}

/// The fit arithmetic stays inside the machine words used for it.
proof fn lemma_fit_no_overflow(w: int, h: int, tw: int, th: int)
    by (nonlinear_arith)
    requires
        0 <= w < 0x100000000,
        0 <= h < 0x100000000,
        0 <= tw < 0x100000000,
        0 <= th < 0x100000000,
    ensures
        tw * h < 0x10000000000000000,
        th * w < 0x10000000000000000,
        2 * h * tw + w < 0x100000000000000000000000000000000,
        2 * w * th + h < 0x100000000000000000000000000000000,
        2 * h * tw < 0x100000000000000000000000000000000,
        2 * w * th < 0x100000000000000000000000000000000,
{
}

/// Compute the aspect-preserving fit of a source into a target box.
fn fit_dims(w: u32, h: u32, tw: u32, th: u32) -> (r: (u32, u32))
    requires
        w >= 1,
        h >= 1,
        tw >= 1,
        th >= 1,
    ensures
        r.0 == fit_width(w as int, h as int, tw as int, th as int),
        r.1 == fit_height(w as int, h as int, tw as int, th as int),
        r.0 <= tw,
        r.1 <= th,
{
    proof {
        lemma_fit_bounds(w as int, h as int, tw as int, th as int);
        lemma_fit_no_overflow(w as int, h as int, tw as int, th as int);
    }
    if (tw as u64) * (h as u64) <= (th as u64) * (w as u64) {
        let nh = ((2 * (h as u128) * (tw as u128) + (w as u128)) / (2 * (w as u128))) as u32;
        (tw, nh)
    } else {
        let nw = ((2 * (w as u128) * (th as u128) + (h as u128)) / (2 * (h as u128))) as u32;
        (nw, th)
    }
}

/// To a square target, a wide source keeps its aspect ratio: the fit
/// spans the full target width, and the fit height matches the source
/// ratio to within half a pixel of rounding.
pub proof fn lemma_resize_fit_aspect(w: int, h: int, t: int)
    by (nonlinear_arith)
    requires
        1 <= h <= w,
        t >= 1,
    ensures
        fit_width(w, h, t, t) == t,
        fit_height(w, h, t, t) <= t,
        2 * h * t - w <= 2 * w * fit_height(w, h, t, t) <= 2 * h * t + w,
{
}

impl LoadedImage {
    /// Resize to exactly the given dimensions (no aspect preservation).
    /// When the dimensions already match, the pixels are returned
    /// unchanged; otherwise the external resampler produces them.
    pub fn resize(&self, target_width: u32, target_height: u32) -> (r: LoadedImage)
        requires
            self.wf(),
            self.width >= 1,
            self.height >= 1,
            target_width >= 1,
            target_height >= 1,
            target_width * target_height * 4 <= usize::MAX,
        ensures
            r.wf(),
            r.width == target_width,
            r.height == target_height,
            (self.width == target_width && self.height == target_height) ==> r.data@
                == self.data@,
            !(self.width == target_width && self.height == target_height) ==> r.data@
                == resized_pixels(
                self.data@,
                self.width as int,
                self.height as int,
                target_width as int,
                target_height as int,
            ),
    {
        if self.width == target_width && self.height == target_height {
            return LoadedImage {
                width: self.width,
                height: self.height,
                data: clone_bytes(&self.data),
            };
        }
        let data = resize_rgba(&self.data, self.width, self.height, target_width, target_height);
        LoadedImage { width: target_width, height: target_height, data }
    }

    /// Resize to fit within the given dimensions, preserving the
    /// source aspect ratio, centered, with the remaining area filled
    /// with the requested background color exactly.
    pub fn resize_fit(&self, target_width: u32, target_height: u32, bg_color: [u8; 4]) -> (r:
        LoadedImage)
        requires
            self.wf(),
            self.width >= 1,
            self.height >= 1,
            target_width >= 1,
            target_height >= 1,
            target_width * target_height * 4 <= usize::MAX,
        ensures
            r.wf(),
            r.width == target_width,
            r.height == target_height,
            (self.width == target_width && self.height == target_height) ==> r.data@
                == self.data@,
            !(self.width == target_width && self.height == target_height) ==> ({
                let nw = fit_width(
                    self.width as int,
                    self.height as int,
                    target_width as int,
                    target_height as int,
                );
                let nh = fit_height(
                    self.width as int,
                    self.height as int,
                    target_width as int,
                    target_height as int,
                );
                let ox = (target_width - nw) / 2;
                let oy = (target_height - nh) / 2;
                &&& forall|x: int, y: int, c: int|
                    0 <= x < target_width && 0 <= y < target_height && 0 <= c < 4 && !(ox <= x
                        < ox + nw && oy <= y < oy + nh) ==> #[trigger] px_at(
                        r.data@,
                        target_width as int,
                        x,
                        y,
                        c,
                    ) == quad_at(bg_color[0], bg_color[1], bg_color[2], bg_color[3], c)
                &&& (nw >= 1 && nh >= 1) ==> forall|x: int, y: int, c: int|
                    ox <= x < ox + nw && oy <= y < oy + nh && 0 <= c < 4 ==> #[trigger] px_at(
                        r.data@,
                        target_width as int,
                        x,
                        y,
                        c,
                    ) == px_at(
                        resized_pixels(
                            self.data@,
                            self.width as int,
                            self.height as int,
                            nw,
                            nh,
                        ),
                        nw,
                        x - ox,
                        y - oy,
                        c,
                    )
            }),
    {
        if self.width == target_width && self.height == target_height {
            return LoadedImage {
                width: self.width,
                height: self.height,
                data: clone_bytes(&self.data),
            };
        }
        let (nw, nh) = fit_dims(self.width, self.height, target_width, target_height);
        let mut out = fill_rgba(
            target_width,
            target_height,
            bg_color[0],
            bg_color[1],
            bg_color[2],
            bg_color[3],
        );
        if nw >= 1 && nh >= 1 {
            proof {
                assert(nw * nh * 4 <= target_width * target_height * 4) by (nonlinear_arith)
                    requires
                        1 <= nw <= target_width,
                        1 <= nh <= target_height,
                ;
            }
            let scaled = resize_rgba(&self.data, self.width, self.height, nw, nh);
            let ox = (target_width - nw) / 2;
            let oy = (target_height - nh) / 2;
            blit(&mut out, target_width, target_height, &scaled, nw, nh, ox, oy);
        }
        LoadedImage { width: target_width, height: target_height, data: out }
    }
}

/// Resize every image to the first image's dimensions.  An image that
/// already has them is returned byte-identical; every other image is
/// the external resampler's output for it.
pub fn normalize_images(images: Vec<LoadedImage>) -> (r: Result<Vec<LoadedImage>, Error>)
    requires
        forall|i: int|
            0 <= i < images@.len() ==> {
                let img = #[trigger] images@[i];
                &&& img.wf()
                &&& img.width >= 1
                &&& img.height >= 1
            },
    ensures
        r is Ok <==> images@.len() > 0,
        r is Err ==> r->Err_0 is InvalidInput,
        r is Ok ==> {
            let out = r->Ok_0@;
            &&& out.len() == images@.len()
            &&& forall|i: int|
                0 <= i < out.len() ==> (#[trigger] out[i]).width == images@[0].width
                    && out[i].height == images@[0].height && out[i].wf()
            &&& forall|i: int|
                0 <= i < out.len() ==> (#[trigger] out[i]).data@ == normalized_data(
                    images@[i],
                    images@[0].width,
                    images@[0].height,
                )
            &&& out[0].data@ == images@[0].data@
        },
{
    if images.len() == 0 {
        return Err(Error::InvalidInput("No images provided".to_owned()));
    }
    let target_width = images[0].width;
    let target_height = images[0].height;
    let tlen = images[0].data.len();
    assert(target_width * target_height * 4 <= usize::MAX);
    let mut out: Vec<LoadedImage> = Vec::new();
    let count = images.len();
    let mut i: usize = 0;
    while i < count
        invariant
            count == images@.len(),
            target_width == images@[0].width,
            target_height == images@[0].height,
            target_width >= 1,
            target_height >= 1,
            target_width * target_height * 4 <= usize::MAX,
            forall|k: int|
                0 <= k < images@.len() ==> {
                    let img = #[trigger] images@[k];
                    &&& img.wf()
                    &&& img.width >= 1
                    &&& img.height >= 1
                },
            i <= count,
            out@.len() == i,
            forall|k: int|
                0 <= k < i ==> (#[trigger] out@[k]).width == target_width && out@[k].height
                    == target_height && out@[k].wf(),
            forall|k: int|
                0 <= k < i ==> (#[trigger] out@[k]).data@ == normalized_data(
                    images@[k],
                    target_width,
                    target_height,
                ),
        decreases count - i,
    {
        let resized = images[i].resize(target_width, target_height);
        out.push(resized);
        i = i + 1;
    }
    Ok(out)
}

/// What normalizing one image to the target dimensions yields: its
/// own bytes when the dimensions already match, the resampler's
/// output otherwise.
pub open spec fn normalized_data(img: LoadedImage, tw: u32, th: u32) -> Seq<u8> {
    if img.width == tw && img.height == th {
        img.data@
    } else {
        resized_pixels(img.data@, img.width as int, img.height as int, tw as int, th as int)
    }
}

} // verus!
