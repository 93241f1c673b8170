//! Raw-pixel conversion: interleaved RGBA to the planar luma/chroma
//! layouts the encoders consume.
//!
//! Luma is a per-pixel weighted sum with the broadcast-video weights
//! 299/587/114 (per mille).  Chroma is computed on 2x2-block box
//! averages with the two standard weighting formulas, offset by 128.
//! Both planar layouts (separate half-resolution planes, and a single
//! interleaved half-resolution plane) are derived from the same
//! per-block averages, so they agree pixel-for-pixel.

use vstd::prelude::*;
use crate::encoder::Frame;

verus! {

/// Luma of one RGBA pixel, from its three color channels.
pub open spec fn spec_luma(r: u8, g: u8, b: u8) -> u8 {
    ((299 * r + 587 * g + 114 * b) / 1000) as u8
}

/// Sum of channel `c` over the 2x2 pixel block `(bx, by)` of an
/// interleaved RGBA buffer with row length `w`.
pub open spec fn blk_sum(data: Seq<u8>, w: int, bx: int, by: int, c: int) -> int {
    data[(2 * by * w + 2 * bx) * 4 + c] as int
        + data[(2 * by * w + 2 * bx + 1) * 4 + c] as int
        + data[((2 * by + 1) * w + 2 * bx) * 4 + c] as int
        + data[((2 * by + 1) * w + 2 * bx + 1) * 4 + c] as int
}

/// Box average of channel `c` over the 2x2 block `(bx, by)`.
pub open spec fn blk_avg(data: Seq<u8>, w: int, bx: int, by: int, c: int) -> int {
    blk_sum(data, w, bx, by, c) / 4
}

/// First chroma component from averaged red, green and blue.
pub open spec fn spec_cb(r: int, g: int, b: int) -> u8 {
    ((128000 + 500 * b - 169 * r - 331 * g) / 1000) as u8
}

/// Second chroma component from averaged red, green and blue.
pub open spec fn spec_cr(r: int, g: int, b: int) -> u8 {
    ((128000 + 500 * r - 419 * g - 81 * b) / 1000) as u8
}

/// First chroma component of block `(bx, by)` of the buffer.
pub open spec fn chroma_u_at(data: Seq<u8>, w: int, bx: int, by: int) -> u8 {
    spec_cb(
        blk_avg(data, w, bx, by, 0),
        blk_avg(data, w, bx, by, 1),
        blk_avg(data, w, bx, by, 2),
    )
}

/// Second chroma component of block `(bx, by)` of the buffer.
pub open spec fn chroma_v_at(data: Seq<u8>, w: int, bx: int, by: int) -> u8 {
    spec_cr(
        blk_avg(data, w, bx, by, 0),
        blk_avg(data, w, bx, by, 1),
        blk_avg(data, w, bx, by, 2),
    )
}

/// Luma of pixel `i` (in row-major order) of the buffer.
pub open spec fn luma_at(data: Seq<u8>, i: int) -> u8 {
    spec_luma(data[4 * i], data[4 * i + 1], data[4 * i + 2])
}

/// A grid cell strictly before `(bx, by)` in row-major order has a
/// strictly smaller flat index.
proof fn lemma_grid_lt(jx: int, jy: int, bx: int, by: int, cw: int)
    by (nonlinear_arith)
    requires
        cw >= 1,
        0 <= jx < cw,
        0 <= jy,
        bx >= 0,
        jy < by || (jy == by && jx < bx),
    ensures
        0 <= jy * cw + jx < by * cw + bx,
{
}

/// Every intermediate of the four corner-index computations of a 2x2
/// block stays below the buffer length.
proof fn lemma_block_corner_bounds(w: int, bx: int, by: int, dlen: int)
    by (nonlinear_arith)
    requires
        w >= 2,
        bx >= 0,
        by >= 0,
        2 * bx + 1 < w,
        ((2 * by + 1) * w + 2 * bx + 1) * 4 + 3 < dlen,
    ensures
        0 <= 2 * by * w + 2 * bx,
        2 * by <= 2 * by * w,
        2 * by * w < dlen,
        2 * by * w + 2 * bx < dlen,
        2 * by + 1 <= (2 * by + 1) * w,
        (2 * by + 1) * w < dlen,
        (2 * by + 1) * w + 2 * bx + 1 < dlen,
        ((2 * by + 1) * w + 2 * bx + 1) * 4 + 3 < dlen,
        (2 * by * w + 2 * bx) * 4 + 3 < dlen,
        (2 * by * w + 2 * bx + 1) * 4 + 3 < dlen,
        ((2 * by + 1) * w + 2 * bx) * 4 + 3 < dlen,
        2 * by * w <= (2 * by + 1) * w,
{
}

/// The last byte a 2x2 block at an in-range grid cell reads lies
/// inside a well-formed frame buffer.
proof fn lemma_block_in_frame(w: int, h: int, bx: int, by: int)
    by (nonlinear_arith)
    requires
        w >= 2,
        h >= 2,
        w % 2 == 0,
        h % 2 == 0,
        0 <= bx < w / 2,
        0 <= by < h / 2,
    ensures
        ((2 * by + 1) * w + 2 * bx + 1) * 4 + 3 < w * h * 4,
{
}

/// Compute the luma plane: one byte per source pixel, row-major.
pub fn luma_plane(frame: &Frame) -> (y: Vec<u8>)
    requires
        frame.wf(),
    ensures
        y@.len() == frame.width * frame.height,
        forall|i: int|
            0 <= i < frame.width * frame.height ==> y@[i] == luma_at(frame.data@, i),
{
    let dlen = frame.data.len();
    assert(frame.width * frame.height * 4 <= usize::MAX);
    let n: usize = (frame.width as usize) * (frame.height as usize);
    let mut y: Vec<u8> = Vec::new();
    let mut i: usize = 0;
    while i < n
        invariant
            n == frame.width * frame.height,
            frame.data@.len() == 4 * n,
            frame.data@.len() <= usize::MAX,
            i <= n,
            y@.len() == i,
            forall|k: int| 0 <= k < i ==> y@[k] == luma_at(frame.data@, k),
        decreases n - i,
    {
        let r = frame.data[4 * i] as u32;
        let g = frame.data[4 * i + 1] as u32;
        let b = frame.data[4 * i + 2] as u32;
        let l = (299 * r + 587 * g + 114 * b) / 1000;
        y.push(l as u8);
        i = i + 1;
    }
    y
}

/// Compute both chroma components of one 2x2 block.
fn block_chroma(data: &Vec<u8>, w: usize, bx: usize, by: usize) -> (uv: (u8, u8))
    requires
        w >= 2,
        2 * bx + 1 < w,
        ((2 * by + 1) * w + 2 * bx + 1) * 4 + 3 < data@.len(),
    ensures
        uv.0 == chroma_u_at(data@, w as int, bx as int, by as int),
        uv.1 == chroma_v_at(data@, w as int, bx as int, by as int),
{
    let dlen = data.len();
    proof {
        lemma_block_corner_bounds(w as int, bx as int, by as int, dlen as int);
    }
    let i00: usize = (2 * by * w + 2 * bx) * 4;
    let i01: usize = (2 * by * w + 2 * bx + 1) * 4;
    let i10: usize = ((2 * by + 1) * w + 2 * bx) * 4;
    let i11: usize = ((2 * by + 1) * w + 2 * bx + 1) * 4;
    let r = ((data[i00] as u32) + (data[i01] as u32) + (data[i10] as u32) + (data[i11] as u32))
        / 4;
    let g = ((data[i00 + 1] as u32) + (data[i01 + 1] as u32) + (data[i10 + 1] as u32)
        + (data[i11 + 1] as u32)) / 4;
    let b = ((data[i00 + 2] as u32) + (data[i01 + 2] as u32) + (data[i10 + 2] as u32)
        + (data[i11 + 2] as u32)) / 4;
    let u = (128000 + 500 * b - 169 * r - 331 * g) / 1000;
    let v = (128000 + 500 * r - 419 * g - 81 * b) / 1000;
    (u as u8, v as u8)
}

/// Compute the two half-resolution chroma planes of a frame, as
/// separate planes in row-major block order.
#[verifier::rlimit(50)]
fn chroma_planes(frame: &Frame) -> (uv: (Vec<u8>, Vec<u8>))
    requires
        frame.wf(),
        frame.width >= 2,
        frame.height >= 2,
    ensures
        uv.0@.len() == (frame.width / 2) * (frame.height / 2),
        uv.1@.len() == (frame.width / 2) * (frame.height / 2),
        forall|bx: int, by: int|
            0 <= bx < frame.width / 2 && 0 <= by < frame.height / 2 ==> {
                &&& uv.0@[by * (frame.width / 2) + bx] == #[trigger] chroma_u_at(
                    frame.data@,
                    frame.width as int,
                    bx,
                    by,
                )
                &&& uv.1@[by * (frame.width / 2) + bx] == chroma_v_at(
                    frame.data@,
                    frame.width as int,
                    bx,
                    by,
                )
            },
{
    let w = frame.width as usize;
    let h = frame.height as usize;
    let cw: usize = w / 2;
    let ch: usize = h / 2;
    let ghost data = frame.data@;
    let mut u: Vec<u8> = Vec::new();
    let mut v: Vec<u8> = Vec::new();
    let mut by: usize = 0;
    while by < ch
        invariant
            frame.wf(),
            data == frame.data@,
            w == frame.width,
            h == frame.height,
            w >= 2,
            h >= 2,
            cw == w / 2,
            ch == h / 2,
            by <= ch,
            u@.len() == by * cw,
            v@.len() == by * cw,
            forall|jx: int, jy: int|
                0 <= jx < cw && 0 <= jy < by ==> #[trigger] chroma_cell_ok(
                    u@,
                    v@,
                    data,
                    w as int,
                    cw as int,
                    jx,
                    jy,
                ),
        decreases ch - by,
    {
        let mut bx: usize = 0;
        while bx < cw
            invariant
                frame.wf(),
                data == frame.data@,
                w == frame.width,
                h == frame.height,
                w >= 2,
                h >= 2,
                cw == w / 2,
                ch == h / 2,
                by < ch,
                bx <= cw,
                u@.len() == by * cw + bx,
                v@.len() == by * cw + bx,
                forall|jx: int, jy: int|
                    (0 <= jx < cw && 0 <= jy < by) || (jy == by && 0 <= jx < bx)
                        ==> #[trigger] chroma_cell_ok(u@, v@, data, w as int, cw as int, jx, jy),
            decreases cw - bx,
        {
            proof {
                lemma_block_in_frame(w as int, h as int, bx as int, by as int);
            }
            let ghost pre_u = u@;
            let ghost pre_v = v@;
            let (cu, cv) = block_chroma(&frame.data, w, bx, by);
            u.push(cu);
            v.push(cv);
            proof {
                assert forall|jx: int, jy: int|
                    (0 <= jx < cw && 0 <= jy < by) || (jy == by && 0 <= jx < bx + 1)
                        implies #[trigger] chroma_cell_ok(
                    u@,
                    v@,
                    data,
                    w as int,
                    cw as int,
                    jx,
                    jy,
                ) by {
                    if jy == by && jx == bx {
                        assert(jy * cw + jx == pre_u.len()) by (nonlinear_arith)
                            requires
                                jy == by,
                                jx == bx,
                                pre_u.len() == by * cw + bx,
                        ;
                        assert(u@[jy * cw + jx] == cu);
                        assert(v@[jy * cw + jx] == cv);
                    } else {
                        assert(chroma_cell_ok(pre_u, pre_v, data, w as int, cw as int, jx, jy));
                        lemma_grid_lt(jx, jy, bx as int, by as int, cw as int);
                        assert(u@[jy * cw + jx] == pre_u[jy * cw + jx]);
                        assert(v@[jy * cw + jx] == pre_v[jy * cw + jx]);
                    }
                }
            }
            bx = bx + 1;
        }
        proof {
            assert((by + 1) * cw == by * cw + cw) by (nonlinear_arith);
        }
        by = by + 1;
    }
    proof {
        assert(ch * cw == cw * ch) by (nonlinear_arith);
        assert forall|bx: int, by2: int|
            0 <= bx < frame.width / 2 && 0 <= by2 < frame.height / 2 implies {
            &&& u@[by2 * (frame.width / 2) + bx] == #[trigger] chroma_u_at(
                frame.data@,
                frame.width as int,
                bx,
                by2,
            )
            &&& v@[by2 * (frame.width / 2) + bx] == chroma_v_at(
                frame.data@,
                frame.width as int,
                bx,
                by2,
            )
        } by {
            assert(chroma_cell_ok(u@, v@, data, w as int, cw as int, bx, by2));
        }
    }
    (u, v)
}

/// The stored pair at grid cell `(jx, jy)` matches the block's chroma.
spec fn chroma_cell_ok(
    u: Seq<u8>,
    v: Seq<u8>,
    data: Seq<u8>,
    w: int,
    cw: int,
    jx: int,
    jy: int,
) -> bool {
    &&& u[jy * cw + jx] == chroma_u_at(data, w, jx, jy)
    &&& v[jy * cw + jx] == chroma_v_at(data, w, jx, jy)
}

/// Convert a frame to three fully separate planes: full-resolution luma
/// and two half-resolution chroma planes.
pub fn rgba_to_yuv420(frame: &Frame) -> (planes: (Vec<u8>, Vec<u8>, Vec<u8>))
    requires
        frame.wf(),
        frame.width >= 2,
        frame.height >= 2,
    ensures
        planes.0@.len() == frame.width * frame.height,
        planes.1@.len() == (frame.width / 2) * (frame.height / 2),
        planes.2@.len() == (frame.width / 2) * (frame.height / 2),
        forall|i: int|
            0 <= i < frame.width * frame.height ==> planes.0@[i] == luma_at(frame.data@, i),
        forall|bx: int, by: int|
            0 <= bx < frame.width / 2 && 0 <= by < frame.height / 2 ==> {
                &&& planes.1@[by * (frame.width / 2) + bx] == #[trigger] chroma_u_at(
                    frame.data@,
                    frame.width as int,
                    bx,
                    by,
                )
                &&& planes.2@[by * (frame.width / 2) + bx] == chroma_v_at(
                    frame.data@,
                    frame.width as int,
                    bx,
                    by,
                )
            },
{
    let y = luma_plane(frame);
    let (u, v) = chroma_planes(frame);
    (y, u, v)
}

/// Convert a frame to the two-plane layout: full-resolution luma
/// followed by a single interleaved half-resolution chroma plane.
pub fn rgba_to_nv12(frame: &Frame) -> (nv: Vec<u8>)
    requires
        frame.wf(),
        frame.width >= 2,
        frame.height >= 2,
    ensures
        nv@.len() == frame.width * frame.height + (frame.width / 2) * (frame.height / 2) * 2,
        forall|i: int|
            0 <= i < frame.width * frame.height ==> nv@[i] == luma_at(frame.data@, i),
        forall|bx: int, by: int|
            0 <= bx < frame.width / 2 && 0 <= by < frame.height / 2
                ==> nv@[frame.width * frame.height + (by * (frame.width / 2) + bx) * 2]
                == #[trigger] chroma_u_at(frame.data@, frame.width as int, bx, by),
        forall|bx: int, by: int|
            0 <= bx < frame.width / 2 && 0 <= by < frame.height / 2
                ==> nv@[frame.width * frame.height + (by * (frame.width / 2) + bx) * 2 + 1]
                == #[trigger] chroma_v_at(frame.data@, frame.width as int, bx, by),
{
    let dlen = frame.data.len();
    assert(frame.width * frame.height * 4 <= usize::MAX);
    let w = frame.width as usize;
    let h = frame.height as usize;
    let cw: usize = w / 2;
    let ch: usize = h / 2;
    let n: usize = w * h;
    let mut nv = luma_plane(frame);
    let (u, v) = chroma_planes(frame);
    proof {
        assert(cw * ch == ch * cw) by (nonlinear_arith);
        assert(4 * (cw * ch) <= 4 * n) by (nonlinear_arith)
            requires
                cw <= w,
                ch <= h,
                cw >= 0,
                ch >= 0,
                w >= 0,
                h >= 0,
                n == w * h,
        ;
    }
    let m: usize = cw * ch;
    let ghost data = frame.data@;
    let mut j: usize = 0;
    while j < m
        invariant
            m == cw * ch,
            u@.len() == m,
            v@.len() == m,
            4 * m <= 4 * n,
            n <= usize::MAX / 4,
            j <= m,
            data == frame.data@,
            nv@.len() == n + 2 * j,
            forall|k: int| 0 <= k < n ==> nv@[k] == #[trigger] luma_at(data, k),
            forall|jj: int| 0 <= jj < j ==> nv@[n + 2 * jj] == #[trigger] u@[jj],
            forall|jj: int| 0 <= jj < j ==> nv@[n + 2 * jj + 1] == #[trigger] v@[jj],
        decreases m - j,
    {
        nv.push(u[j]);
        nv.push(v[j]);
        j = j + 1;
    }
    proof {
        lemma_nv12_shape(
            frame.data@,
            w as int,
            h as int,
            n as int,
            cw as int,
            ch as int,
            u@,
            v@,
            nv@,
        );
    }
    nv
}

/// Transfers the per-plane chroma facts onto the interleaved layout.
proof fn lemma_nv12_shape(
    data: Seq<u8>,
    w: int,
    h: int,
    n: int,
    cw: int,
    ch: int,
    u: Seq<u8>,
    v: Seq<u8>,
    nv: Seq<u8>,
)
    requires
        w >= 2,
        n == w * h,
        cw == w / 2,
        ch == h / 2,
        u.len() == cw * ch,
        v.len() == cw * ch,
        forall|bx: int, by: int|
            0 <= bx < cw && 0 <= by < ch ==> {
                &&& u[by * cw + bx] == #[trigger] chroma_u_at(data, w, bx, by)
                &&& v[by * cw + bx] == chroma_v_at(data, w, bx, by)
            },
        forall|jj: int| 0 <= jj < cw * ch ==> nv[n + 2 * jj] == #[trigger] u[jj],
        forall|jj: int| 0 <= jj < cw * ch ==> nv[n + 2 * jj + 1] == #[trigger] v[jj],
    ensures
        forall|bx: int, by: int|
            0 <= bx < cw && 0 <= by < ch ==> nv[n + (by * cw + bx) * 2]
                == #[trigger] chroma_u_at(data, w, bx, by),
        forall|bx: int, by: int|
            0 <= bx < cw && 0 <= by < ch ==> nv[n + (by * cw + bx) * 2 + 1]
                == #[trigger] chroma_v_at(data, w, bx, by),
{
    assert forall|bx: int, by: int| 0 <= bx < cw && 0 <= by < ch implies nv[n + (by * cw + bx)
        * 2] == #[trigger] chroma_u_at(data, w, bx, by) by {
        let jj = by * cw + bx;
        assert(0 <= jj < cw * ch) by (nonlinear_arith)
            requires
                0 <= bx < cw,
                0 <= by < ch,
                jj == by * cw + bx,
        ;
        assert(u[jj] == chroma_u_at(data, w, bx, by));
        assert(nv[n + 2 * jj] == u[jj]);
        assert((by * cw + bx) * 2 == 2 * jj);
    }
    assert forall|bx: int, by: int| 0 <= bx < cw && 0 <= by < ch implies nv[n + (by * cw + bx)
        * 2 + 1] == #[trigger] chroma_v_at(data, w, bx, by) by {
        let jj = by * cw + bx;
        assert(0 <= jj < cw * ch) by (nonlinear_arith)
            requires
                0 <= bx < cw,
                0 <= by < ch,
                jj == by * cw + bx,
        ;
        assert(u[jj] == chroma_u_at(data, w, bx, by));
        assert(v[jj] == chroma_v_at(data, w, bx, by));
        assert(nv[n + 2 * jj + 1] == v[jj]);
        assert((by * cw + bx) * 2 == 2 * jj);
    }
}

/// The two chroma layouts agree pixel-for-pixel when derived from the
/// same source frame: the separate planes of `rgba_to_yuv420` hold, at
/// each block index, exactly the pair that `rgba_to_nv12` interleaves.
pub proof fn lemma_chroma_layouts_agree(
    data: Seq<u8>,
    w: int,
    h: int,
    u: Seq<u8>,
    v: Seq<u8>,
    nv: Seq<u8>,
)
    requires
        w >= 2,
        forall|bx: int, by: int|
            0 <= bx < w / 2 && 0 <= by < h / 2 ==> {
                &&& u[by * (w / 2) + bx] == #[trigger] chroma_u_at(data, w, bx, by)
                &&& v[by * (w / 2) + bx] == chroma_v_at(data, w, bx, by)
            },
        forall|bx: int, by: int|
            0 <= bx < w / 2 && 0 <= by < h / 2 ==> {
                &&& nv[w * h + (by * (w / 2) + bx) * 2] == #[trigger] chroma_u_at(
                    data,
                    w,
                    bx,
                    by,
                )
                &&& nv[w * h + (by * (w / 2) + bx) * 2 + 1] == chroma_v_at(data, w, bx, by)
            },
    ensures
        forall|j: int|
            0 <= j < (w / 2) * (h / 2) ==> #[trigger] u[j] == nv[w * h + 2 * j],
        forall|j: int|
            0 <= j < (w / 2) * (h / 2) ==> #[trigger] v[j] == nv[w * h + 2 * j + 1],
{
    let cw = w / 2;
    assert forall|j: int| 0 <= j < cw * (h / 2) implies #[trigger] u[j] == nv[w * h + 2 * j] by {
        let by = j / cw;
        let bx = j % cw;
        vstd::arithmetic::div_mod::lemma_fundamental_div_mod(j, cw);
        vstd::arithmetic::div_mod::lemma_mod_bound(j, cw);
        assert(0 <= by < h / 2) by (nonlinear_arith)
            requires
                cw >= 1,
                0 <= j < cw * (h / 2),
                by == j / cw,
        ;
        assert(j == by * cw + bx) by (nonlinear_arith)
            requires
                j == cw * by + bx,
        ;
        assert(u[by * cw + bx] == chroma_u_at(data, w, bx, by));
        assert(nv[w * h + (by * cw + bx) * 2] == chroma_u_at(data, w, bx, by));
        assert((by * cw + bx) * 2 == 2 * j);
    }
    assert forall|j: int| 0 <= j < cw * (h / 2) implies #[trigger] v[j] == nv[w * h + 2 * j
        + 1] by {
        let by = j / cw;
        let bx = j % cw;
        vstd::arithmetic::div_mod::lemma_fundamental_div_mod(j, cw);
        vstd::arithmetic::div_mod::lemma_mod_bound(j, cw);
        assert(0 <= by < h / 2) by (nonlinear_arith)
            requires
                cw >= 1,
                0 <= j < cw * (h / 2),
                by == j / cw,
        ;
        assert(j == by * cw + bx) by (nonlinear_arith)
            requires
                j == cw * by + bx,
        ;
        assert(u[by * cw + bx] == chroma_u_at(data, w, bx, by));
        assert(v[by * cw + bx] == chroma_v_at(data, w, bx, by));
        assert(nv[w * h + (by * cw + bx) * 2] == chroma_u_at(data, w, bx, by));
        assert(nv[w * h + (by * cw + bx) * 2 + 1] == chroma_v_at(data, w, bx, by));
        assert((by * cw + bx) * 2 == 2 * j);
    }
}

} // verus!
