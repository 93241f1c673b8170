//! Fallback H.264 parameter-set synthesis.
//!
//! When a backend never exposes its parameter sets, the pipeline still
//! needs a muxable header.  This module synthesizes a minimal,
//! spec-valid Baseline-profile SPS/PPS pair purely from the configured
//! width and height, writing the variable-length fields with an
//! explicit Exp-Golomb bit accumulator folded into bytes.

use vstd::prelude::*;

verus! {

/// A run of `n` zero bits.
pub open spec fn zero_bits(n: int) -> Seq<bool> {
    Seq::new(n as nat, |i: int| false)
}

/// The value `v` written in `n` binary digits, most significant first.
pub open spec fn bin_bits(v: int, n: int) -> Seq<bool>
    decreases n,
{
    if n <= 0 {
        Seq::empty()
    } else {
        bin_bits(v / 2, n - 1).push(v % 2 == 1)
    }
}

/// The number of binary digits of `v` (1 for 0 and 1).
pub open spec fn num_bits(v: int) -> int
    decreases v,
{
    if v <= 1 {
        1
    } else {
        1 + num_bits(v / 2)
    }
}

/// The unsigned Exp-Golomb code of `v`: as many zeros as `v + 1` has
/// binary digits less one, then `v + 1` in binary.
pub open spec fn expg_bits(v: int) -> Seq<bool> {
    zero_bits(num_bits(v + 1) - 1) + bin_bits(v + 1, num_bits(v + 1))
}

/// The bits of `v`, least significant first, down to the last one.
pub open spec fn lsb_bits(v: int) -> Seq<bool>
    decreases v,
{
    if v <= 0 {
        Seq::empty()
    } else {
        seq![v % 2 == 1] + lsb_bits(v / 2)
    }
}

/// Every value has at least one binary digit.
proof fn lemma_num_bits_pos(v: int)
    ensures
        num_bits(v) >= 1,
    decreases v,
{
    if v > 1 {
        lemma_num_bits_pos(v / 2);
    }
}

/// A binary spelling has exactly the requested number of digits.
proof fn lemma_bin_bits_len(v: int, n: int)
    requires
        n >= 0,
    ensures
        bin_bits(v, n).len() == n,
    decreases n,
{
    if n > 0 {
        lemma_bin_bits_len(v / 2, n - 1);
    }
}

/// For a positive value the two spellings agree: the reversed
/// least-significant-first bits are the binary digits.
proof fn lemma_lsb_bits(v: int)
    requires
        v >= 1,
    ensures
        lsb_bits(v).len() == num_bits(v),
        lsb_bits(v).reverse() == bin_bits(v, num_bits(v)),
    decreases v,
{
    if v == 1 {
        assert(lsb_bits(0) =~= Seq::<bool>::empty());
        assert(lsb_bits(1) =~= seq![true]);
        assert(bin_bits(0, 0) =~= Seq::<bool>::empty());
        assert(bin_bits(1, 1) =~= seq![true]);
        assert(lsb_bits(1).reverse() =~= seq![true]);
    } else {
        lemma_lsb_bits(v / 2);
        assert(lsb_bits(v) == seq![v % 2 == 1] + lsb_bits(v / 2));
        assert(lsb_bits(v).reverse() =~= lsb_bits(v / 2).reverse().push(v % 2 == 1));
        assert(bin_bits(v, num_bits(v)) == bin_bits(v / 2, num_bits(v) - 1).push(v % 2 == 1));
    }
}

/// Append the unsigned Exp-Golomb code of `value` to a bit
/// accumulator.
pub fn encode_exp_golomb(bits: &mut Vec<bool>, value: u32)
    requires
        value < 0xFFFFFFFFu32,
    ensures
        final(bits)@ == old(bits)@ + expg_bits(value as int),
{
    let ghost base = bits@;
    let vp1: u32 = value + 1;
    let mut tmp: Vec<bool> = Vec::new();
    let mut x: u32 = vp1;
    while x > 0
        invariant
            lsb_bits(vp1 as int) == tmp@ + lsb_bits(x as int),
        decreases x,
    {
        tmp.push(x % 2 == 1);
        proof {
            assert(lsb_bits(x as int) == seq![x % 2 == 1] + lsb_bits(x as int / 2));
            assert(lsb_bits(vp1 as int) =~= tmp@ + lsb_bits(x as int / 2));
        }
        x = x / 2;
    }
    proof {
        assert(lsb_bits(0int) =~= Seq::<bool>::empty());
        assert(lsb_bits(vp1 as int) =~= tmp@);
        lemma_lsb_bits(vp1 as int);
    }
    let nb = tmp.len();
    // Leading zeros.
    let mut i: usize = 0;
    while i < nb - 1
        invariant
            nb >= 1,
            i <= nb - 1,
            bits@ == base + zero_bits(i as int),
        decreases nb - i,
    {
        bits.push(false);
        proof {
            assert(bits@ =~= base + zero_bits(i + 1));
        }
        i = i + 1;
    }
    // The value, most significant bit first.
    let ghost mid = bits@;
    let mut j: usize = nb;
    while j > 0
        invariant
            j <= nb,
            nb == tmp@.len(),
            bits@ == mid + tmp@.reverse().take(nb - j),
        decreases j,
    {
        bits.push(tmp[j - 1]);
        proof {
            assert(tmp@.reverse()[nb - j] == tmp@[j - 1]);
            assert(bits@ =~= mid + tmp@.reverse().take(nb - (j - 1)));
        }
        j = j - 1;
    }
    proof {
        assert(tmp@.reverse().take(nb as int) =~= tmp@.reverse());
        assert(bits@ =~= base + expg_bits(value as int));
    }
}

/// The byte a group of eight bits folds into, most significant first.
pub open spec fn byte_of(b: Seq<bool>) -> u8 {
    ((if b[0] { 128int } else { 0int }) + (if b[1] { 64int } else { 0int }) + (if b[2] {
        32int
    } else {
        0int
    }) + (if b[3] { 16int } else { 0int }) + (if b[4] { 8int } else { 0int }) + (if b[5] {
        4int
    } else {
        0int
    }) + (if b[6] { 2int } else { 0int }) + (if b[7] { 1int } else { 0int })) as u8
}

/// A bit sequence folded into bytes, eight at a time, most significant
/// bit first.
pub open spec fn bits_to_bytes(b: Seq<bool>) -> Seq<u8>
    decreases b.len(),
{
    if b.len() < 8 {
        Seq::empty()
    } else {
        seq![byte_of(b.take(8))] + bits_to_bytes(b.skip(8))
    }
}

/// Fold a bit accumulator into bytes; a final partial group is padded
/// with zero bits.
pub fn fold_bits(bits: &Vec<bool>) -> (r: Vec<u8>)
    requires
        bits@.len() % 8 == 0,
    ensures
        r@ == bits_to_bytes(bits@),
{
    let n = bits.len();
    let mut r: Vec<u8> = Vec::new();
    let mut i: usize = 0;
    proof {
        assert(bits@.skip(0) =~= bits@);
        assert(Seq::<u8>::empty() + bits_to_bytes(bits@) =~= bits_to_bytes(bits@));
    }
    while n >= 8 && i <= n - 8
        invariant
            n == bits@.len(),
            n % 8 == 0,
            i % 8 == 0,
            i <= n,
            bits_to_bytes(bits@) == r@ + bits_to_bytes(bits@.skip(i as int)),
        decreases n - i,
    {
        let mut byte: u16 = 0;
        if bits[i] {
            byte = byte + 128;
        }
        if bits[i + 1] {
            byte = byte + 64;
        }
        if bits[i + 2] {
            byte = byte + 32;
        }
        if bits[i + 3] {
            byte = byte + 16;
        }
        if bits[i + 4] {
            byte = byte + 8;
        }
        if bits[i + 5] {
            byte = byte + 4;
        }
        if bits[i + 6] {
            byte = byte + 2;
        }
        if bits[i + 7] {
            byte = byte + 1;
        }
        r.push(byte as u8);
        proof {
            let t = bits@.skip(i as int);
            assert(t.len() >= 8);
            assert(t[0] == bits@[i as int]);
            assert(t[1] == bits@[i as int + 1]);
            assert(t[2] == bits@[i as int + 2]);
            assert(t[3] == bits@[i as int + 3]);
            assert(t[4] == bits@[i as int + 4]);
            assert(t[5] == bits@[i as int + 5]);
            assert(t[6] == bits@[i as int + 6]);
            assert(t[7] == bits@[i as int + 7]);
            assert(byte as u8 == byte_of(t.take(8)));
            assert(t.skip(8) =~= bits@.skip(i + 8));
            assert(bits_to_bytes(t) == seq![byte_of(t.take(8))] + bits_to_bytes(t.skip(8)));
            assert(bits_to_bytes(bits@) =~= r@ + bits_to_bytes(bits@.skip(i + 8)));
        }
        i = i + 8;
    }
    proof {
        assert(bits@.skip(i as int).len() < 8);
        assert(bits_to_bytes(bits@.skip(i as int)) =~= Seq::<u8>::empty());
        assert(r@ + Seq::<u8>::empty() =~= r@);
    }
    r
}

/// The variable-length payload bits of the fallback SPS, after its
/// four fixed header bytes: in order, the sequence-parameter-set id,
/// the frame-number range, the picture-order-count type, the reference
/// frame count, the frame-number gap flag, the macroblock-grid width
/// and height less one, and the four closing flags with the stop bit.
pub open spec fn sps_payload_bits(mbw1: int, mbh1: int) -> Seq<bool> {
    seq![true]  // seq_parameter_set_id = 0
     + seq![true]  // log2_max_frame_num_minus4 = 0
     + seq![false, true, true]  // pic_order_cnt_type = 2
     + seq![false, true, false]  // max_num_ref_frames = 1
     + seq![false]  // gaps_in_frame_num_value_allowed_flag = 0
     + expg_bits(mbw1)  // pic_width_in_mbs_minus1
     + expg_bits(mbh1)  // pic_height_in_map_units_minus1
     + seq![true]  // frame_mbs_only_flag = 1
     + seq![true]  // direct_8x8_inference_flag = 1
     + seq![false]  // frame_cropping_flag = 0
     + seq![false]  // vui_parameters_present_flag = 0
     + seq![true]  // rbsp stop bit
}

/// Zero padding to the next byte boundary.
pub open spec fn pad_to_byte(b: Seq<bool>) -> Seq<bool> {
    b + zero_bits((8 - b.len() % 8) % 8)
}

/// The macroblock-grid extent of a pixel dimension.
pub open spec fn mb_count(dim: int) -> int {
    (dim + 15) / 16
}

/// The synthesized fallback SPS: NAL header (type 7), Baseline
/// profile, constraint flags, level 4.0, then the payload bits folded
/// into bytes.
pub open spec fn fallback_sps(width: int, height: int) -> Seq<u8> {
    seq![0x67u8, 66u8, 0xC0u8, 40u8] + bits_to_bytes(
        pad_to_byte(sps_payload_bits(mb_count(width) - 1, mb_count(height) - 1)),
    )
}

/// The synthesized fallback PPS: NAL header (type 8) and the fixed
/// three-byte body (all-default fields, CAVLC, one reference each
/// way, stop bit).
pub open spec fn fallback_pps() -> Seq<u8> {
    seq![0x68u8, 0xCEu8, 0x3Cu8, 0x80u8]
}

/// Synthesize the minimal Baseline-profile SPS/PPS pair for the
/// configured dimensions.
#[verifier::rlimit(80)]
pub fn generate_fallback_sps_pps(width: u32, height: u32) -> (r: (Vec<u8>, Vec<u8>))
    requires
        1 <= width <= 0xFFFFFFF0u32,
        1 <= height <= 0xFFFFFFF0u32,
    ensures
        r.0@ == fallback_sps(width as int, height as int),
        r.1@ == fallback_pps(),
{
    let mb_width: u32 = (width + 15) / 16;
    let mb_height: u32 = (height + 15) / 16;
    let pic_width_minus1: u32 = mb_width - 1;
    let pic_height_minus1: u32 = mb_height - 1;

    let mut sps: Vec<u8> = Vec::new();
    sps.push(0x67);  // NAL header: nal_ref_idc 3, type 7 (SPS)
    sps.push(66);  // profile_idc: Baseline
    sps.push(0xC0);  // constraint flags and reserved zeros
    sps.push(40);  // level_idc: level 4.0

    let mut bits: Vec<bool> = Vec::new();
    bits.push(true);  // seq_parameter_set_id = 0
    bits.push(true);  // log2_max_frame_num_minus4 = 0
    bits.push(false);  // pic_order_cnt_type = 2
    bits.push(true);
    bits.push(true);
    bits.push(false);  // max_num_ref_frames = 1
    bits.push(true);
    bits.push(false);
    bits.push(false);  // gaps_in_frame_num_value_allowed_flag = 0
    encode_exp_golomb(&mut bits, pic_width_minus1);
    encode_exp_golomb(&mut bits, pic_height_minus1);
    bits.push(true);  // frame_mbs_only_flag = 1
    bits.push(true);  // direct_8x8_inference_flag = 1
    bits.push(false);  // frame_cropping_flag = 0
    bits.push(false);  // vui_parameters_present_flag = 0
    bits.push(true);  // rbsp stop bit
    proof {
        assert(bits@ =~= sps_payload_bits(
            pic_width_minus1 as int,
            pic_height_minus1 as int,
        ));
    }
    let ghost payload = bits@;
    let ghost pad = (8 - payload.len() % 8) % 8;
    while bits.len() % 8 != 0
        invariant
            payload == sps_payload_bits(pic_width_minus1 as int, pic_height_minus1 as int),
            pad == (8 - payload.len() % 8) % 8,
            payload.len() <= bits@.len() <= payload.len() + pad,
            bits@.take(payload.len() as int) == payload,
            forall|k: int| payload.len() <= k < bits@.len() ==> !bits@[k],
        decreases payload.len() + pad - bits@.len(),
    {
        proof {
            assert((payload.len() + pad) % 8 == 0);
            assert(bits@.len() < payload.len() + pad);
        }
        bits.push(false);
    }
    proof {
        assert(bits@ =~= pad_to_byte(payload));
    }
    let body = fold_bits(&bits);
    let mut i: usize = 0;
    let n = body.len();
    let ghost head = sps@;
    while i < n
        invariant
            n == body@.len(),
            i <= n,
            sps@ == head + body@.take(i as int),
        decreases n - i,
    {
        sps.push(body[i]);
        proof {
            assert(sps@ =~= head + body@.take(i + 1));
        }
        i = i + 1;
    }
    proof {
        assert(body@.take(n as int) =~= body@);
        assert(sps@ =~= fallback_sps(width as int, height as int));
    }

    let mut pps: Vec<u8> = Vec::new();
    pps.push(0x68);  // NAL header: nal_ref_idc 3, type 8 (PPS)
    pps.push(0xCE);
    pps.push(0x3C);
    pps.push(0x80);
    proof {
        assert(pps@ =~= fallback_pps());
    }
    (sps, pps)
}

/// Powers of two.
pub open spec fn two_pow(n: int) -> int
    decreases n,
{
    if n <= 0 {
        1
    } else {
        2 * two_pow(n - 1)
    }
}

/// `num_bits` is exact: the value lies between the two powers.
proof fn lemma_num_bits_range(v: int)
    requires
        v >= 1,
    ensures
        two_pow(num_bits(v) - 1) <= v < two_pow(num_bits(v)),
    decreases v,
{
    if v > 1 {
        lemma_num_bits_range(v / 2);
    }
}

/// Binary digits read back as the value they encode.
proof fn lemma_bin_val(v: int, n: int)
    requires
        n >= 0,
        0 <= v < two_pow(n),
    ensures
        bin_val(bin_bits(v, n)) == v,
    decreases n,
{
    if n == 0 {
    } else {
        lemma_bin_val(v / 2, n - 1);
        let b = bin_bits(v, n);
        assert(b == bin_bits(v / 2, n - 1).push(v % 2 == 1));
        assert(b.drop_last() =~= bin_bits(v / 2, n - 1));
        assert(b.last() == (v % 2 == 1));
    }
}

/// The leading digit of an exact-width binary spelling is one.
proof fn lemma_msb_true(v: int)
    requires
        v >= 1,
    ensures
        bin_bits(v, num_bits(v)).len() == num_bits(v),
        bin_bits(v, num_bits(v))[0],
    decreases v,
{
    lemma_num_bits_pos(v);
    lemma_bin_bits_len(v, num_bits(v));
    if v == 1 {
        assert(bin_bits(0, 0) =~= Seq::<bool>::empty());
        assert(bin_bits(1, 1) =~= seq![true]);
    } else {
        lemma_msb_true(v / 2);
        lemma_num_bits_pos(v / 2);
        let n = num_bits(v);
        assert(n == 1 + num_bits(v / 2));
        assert(bin_bits(v, n) == bin_bits(v / 2, n - 1).push(v % 2 == 1));
        assert(bin_bits(v / 2, n - 1).len() == n - 1);
        assert(bin_bits(v, n)[0] == bin_bits(v / 2, n - 1)[0]);
    }
}

/// Count of leading zero bits.
pub open spec fn leading_zeros(b: Seq<bool>) -> int
    decreases b.len(),
{
    if b.len() == 0 || b[0] {
        0
    } else {
        1 + leading_zeros(b.drop_first())
    }
}

/// Value of binary digits, most significant first.
pub open spec fn bin_val(b: Seq<bool>) -> int
    decreases b.len(),
{
    if b.len() == 0 {
        0
    } else {
        2 * bin_val(b.drop_last()) + (if b.last() {
            1int
        } else {
            0int
        })
    }
}

/// Reading one unsigned Exp-Golomb code off the front of a bit
/// stream: count the leading zeros, read one more digit than that,
/// subtract one; the remainder follows.
pub open spec fn read_expg(b: Seq<bool>) -> Option<(int, Seq<bool>)> {
    let k = leading_zeros(b);
    if 2 * k + 1 > b.len() {
        None
    } else {
        Some((bin_val(b.subrange(k, 2 * k + 1)) - 1, b.skip(2 * k + 1)))
    }
}

/// A zero run followed by a one-headed tail has exactly that many
/// leading zeros.
proof fn lemma_leading_zeros_run(k: int, tail: Seq<bool>)
    requires
        k >= 0,
        tail.len() > 0,
        tail[0],
    ensures
        leading_zeros(zero_bits(k) + tail) == k,
    decreases k,
{
    let b = zero_bits(k) + tail;
    if k == 0 {
        assert(b[0] == tail[0]);
    } else {
        assert(!b[0]);
        assert(b.drop_first() =~= zero_bits(k - 1) + tail);
        lemma_leading_zeros_run(k - 1, tail);
    }
}

/// Reading undoes writing: one Exp-Golomb code followed by anything
/// decodes to the encoded value and the remainder, exactly.
pub proof fn lemma_read_expg(v: int, rest: Seq<bool>)
    requires
        v >= 0,
    ensures
        read_expg(expg_bits(v) + rest) == Some((v, rest)),
{
    let k = num_bits(v + 1) - 1;
    let bin = bin_bits(v + 1, k + 1);
    lemma_num_bits_pos(v + 1);
    lemma_bin_bits_len(v + 1, k + 1);
    lemma_msb_true(v + 1);
    assert(bin.len() == k + 1);
    assert(bin[0]);
    let b = expg_bits(v) + rest;
    assert(b =~= zero_bits(k) + (bin + rest));
    assert((bin + rest)[0] == bin[0]);
    lemma_leading_zeros_run(k, bin + rest);
    assert(leading_zeros(b) == k);
    assert(b.len() == k + (k + 1) + rest.len());
    assert(b.subrange(k, 2 * k + 1) =~= bin);
    lemma_num_bits_range(v + 1);
    lemma_bin_val(v + 1, k + 1);
    assert(bin_val(bin) == v + 1);
    assert(b.skip(2 * k + 1) =~= rest);
}

/// The synthesized fallback SPS is well-formed where it matters: after
/// the nine fixed flag bits of the payload, its two Exp-Golomb fields
/// decode, in order, to the macroblock-grid width and height less one
/// that the configured pixel dimensions prescribe, and the closing
/// flag bits follow.
pub proof fn lemma_fallback_sps_decodes(width: int, height: int)
    requires
        1 <= width,
        1 <= height,
    ensures
        ({
            let bits = sps_payload_bits(mb_count(width) - 1, mb_count(height) - 1);
            let first = read_expg(bits.skip(9));
            &&& first is Some
            &&& ({
                let (w1, tail1) = first->0;
                &&& w1 + 1 == mb_count(width)
                &&& ({
                    let second = read_expg(tail1);
                    &&& second is Some
                    &&& ({
                        let (h1, tail2) = second->0;
                        &&& h1 + 1 == mb_count(height)
                        &&& tail2 == seq![true, true, false, false, true]
                    })
                })
            })
        }),
{
    let mbw1 = mb_count(width) - 1;
    let mbh1 = mb_count(height) - 1;
    assert(mbw1 >= 0 && mbh1 >= 0);
    let bits = sps_payload_bits(mbw1, mbh1);
    let closing = seq![true, true, false, false, true];
    assert(bits.skip(9) =~= expg_bits(mbw1) + (expg_bits(mbh1) + closing));
    lemma_read_expg(mbw1, expg_bits(mbh1) + closing);
    lemma_read_expg(mbh1, closing);
}

} // verus!
