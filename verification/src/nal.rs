//! H.264 NAL-unit handling: scanning the two wire layouts
//! (start-code-delimited "Annex B" and length-prefixed "AVCC"),
//! converting between them, locating parameter sets, and splitting a
//! raw elementary stream into packets.

use vstd::prelude::*;
use crate::encoder::Packet;

verus! {

/// A byte position holds a 3-byte start code `00 00 01`.
pub open spec fn match3(s: Seq<u8>, i: int) -> bool {
    s[i] == 0 && s[i + 1] == 0 && s[i + 2] == 1
}

/// A byte position holds a 4-byte start code `00 00 00 01` whose last
/// byte is still inside the buffer.
pub open spec fn match4(s: Seq<u8>, i: int) -> bool {
    s[i] == 0 && s[i + 1] == 0 && i + 3 < s.len() && s[i + 2] == 0 && s[i + 3] == 1
}

/// The first start code at or after position `i`: its position and its
/// length.  A 3-byte code is preferred at each position, matching the
/// scanning order of the stream splitter.
pub open spec fn find_sc(s: Seq<u8>, i: int) -> Option<(int, int)>
    decreases s.len() - i,
{
    if i < 0 || i + 3 > s.len() {
        None
    } else if match3(s, i) {
        Some((i, 3))
    } else if match4(s, i) {
        Some((i, 4))
    } else {
        find_sc(s, i + 1)
    }
}

/// Facts about every `find_sc` hit: it lies at or after the scan
/// start, its length is 3 or 4, and it fits inside the buffer.
pub proof fn lemma_find_sc_some(s: Seq<u8>, i: int)
    requires
        find_sc(s, i) is Some,
    ensures
        ({
            let (p, l) = find_sc(s, i)->0;
            &&& i <= p
            &&& l == 3 || l == 4
            &&& p + l <= s.len()
        }),
    decreases s.len() - i,
{
    if i < 0 || i + 3 > s.len() {
    } else if match3(s, i) {
    } else if match4(s, i) {
    } else {
        lemma_find_sc_some(s, i + 1);
    }
}

/// The end of the payload that starts at `nstart`: the next start code,
/// or the end of the buffer.
pub open spec fn payload_end(s: Seq<u8>, nstart: int) -> int {
    match find_sc(s, nstart) {
        Some((p, _)) => p,
        None => s.len() as int,
    }
}

/// The payloads of all start-code-delimited NAL units at or after
/// position `pos`, in stream order, empty payloads skipped.
pub open spec fn scan_annexb(s: Seq<u8>, pos: int) -> Seq<Seq<u8>>
    decreases s.len() - pos,
    when pos >= 0
    via scan_annexb_decreases
{
    match find_sc(s, pos) {
        None => Seq::empty(),
        Some((sc, scl)) => {
            let nstart = sc + scl;
            let nend = payload_end(s, nstart);
            let payload = s.subrange(nstart, nend);
            let rest = scan_annexb(s, nend);
            if payload.len() > 0 {
                seq![payload] + rest
            } else {
                rest
            }
        },
    }
}

#[via_fn]
proof fn scan_annexb_decreases(s: Seq<u8>, pos: int) {
    if pos >= 0 && find_sc(s, pos) is Some {
        lemma_find_sc_some(s, pos);
        let (sc, scl) = find_sc(s, pos)->0;
        let nstart = sc + scl;
        if find_sc(s, nstart) is Some {
            lemma_find_sc_some(s, nstart);
        }
    }
}

/// Find the first H.264 start code at or after `start`, returning its
/// position and length.
pub fn find_start_code(data: &Vec<u8>, start: usize) -> (r: Option<(usize, usize)>)
    ensures
        match r {
            Some(pl) => {
                &&& find_sc(data@, start as int) == Some((pl.0 as int, pl.1 as int))
                &&& start <= pl.0
                &&& pl.0 + pl.1 <= data@.len()
                &&& (pl.1 == 3 || pl.1 == 4)
            },
            None => find_sc(data@, start as int) is None,
        },
{
    let len = data.len();
    if len < 3 || start > len - 3 {
        return None;
    }
    let mut i: usize = start;
    while i <= len - 3
        invariant
            len == data@.len(),
            start <= i,
            3 <= len,
            start + 3 <= len,
            find_sc(data@, start as int) == find_sc(data@, i as int),
        decreases len - i,
    {
        if data[i] == 0 && data[i + 1] == 0 {
            if data[i + 2] == 1 {
                return Some((i, 3));
            }
            if i + 3 < len && data[i + 2] == 0 && data[i + 3] == 1 {
                return Some((i, 4));
            }
        }
        i = i + 1;
    }
    None
}

/// Copy the byte range `[a, b)` of a buffer into a fresh vector.
fn copy_range(data: &Vec<u8>, a: usize, b: usize) -> (r: Vec<u8>)
    requires
        a <= b <= data@.len(),
    ensures
        r@ == data@.subrange(a as int, b as int),
{
    let mut r: Vec<u8> = Vec::new();
    let mut i: usize = a;
    while i < b
        invariant
            a <= i <= b <= data@.len(),
            r@ == data@.subrange(a as int, i as int),
        decreases b - i,
    {
        r.push(data[i]);
        proof {
            assert(r@ =~= data@.subrange(a as int, i + 1 as int));
        }
        i = i + 1;
    }
    r
}

/// Split a start-code-delimited stream into its NAL payloads, in
/// stream order, empty payloads skipped.
pub fn parse_annexb_payloads(data: &Vec<u8>) -> (r: Vec<Vec<u8>>)
    ensures
        r@.map_values(|v: Vec<u8>| v@) == scan_annexb(data@, 0),
{
    let dlen = data.len();
    let mut out: Vec<Vec<u8>> = Vec::new();
    let mut pos: usize = 0;
    loop
        invariant
            dlen == data@.len(),
            pos <= dlen || pos == 0,
            scan_annexb(data@, 0) == out@.map_values(|v: Vec<u8>| v@) + scan_annexb(
                data@,
                pos as int,
            ),
        ensures
            out@.map_values(|v: Vec<u8>| v@) == scan_annexb(data@, 0),
        decreases data@.len() - pos + 1,
    {
        match find_start_code(data, pos) {
            None => {
                proof {
                    assert(scan_annexb(data@, pos as int) =~= Seq::<Seq<u8>>::empty());
                    assert(out@.map_values(|v: Vec<u8>| v@) + Seq::<Seq<u8>>::empty()
                        =~= out@.map_values(|v: Vec<u8>| v@));
                }
                break;
            },
            Some((sc, scl)) => {
                let nstart = sc + scl;
                let nend = match find_start_code(data, nstart) {
                    Some((p2, _)) => p2,
                    None => data.len(),
                };
                proof {
                    assert(nend == payload_end(data@, nstart as int));
                    if find_sc(data@, nstart as int) is Some {
                        lemma_find_sc_some(data@, nstart as int);
                    }
                }
                if nend > nstart {
                    let payload = copy_range(data, nstart, nend);
                    out.push(payload);
                    proof {
                        let f = |v: Vec<u8>| v@;
                        assert(out@.map_values(f) =~= out@.drop_last().map_values(f).push(
                            data@.subrange(nstart as int, nend as int),
                        ));
                        assert(scan_annexb(data@, pos as int) == seq![
                            data@.subrange(nstart as int, nend as int),
                        ] + scan_annexb(data@, nend as int));
                        assert(out@.drop_last().map_values(f) + (seq![
                            data@.subrange(nstart as int, nend as int),
                        ] + scan_annexb(data@, nend as int)) =~= out@.map_values(f)
                            + scan_annexb(data@, nend as int));
                    }
                } else {
                    proof {
                        assert(data@.subrange(nstart as int, nend as int).len() == 0);
                        assert(scan_annexb(data@, pos as int) == scan_annexb(
                            data@,
                            nend as int,
                        ));
                    }
                }
                pos = nend;
            },
        }
    }
    out
}

/// Big-endian 4-byte encoding of a length.
pub open spec fn be32(n: int) -> Seq<u8> {
    seq![
        ((n / 0x1000000) % 256) as u8,
        ((n / 0x10000) % 256) as u8,
        ((n / 0x100) % 256) as u8,
        (n % 256) as u8,
    ]
}

/// The value of the big-endian 4-byte length prefix at the front of a
/// buffer.
pub open spec fn be32_val(s: Seq<u8>) -> int {
    s[0] * 0x1000000 + s[1] * 0x10000 + s[2] * 0x100 + s[3]
}

/// Decoding inverts encoding for every length that fits four bytes.
pub proof fn lemma_be32_roundtrip(n: int)
    by (nonlinear_arith)
    requires
        0 <= n <= 0xFFFFFFFF,
    ensures
        be32(n)[0] * 0x1000000 + be32(n)[1] * 0x10000 + be32(n)[2] * 0x100 + be32(n)[3] == n,
{
}

/// The length-prefixed ("AVCC") encoding of a list of NAL payloads:
/// each payload preceded by its 4-byte big-endian length.
pub open spec fn avcc_encode(nals: Seq<Seq<u8>>) -> Seq<u8>
    decreases nals.len(),
{
    if nals.len() == 0 {
        Seq::empty()
    } else {
        be32(nals[0].len() as int) + nals[0] + avcc_encode(nals.drop_first())
    }
}

/// The start-code-delimited ("Annex B") encoding of a list of NAL
/// payloads: each payload preceded by a 4-byte start code.
pub open spec fn annexb_encode(nals: Seq<Seq<u8>>) -> Seq<u8>
    decreases nals.len(),
{
    if nals.len() == 0 {
        Seq::empty()
    } else {
        seq![0u8, 0u8, 0u8, 1u8] + nals[0] + annexb_encode(nals.drop_first())
    }
}

/// What the AVCC-to-Annex-B rewriter produces from arbitrary bytes:
/// length-prefixed records are rewritten with a 4-byte start code, in
/// order, stopping at a truncated record.
pub open spec fn avcc_to_annexb_spec(s: Seq<u8>) -> Seq<u8>
    decreases s.len(),
{
    if s.len() < 4 {
        Seq::empty()
    } else {
        let n = be32_val(s);
        if 4 + n > s.len() {
            Seq::empty()
        } else {
            seq![0u8, 0u8, 0u8, 1u8] + s.subrange(4, 4 + n) + avcc_to_annexb_spec(
                s.skip(4 + n),
            )
        }
    }
}

/// The payloads of all length-prefixed NAL units of a buffer, stopping
/// at a zero length or a truncated record.
pub open spec fn scan_avcc(s: Seq<u8>) -> Seq<Seq<u8>>
    decreases s.len(),
{
    if s.len() < 5 {
        Seq::empty()
    } else {
        let n = be32_val(s);
        if n == 0 || 4 + n > s.len() {
            Seq::empty()
        } else {
            seq![s.subrange(4, 4 + n)] + scan_avcc(s.skip(4 + n))
        }
    }
}

/// A payload carries no 3-byte start code pattern anywhere inside.
pub open spec fn no_start_code(p: Seq<u8>) -> bool {
    forall|k: int|
        0 <= k && k + 2 < p.len() ==> !(#[trigger] p[k] == 0 && p[k + 1] == 0 && p[k + 2] == 1)
}

/// A NAL payload that both wire layouts can carry and recover exactly:
/// nonempty, and free of start-code patterns.
pub open spec fn wf_nal(p: Seq<u8>) -> bool {
    p.len() > 0 && no_start_code(p)
}

/// Every payload of the list is well-formed.
pub open spec fn wf_nals(nals: Seq<Seq<u8>>) -> bool {
    forall|i: int| 0 <= i < nals.len() ==> wf_nal(#[trigger] nals[i])
}

/// Some start code, of either length, begins at position `k`.
pub open spec fn sc_at(s: Seq<u8>, k: int) -> bool {
    match3(s, k) || match4(s, k)
}

/// No position of `[i, j)` that the scanner would test matches a
/// start code.
pub open spec fn no_sc_in_range(s: Seq<u8>, i: int, j: int) -> bool {
    forall|k: int| i <= k < j && k + 3 <= s.len() ==> !#[trigger] sc_at(s, k)
}

/// Scanning for a start code gives the same result from `i` as from
/// `j` when no position in `[i, j)` matches.
proof fn lemma_find_sc_step_range(s: Seq<u8>, i: int, j: int)
    requires
        0 <= i <= j,
        no_sc_in_range(s, i, j),
    ensures
        find_sc(s, i) == find_sc(s, j),
    decreases j - i,
{
    if i < j {
        if i + 3 > s.len() {
            assert(j + 3 > s.len());
            assert(find_sc(s, i) is None);
            assert(find_sc(s, j) is None);
        } else {
            assert(i <= i < j && i + 3 <= s.len());
            assert(!sc_at(s, i));
            assert(no_sc_in_range(s, i + 1, j)) by {
                assert forall|k: int|
                    i + 1 <= k < j && k + 3 <= s.len() implies !#[trigger] sc_at(s, k) by {
                    assert(i <= k < j);
                }
            }
            lemma_find_sc_step_range(s, i + 1, j);
        }
    }
}

/// Scanning a suffix sees the same start codes, shifted.
proof fn lemma_find_sc_shift(s: Seq<u8>, base: int, i: int)
    requires
        0 <= base <= i,
        base <= s.len(),
    ensures
        find_sc(s, i) == match find_sc(s.skip(base), i - base) {
            Some((p, l)) => Some((p + base, l)),
            None => None::<(int, int)>,
        },
    decreases s.len() - i,
{
    let t = s.skip(base);
    if i + 3 > s.len() {
        assert((i - base) + 3 > t.len());
    } else {
        assert(t[i - base] == s[i]);
        assert(t[i - base + 1] == s[i + 1]);
        assert(t[i - base + 2] == s[i + 2]);
        if i + 3 < s.len() {
            assert(t[i - base + 3] == s[i + 3]);
        }
        assert(match3(s, i) == match3(t, i - base));
        assert(match4(s, i) == match4(t, i - base));
        if !match3(s, i) && !match4(s, i) {
            lemma_find_sc_shift(s, base, i + 1);
        }
    }
}

/// Scanning NAL payloads from a position only looks at the suffix.
proof fn lemma_scan_annexb_shift(s: Seq<u8>, base: int, pos: int)
    requires
        0 <= base <= pos,
        base <= s.len(),
    ensures
        scan_annexb(s, pos) == scan_annexb(s.skip(base), pos - base),
    decreases s.len() - pos,
{
    let t = s.skip(base);
    lemma_find_sc_shift(s, base, pos);
    match find_sc(s, pos) {
        None => {},
        Some((sc, scl)) => {
            lemma_find_sc_some(s, pos);
            let nstart = sc + scl;
            lemma_find_sc_shift(s, base, nstart);
            let nend = payload_end(s, nstart);
            if find_sc(s, nstart) is Some {
                lemma_find_sc_some(s, nstart);
            }
            assert(payload_end(t, nstart - base) == nend - base);
            assert(s.subrange(nstart, nend) =~= t.subrange(nstart - base, nend - base));
            lemma_scan_annexb_shift(s, base, nend);
        },
    }
}

/// Scanning an Annex-B encoding of well-formed payloads recovers the
/// payload list exactly: the encoder writes only 4-byte start codes,
/// and well-formed payloads cannot create a spurious one.
pub proof fn lemma_scan_annexb_encode(nals: Seq<Seq<u8>>)
    requires
        wf_nals(nals),
    ensures
        scan_annexb(annexb_encode(nals), 0) == nals,
    decreases nals.len(),
{
    let s = annexb_encode(nals);
    if nals.len() == 0 {
        assert(s.len() == 0);
        assert(scan_annexb(s, 0) =~= nals);
    } else {
        let p = nals[0];
        let rest = nals.drop_first();
        let r = annexb_encode(rest);
        let m = p.len() as int;
        let b = 4 + m;
        assert(wf_nal(p));
        assert(wf_nals(rest)) by {
            assert(forall|i: int|
                0 <= i < rest.len() ==> #[trigger] rest[i] == nals[i + 1] && wf_nal(nals[i + 1]));
        }
        assert(s =~= seq![0u8, 0u8, 0u8, 1u8] + p + r);
        assert(s.len() == b + r.len());
        // Indexing of the three regions.
        assert(forall|k: int| 4 <= k < b ==> s[k] == p[k - 4]);
        assert(forall|k: int| b <= k < s.len() ==> s[k] == r[k - b]);
        if rest.len() > 0 {
            assert(r =~= seq![0u8, 0u8, 0u8, 1u8] + rest[0] + annexb_encode(rest.drop_first()));
            assert(r[0] == 0 && r[1] == 0 && r[2] == 0 && r[3] == 1);
            assert(r.len() >= 5);
        }
        // The stream opens with a 4-byte start code.
        assert(s[0] == 0 && s[1] == 0 && s[2] == 0 && s[3] == 1);
        assert(!match3(s, 0));
        assert(match4(s, 0));
        assert(find_sc(s, 0) == Some((0int, 4int)));
        // No position inside the payload matches a start code.
        assert(no_sc_in_range(s, 4, b)) by {
            assert forall|k: int|
                4 <= k < b && k + 3 <= s.len() implies !#[trigger] sc_at(s, k) by {
                lemma_no_match_in_payload(s, p, r, k);
            }
        }
        lemma_find_sc_step_range(s, 4, b);
        if rest.len() == 0 {
            assert(s.len() == b);
            assert(find_sc(s, b) is None);
            assert(payload_end(s, 4) == b);
        } else {
            assert(s[b] == 0 && s[b + 1] == 0 && s[b + 2] == 0 && s[b + 3] == 1);
            assert(b + 3 < s.len());
            assert(!match3(s, b));
            assert(match4(s, b));
            assert(find_sc(s, b) == Some((b, 4int)));
            assert(payload_end(s, 4) == b);
        }
        assert(s.subrange(4, b) =~= p);
        lemma_scan_annexb_shift(s, b, b);
        assert(s.skip(b) =~= r);
        lemma_scan_annexb_encode(rest);
        assert(scan_annexb(s, b) == rest);
        assert(scan_annexb(s, 0) == seq![p] + rest);
        assert(seq![p] + rest =~= nals);
    }
}

/// Inside `start code + payload + rest`, no window that begins in the
/// payload region forms a start code, because the payload holds none
/// and the bytes that follow it begin with three zeros or end the
/// stream.
proof fn lemma_no_match_in_payload(s: Seq<u8>, p: Seq<u8>, r: Seq<u8>, k: int)
    requires
        wf_nal(p),
        s == seq![0u8, 0u8, 0u8, 1u8] + p + r,
        r.len() == 0 || (r.len() >= 5 && r[0] == 0 && r[1] == 0 && r[2] == 0 && r[3] == 1),
        4 <= k < 4 + p.len(),
        k + 3 <= s.len(),
    ensures
        !match3(s, k),
        !match4(s, k),
{
    let m = p.len() as int;
    let b = 4 + m;
    assert(s.len() == b + r.len());
    assert(forall|t: int| 4 <= t < b ==> s[t] == p[t - 4]);
    assert(forall|t: int| b <= t < s.len() ==> s[t] == r[t - b]);
    // Positions of the 3-byte window relative to the payload end.
    if k + 2 < b {
        // whole window inside the payload
        assert(!(p[k - 4] == 0 && p[k - 3] == 0 && p[k - 2] == 1));
        assert(!match3(s, k));
    } else if k + 2 == b {
        // last byte is the first byte of the next start code, a zero
        assert(r.len() > 0);
        assert(s[k + 2] == r[0]);
        assert(!match3(s, k));
    } else {
        // k + 2 == b + 1: the window ends inside the next start code
        assert(r.len() > 0);
        assert(s[k + 2] == r[1]);
        assert(!match3(s, k));
    }
    if k + 3 < s.len() {
        if k + 3 < b {
            // a 4-byte match here would put `00 00 01` inside the payload
            assert(!(p[k - 3] == 0 && p[k - 2] == 0 && p[k - 1] == 1));
            assert(!match4(s, k));
        } else if k + 3 == b {
            assert(r.len() > 0);
            assert(s[k + 3] == r[0]);
            assert(!match4(s, k));
        } else if k + 3 == b + 1 {
            assert(r.len() > 0);
            assert(s[k + 3] == r[1]);
            assert(!match4(s, k));
        } else {
            // k + 3 == b + 2
            assert(r.len() > 0);
            assert(s[k + 3] == r[2]);
            assert(!match4(s, k));
        }
    }
}

/// Read the big-endian 4-byte length prefix at `off`.
fn read_be32(data: &Vec<u8>, off: usize) -> (n: u32)
    requires
        off + 4 <= data@.len(),
    ensures
        n == be32_val(data@.skip(off as int)),
{
    let dlen = data.len();
    let b0 = data[off] as u32;
    let b1 = data[off + 1] as u32;
    let b2 = data[off + 2] as u32;
    let b3 = data[off + 3] as u32;
    let n = b0 * 0x1000000 + b1 * 0x10000 + b2 * 0x100 + b3;
    proof {
        let t = data@.skip(off as int);
        assert(t[0] == data@[off as int]);
        assert(t[1] == data@[off as int + 1]);
        assert(t[2] == data@[off as int + 2]);
        assert(t[3] == data@[off as int + 3]);
    }
    n
}

/// Rewrite a length-prefixed ("AVCC") stream as a start-code-delimited
/// ("Annex B") stream: each record is emitted with a 4-byte start code
/// immediately before its payload, in original order, with no byte
/// loss; a truncated trailing record is dropped.
pub fn convert_avcc_to_annex_b(avcc_data: &Vec<u8>) -> (r: Vec<u8>)
    ensures
        r@ == avcc_to_annexb_spec(avcc_data@),
{
    let dlen = avcc_data.len();
    let mut result: Vec<u8> = Vec::new();
    let mut offset: usize = 0;
    proof {
        assert(avcc_data@.skip(0) =~= avcc_data@);
        assert(Seq::<u8>::empty() + avcc_to_annexb_spec(avcc_data@) =~= avcc_to_annexb_spec(
            avcc_data@,
        ));
    }
    while dlen >= 4 && offset <= dlen - 4
        invariant
            dlen == avcc_data@.len(),
            offset <= dlen,
            avcc_to_annexb_spec(avcc_data@) == result@ + avcc_to_annexb_spec(
                avcc_data@.skip(offset as int),
            ),
        ensures
            avcc_to_annexb_spec(avcc_data@) == result@ + avcc_to_annexb_spec(
                avcc_data@.skip(offset as int),
            ),
            offset + 4 > dlen,
        decreases dlen - offset,
    {
        let nal_length = read_be32(avcc_data, offset) as usize;
        if nal_length > dlen - (offset + 4) {
            proof {
                let t = avcc_data@.skip(offset as int);
                assert(avcc_to_annexb_spec(t) =~= Seq::<u8>::empty());
                assert(avcc_to_annexb_spec(avcc_data@) =~= result@);
            }
            return result;
        }
        result.push(0u8);
        result.push(0u8);
        result.push(0u8);
        result.push(1u8);
        let ghost base = result@;
        let mut i: usize = 0;
        while i < nal_length
            invariant
                offset + 4 + nal_length <= dlen,
                dlen == avcc_data@.len(),
                i <= nal_length,
                result@ == base + avcc_data@.subrange(offset + 4, offset + 4 + i),
            decreases nal_length - i,
        {
            result.push(avcc_data[offset + 4 + i]);
            proof {
                assert(result@ =~= base + avcc_data@.subrange(offset + 4, offset + 4 + i + 1));
            }
            i = i + 1;
        }
        proof {
            let t = avcc_data@.skip(offset as int);
            let n = be32_val(t) as int;
            assert(t.subrange(4, 4 + n) =~= avcc_data@.subrange(
                offset + 4,
                offset + 4 + nal_length,
            ));
            assert(t.skip(4 + n) =~= avcc_data@.skip(offset + 4 + nal_length));
            assert(avcc_to_annexb_spec(t) == seq![0u8, 0u8, 0u8, 1u8] + t.subrange(4, 4 + n)
                + avcc_to_annexb_spec(t.skip(4 + n)));
        }
        offset = offset + 4 + nal_length;
        proof {
            assert(avcc_to_annexb_spec(avcc_data@) =~= result@ + avcc_to_annexb_spec(
                avcc_data@.skip(offset as int),
            ));
        }
    }
    proof {
        assert(avcc_to_annexb_spec(avcc_data@.skip(offset as int)) =~= Seq::<u8>::empty());
        assert(result@ =~= result@ + Seq::<u8>::empty());
    }
    result
}

/// Every length-prefixed record of an AVCC encoding of payloads that
/// fit four length bytes is rewritten with a start code: the rewriter
/// and the Annex-B encoder produce the same bytes.
pub proof fn lemma_avcc_to_annexb_encode(nals: Seq<Seq<u8>>)
    requires
        forall|i: int| 0 <= i < nals.len() ==> (#[trigger] nals[i]).len() <= 0xFFFFFFFF,
    ensures
        avcc_to_annexb_spec(avcc_encode(nals)) == annexb_encode(nals),
    decreases nals.len(),
{
    if nals.len() == 0 {
        assert(avcc_encode(nals).len() == 0);
        assert(avcc_to_annexb_spec(avcc_encode(nals)) =~= annexb_encode(nals));
    } else {
        let p = nals[0];
        let rest = nals.drop_first();
        let n = p.len() as int;
        let s = avcc_encode(nals);
        assert(s =~= be32(n) + p + avcc_encode(rest));
        lemma_be32_roundtrip(n);
        assert(s[0] == be32(n)[0] && s[1] == be32(n)[1] && s[2] == be32(n)[2] && s[3] == be32(
            n,
        )[3]);
        assert(be32_val(s) == n);
        assert(s.len() >= 4 + n);
        assert(s.subrange(4, 4 + n) =~= p);
        assert(s.skip(4 + n) =~= avcc_encode(rest));
        assert(forall|i: int|
            0 <= i < rest.len() ==> rest[i] == nals[i + 1] && (#[trigger] rest[i]).len()
                <= 0xFFFFFFFF);
        lemma_avcc_to_annexb_encode(rest);
        assert(avcc_to_annexb_spec(s) =~= annexb_encode(nals));
    }
}

/// Scanning an AVCC encoding of nonempty payloads that fit four
/// length bytes recovers the payload list exactly.
pub proof fn lemma_scan_avcc_encode(nals: Seq<Seq<u8>>)
    requires
        forall|i: int|
            0 <= i < nals.len() ==> 0 < (#[trigger] nals[i]).len() <= 0xFFFFFFFF,
    ensures
        scan_avcc(avcc_encode(nals)) == nals,
    decreases nals.len(),
{
    if nals.len() == 0 {
        assert(avcc_encode(nals).len() == 0);
        assert(scan_avcc(avcc_encode(nals)) =~= nals);
    } else {
        let p = nals[0];
        let rest = nals.drop_first();
        let n = p.len() as int;
        let s = avcc_encode(nals);
        assert(s =~= be32(n) + p + avcc_encode(rest));
        lemma_be32_roundtrip(n);
        assert(s[0] == be32(n)[0] && s[1] == be32(n)[1] && s[2] == be32(n)[2] && s[3] == be32(
            n,
        )[3]);
        assert(be32_val(s) == n);
        assert(s.len() >= 4 + n && n >= 1);
        assert(s.subrange(4, 4 + n) =~= p);
        assert(s.skip(4 + n) =~= avcc_encode(rest));
        assert(forall|i: int|
            0 <= i < rest.len() ==> rest[i] == nals[i + 1] && 0 < (#[trigger] rest[i]).len()
                <= 0xFFFFFFFF);
        lemma_scan_avcc_encode(rest);
        assert(scan_avcc(s) =~= nals);
    }
}

/// Converting an AVCC stream of well-formed payloads to Annex B and
/// scanning it back recovers the original payload bytes and
/// boundaries exactly; re-encoding them length-prefixed reproduces the
/// original AVCC bytes.
pub proof fn lemma_avcc_annexb_roundtrip(nals: Seq<Seq<u8>>)
    requires
        wf_nals(nals),
        forall|i: int| 0 <= i < nals.len() ==> (#[trigger] nals[i]).len() <= 0xFFFFFFFF,
    ensures
        avcc_to_annexb_spec(avcc_encode(nals)) == annexb_encode(nals),
        scan_annexb(annexb_encode(nals), 0) == nals,
        avcc_encode(scan_annexb(avcc_to_annexb_spec(avcc_encode(nals)), 0)) == avcc_encode(
            nals,
        ),
{
    lemma_avcc_to_annexb_encode(nals);
    lemma_scan_annexb_encode(nals);
}

/// Append the bytes of `src` to `dst`.
fn append_bytes(dst: &mut Vec<u8>, src: &Vec<u8>)
    ensures
        final(dst)@ == old(dst)@ + src@,
{
    let ghost base = dst@;
    let n = src.len();
    let mut i: usize = 0;
    while i < n
        invariant
            n == src@.len(),
            i <= n,
            dst@ == base + src@.subrange(0, i as int),
        decreases n - i,
    {
        dst.push(src[i]);
        proof {
            assert(dst@ =~= base + src@.subrange(0, i + 1));
        }
        i = i + 1;
    }
    proof {
        assert(src@.subrange(0, n as int) =~= src@);
    }
}

/// Emit the length-prefixed encoding of a list of payloads.
fn build_avcc(nals: &Vec<Vec<u8>>) -> (r: Vec<u8>)
    requires
        forall|i: int|
            0 <= i < nals@.len() ==> (#[trigger] nals@[i])@.len() <= 0xFFFFFFFF,
    ensures
        r@ == avcc_encode(nals@.map_values(|v: Vec<u8>| v@)),
{
    let ghost m = nals@.map_values(|v: Vec<u8>| v@);
    let mut r: Vec<u8> = Vec::new();
    let count = nals.len();
    proof {
        assert(m.skip(0) =~= m);
    }
    let mut i: usize = 0;
    while i < count
        invariant
            count == nals@.len(),
            m == nals@.map_values(|v: Vec<u8>| v@),
            forall|k: int| 0 <= k < nals@.len() ==> (#[trigger] nals@[k])@.len() <= 0xFFFFFFFF,
            i <= count,
            avcc_encode(m) == r@ + avcc_encode(m.skip(i as int)),
        decreases count - i,
    {
        let p = &nals[i];
        let n32 = p.len() as u32;
        r.push(((n32 / 0x1000000) % 256) as u8);
        r.push(((n32 / 0x10000) % 256) as u8);
        r.push(((n32 / 0x100) % 256) as u8);
        r.push((n32 % 256) as u8);
        append_bytes(&mut r, p);
        proof {
            let tail = m.skip(i as int);
            assert(tail[0] == p@);
            assert(tail.drop_first() =~= m.skip(i + 1));
            assert(avcc_encode(tail) == be32(p@.len() as int) + p@ + avcc_encode(
                m.skip(i + 1),
            ));
            assert(be32(p@.len() as int) == seq![
                ((n32 / 0x1000000) % 256) as u8,
                ((n32 / 0x10000) % 256) as u8,
                ((n32 / 0x100) % 256) as u8,
                (n32 % 256) as u8,
            ]);
            assert(avcc_encode(m) =~= r@ + avcc_encode(m.skip(i + 1)));
        }
        i = i + 1;
    }
    proof {
        assert(avcc_encode(m.skip(count as int)) =~= Seq::<u8>::empty());
        assert(r@ + Seq::<u8>::empty() =~= r@);
    }
    r
}

/// Each scanned payload is bounded by the buffer it was cut from.
proof fn lemma_scan_annexb_bounds(s: Seq<u8>, pos: int)
    requires
        pos >= 0,
    ensures
        scan_annexb(s, pos).len() == 0 || scan_annexb(s, pos).len() + pos <= s.len(),
        forall|i: int|
            0 <= i < scan_annexb(s, pos).len() ==> (#[trigger] scan_annexb(s, pos)[i]).len()
                <= s.len(),
    decreases s.len() - pos,
{
    match find_sc(s, pos) {
        None => {},
        Some((sc, scl)) => {
            lemma_find_sc_some(s, pos);
            let nstart = sc + scl;
            let nend = payload_end(s, nstart);
            if find_sc(s, nstart) is Some {
                lemma_find_sc_some(s, nstart);
            }
            lemma_scan_annexb_bounds(s, nend);
            let payload = s.subrange(nstart, nend);
            let rest = scan_annexb(s, nend);
            if payload.len() > 0 {
                assert(scan_annexb(s, pos) == seq![payload] + rest);
                assert(nend > nstart);
                assert(rest.len() == 0 || rest.len() + nend <= s.len());
                assert(scan_annexb(s, pos).len() + pos <= s.len());
                assert forall|i: int|
                    0 <= i < scan_annexb(s, pos).len() implies (#[trigger] scan_annexb(
                    s,
                    pos,
                )[i]).len() <= s.len() by {
                    if i == 0 {
                        assert(scan_annexb(s, pos)[0] == payload);
                    } else {
                        assert(scan_annexb(s, pos)[i] == rest[i - 1]);
                    }
                }
            }
        },
    }
}

/// Rewrite a start-code-delimited stream as a length-prefixed one:
/// the exact scanned payload boundaries, each preceded by its 4-byte
/// big-endian length.
pub fn annexb_to_avcc(data: &Vec<u8>) -> (r: Vec<u8>)
    requires
        data@.len() <= 0xFFFFFFFF,
    ensures
        r@ == avcc_encode(scan_annexb(data@, 0)),
{
    let nals = parse_annexb_payloads(data);
    proof {
        lemma_scan_annexb_bounds(data@, 0);
        assert(forall|i: int|
            0 <= i < nals@.len() ==> (#[trigger] nals@[i])@ == nals@.map_values(
                |v: Vec<u8>| v@,
            )[i]);
    }
    build_avcc(&nals)
}

/// The NAL type of a payload: the low five bits of its first byte.
pub open spec fn spec_nal_type(p: Seq<u8>) -> u8 {
    p[0] & 0x1F
}

/// Split a start-code-delimited elementary stream into packets, one
/// per NAL unit, numbering timestamps from `base_pts` in stream order.
/// A NAL is a keyframe indicator exactly when its type is 5 (IDR).
pub fn parse_h264_packets(data: &Vec<u8>, base_pts: u64) -> (r: Vec<Packet>)
    requires
        base_pts + data@.len() < 0x8000000000000000u64,
    ensures
        r@.len() == scan_annexb(data@, 0).len(),
        forall|i: int|
            0 <= i < r@.len() ==> {
                let nals = scan_annexb(data@, 0);
                &&& (#[trigger] r@[i]).data@ == nals[i]
                &&& r@[i].pts == base_pts + i
                &&& r@[i].dts == base_pts + i
                &&& r@[i].is_keyframe == (spec_nal_type(nals[i]) == 5)
            },
{
    let nals = parse_annexb_payloads(data);
    proof {
        lemma_scan_annexb_bounds(data@, 0);
        lemma_scan_annexb_nonempty(data@, 0);
    }
    let ghost m = nals@.map_values(|v: Vec<u8>| v@);
    let count = nals.len();
    let mut r: Vec<Packet> = Vec::new();
    let mut i: usize = 0;
    while i < count
        invariant
            count == nals@.len(),
            m == nals@.map_values(|v: Vec<u8>| v@),
            m == scan_annexb(data@, 0),
            forall|k: int| 0 <= k < m.len() ==> (#[trigger] m[k]).len() > 0,
            base_pts + count < 0x8000000000000000u64,
            i <= count,
            r@.len() == i,
            forall|k: int|
                0 <= k < i ==> {
                    &&& (#[trigger] r@[k]).data@ == m[k]
                    &&& r@[k].pts == base_pts + k
                    &&& r@[k].dts == base_pts + k
                    &&& r@[k].is_keyframe == (spec_nal_type(m[k]) == 5)
                },
        decreases count - i,
    {
        let p = &nals[i];
        proof {
            assert(m[i as int] == p@);
            assert(p@.len() > 0);
        }
        let nal_type = p[0] & 0x1F;
        let pts = (base_pts + i as u64) as i64;
        let pkt = Packet {
            data: p.clone(),
            pts,
            dts: pts,
            is_keyframe: nal_type == 5,
        };
        r.push(pkt);
        i = i + 1;
    }
    r
}

/// Every payload that the scanner returns is nonempty.
proof fn lemma_scan_annexb_nonempty(s: Seq<u8>, pos: int)
    requires
        pos >= 0,
    ensures
        forall|i: int|
            0 <= i < scan_annexb(s, pos).len() ==> (#[trigger] scan_annexb(s, pos)[i]).len()
                > 0,
    decreases s.len() - pos,
{
    match find_sc(s, pos) {
        None => {},
        Some((sc, scl)) => {
            lemma_find_sc_some(s, pos);
            let nstart = sc + scl;
            let nend = payload_end(s, nstart);
            if find_sc(s, nstart) is Some {
                lemma_find_sc_some(s, nstart);
            }
            lemma_scan_annexb_nonempty(s, nend);
            let payload = s.subrange(nstart, nend);
            let rest = scan_annexb(s, nend);
            if payload.len() > 0 {
                assert forall|i: int|
                    0 <= i < scan_annexb(s, pos).len() implies (#[trigger] scan_annexb(
                    s,
                    pos,
                )[i]).len() > 0 by {
                    if i == 0 {
                        assert(scan_annexb(s, pos)[0] == payload);
                    } else {
                        assert(scan_annexb(s, pos)[i] == rest[i - 1]);
                    }
                }
            }
        },
    }
}

/// The payload of the last NAL of type `t` in a payload list, if any.
/// Extraction scans forward and overwrites, so the last hit wins.
pub open spec fn last_of_type(nals: Seq<Seq<u8>>, t: u8) -> Option<Seq<u8>>
    decreases nals.len(),
{
    if nals.len() == 0 {
        None
    } else if nals.last().len() > 0 && spec_nal_type(nals.last()) == t {
        Some(nals.last())
    } else {
        last_of_type(nals.drop_last(), t)
    }
}

/// A found payload replaces the held one; nothing found keeps it.
pub open spec fn overwrite(held: Option<Seq<u8>>, found: Option<Seq<u8>>) -> Option<Seq<u8>> {
    match found {
        Some(p) => Some(p),
        None => held,
    }
}

/// The view of an optional byte vector.
pub open spec fn view_opt(o: Option<Vec<u8>>) -> Option<Seq<u8>> {
    match o {
        Some(v) => Some(v@),
        None => None,
    }
}

/// The two parameter-set records a container header needs: the
/// sequence parameter set (NAL type 7) and the picture parameter set
/// (NAL type 8), each once found.
pub struct ParamSets {
    /// Sequence parameter set payload, once found.
    pub sps: Option<Vec<u8>>,
    /// Picture parameter set payload, once found.
    pub pps: Option<Vec<u8>>,
}

/// What one extraction pass leaves in the handler, given the payloads
/// the pass scanned.
pub open spec fn pass_result(held: ParamSets, nals: Seq<Seq<u8>>) -> (
    Option<Seq<u8>>,
    Option<Seq<u8>>,
) {
    (
        overwrite(view_opt(held.sps), last_of_type(nals, 7)),
        overwrite(view_opt(held.pps), last_of_type(nals, 8)),
    )
}

/// What the generic extractor leaves: an Annex-B pass, then an AVCC
/// pass over the same bytes if either record is still missing.
pub open spec fn extract_result(held: ParamSets, data: Seq<u8>) -> (
    Option<Seq<u8>>,
    Option<Seq<u8>>,
) {
    let ab = pass_result(held, scan_annexb(data, 0));
    if ab.0 is None || ab.1 is None {
        (
            overwrite(ab.0, last_of_type(scan_avcc(data), 7)),
            overwrite(ab.1, last_of_type(scan_avcc(data), 8)),
        )
    } else {
        ab
    }
}

impl ParamSets {
    /// An empty handler: nothing found yet.
    pub fn new() -> (r: ParamSets)
        ensures
            r.sps is None,
            r.pps is None,
    {
        ParamSets { sps: None, pps: None }
    }

    /// Record the parameter sets found in a list of NAL payloads,
    /// scanning forward so that the last of each type wins.
    fn absorb(&mut self, nals: &Vec<Vec<u8>>)
        ensures
            view_opt(final(self).sps) == overwrite(
                view_opt(old(self).sps),
                last_of_type(nals@.map_values(|v: Vec<u8>| v@), 7),
            ),
            view_opt(final(self).pps) == overwrite(
                view_opt(old(self).pps),
                last_of_type(nals@.map_values(|v: Vec<u8>| v@), 8),
            ),
    {
        let ghost m = nals@.map_values(|v: Vec<u8>| v@);
        let count = nals.len();
        let mut i: usize = 0;
        while i < count
            invariant
                count == nals@.len(),
                m == nals@.map_values(|v: Vec<u8>| v@),
                i <= count,
                view_opt(self.sps) == overwrite(
                    view_opt(old(self).sps),
                    last_of_type(m.take(i as int), 7),
                ),
                view_opt(self.pps) == overwrite(
                    view_opt(old(self).pps),
                    last_of_type(m.take(i as int), 8),
                ),
            decreases count - i,
        {
            let p = &nals[i];
            proof {
                assert(m.take(i + 1).drop_last() =~= m.take(i as int));
                assert(m.take(i + 1).last() == m[i as int]);
                assert(m[i as int] == p@);
            }
            if p.len() > 0 {
                let t = p[0] & 0x1F;
                if t == 7 {
                    self.sps = Some(p.clone());
                } else if t == 8 {
                    self.pps = Some(p.clone());
                }
            }
            i = i + 1;
        }
        proof {
            assert(m.take(count as int) =~= m);
        }
    }

    /// Extract parameter sets from a start-code-delimited stream.
    pub fn extract_sps_pps_annex_b(&mut self, data: &Vec<u8>)
        ensures
            view_opt(final(self).sps) == pass_result(*old(self), scan_annexb(data@, 0)).0,
            view_opt(final(self).pps) == pass_result(*old(self), scan_annexb(data@, 0)).1,
    {
        let nals = parse_annexb_payloads(data);
        self.absorb(&nals);
    }

    /// Extract parameter sets from a length-prefixed stream.
    pub fn extract_sps_pps_avcc(&mut self, data: &Vec<u8>)
        ensures
            view_opt(final(self).sps) == pass_result(*old(self), scan_avcc(data@)).0,
            view_opt(final(self).pps) == pass_result(*old(self), scan_avcc(data@)).1,
    {
        let nals = parse_avcc_payloads(data);
        self.absorb(&nals);
    }

    /// Extract parameter sets from a stream of unknown layout: try
    /// Annex-B scanning first; if either record is still missing, fall
    /// back to AVCC-style scanning over the same bytes.
    pub fn extract_sps_pps(&mut self, data: &Vec<u8>)
        ensures
            view_opt(final(self).sps) == extract_result(*old(self), data@).0,
            view_opt(final(self).pps) == extract_result(*old(self), data@).1,
    {
        self.extract_sps_pps_annex_b(data);
        if self.sps.is_none() || self.pps.is_none() {
            self.extract_sps_pps_avcc(data);
        }
    }
}

/// Split a length-prefixed stream into its NAL payloads, stopping at a
/// zero length or a truncated record.
pub fn parse_avcc_payloads(data: &Vec<u8>) -> (r: Vec<Vec<u8>>)
    ensures
        r@.map_values(|v: Vec<u8>| v@) == scan_avcc(data@),
{
    let dlen = data.len();
    let mut out: Vec<Vec<u8>> = Vec::new();
    let mut pos: usize = 0;
    proof {
        assert(data@.skip(0) =~= data@);
        assert(Seq::<Seq<u8>>::empty() + scan_avcc(data@) =~= scan_avcc(data@));
    }
    while dlen >= 5 && pos <= dlen - 5
        invariant
            dlen == data@.len(),
            pos <= dlen,
            scan_avcc(data@) == out@.map_values(|v: Vec<u8>| v@) + scan_avcc(
                data@.skip(pos as int),
            ),
        ensures
            scan_avcc(data@) == out@.map_values(|v: Vec<u8>| v@) + scan_avcc(
                data@.skip(pos as int),
            ),
            pos + 5 > dlen,
        decreases dlen - pos,
    {
        let n = read_be32(data, pos) as usize;
        if n == 0 || n > dlen - (pos + 4) {
            proof {
                assert(scan_avcc(data@.skip(pos as int)) =~= Seq::<Seq<u8>>::empty());
                assert(out@.map_values(|v: Vec<u8>| v@) + Seq::<Seq<u8>>::empty()
                    =~= out@.map_values(|v: Vec<u8>| v@));
            }
            return out;
        }
        let payload = copy_range(data, pos + 4, pos + 4 + n);
        out.push(payload);
        proof {
            let f = |v: Vec<u8>| v@;
            let tl = data@.skip(pos as int);
            assert(tl.subrange(4, 4 + n) =~= data@.subrange(pos + 4, pos + 4 + n));
            assert(tl.skip(4 + n) =~= data@.skip(pos + 4 + n));
            assert(scan_avcc(tl) == seq![tl.subrange(4, 4 + n)] + scan_avcc(tl.skip(4 + n)));
            assert(out@.map_values(f) =~= out@.drop_last().map_values(f).push(
                data@.subrange(pos + 4, pos + 4 + n),
            ));
            assert(out@.drop_last().map_values(f) + (seq![data@.subrange(pos + 4, pos + 4 + n)]
                + scan_avcc(data@.skip(pos + 4 + n))) =~= out@.map_values(f) + scan_avcc(
                data@.skip(pos + 4 + n),
            ));
        }
        pos = pos + 4 + n;
    }
    proof {
        assert(scan_avcc(data@.skip(pos as int)) =~= Seq::<Seq<u8>>::empty());
        assert(out@.map_values(|v: Vec<u8>| v@) + Seq::<Seq<u8>>::empty() =~= out@.map_values(
            |v: Vec<u8>| v@,
        ));
    }
    out
}

/// Parameter-set extraction locates the type-7 and type-8 NALs of the
/// same logical stream in both wire layouts: scanning either encoding
/// of a well-formed payload list recovers the list, so both passes
/// find the same records.
pub proof fn lemma_extract_either_layout(nals: Seq<Seq<u8>>)
    requires
        wf_nals(nals),
        forall|i: int| 0 <= i < nals.len() ==> (#[trigger] nals[i]).len() <= 0xFFFFFFFF,
    ensures
        last_of_type(scan_annexb(annexb_encode(nals), 0), 7) == last_of_type(nals, 7),
        last_of_type(scan_annexb(annexb_encode(nals), 0), 8) == last_of_type(nals, 8),
        last_of_type(scan_avcc(avcc_encode(nals)), 7) == last_of_type(nals, 7),
        last_of_type(scan_avcc(avcc_encode(nals)), 8) == last_of_type(nals, 8),
{
    lemma_scan_annexb_encode(nals);
    assert(forall|i: int|
        0 <= i < nals.len() ==> 0 < (#[trigger] nals[i]).len() <= 0xFFFFFFFF);
    lemma_scan_avcc_encode(nals);
}

/// Keyframe detection for backends that report sample attachment
/// metadata instead of raw NAL streams: the absence of a "not a sync
/// sample" marker means the sample is a sync/key sample.
pub fn is_sync_sample(not_sync_marker: Option<bool>) -> (r: bool)
    ensures
        r == (not_sync_marker is None || !not_sync_marker->0),
{
    match not_sync_marker {
        None => true,
        Some(not_sync) => !not_sync,
    }
}

} // verus!
