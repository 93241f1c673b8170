//! The chunked-container muxer: a from-scratch writer for the
//! streaming-oriented EBML element format (WebM), used for AV1.
//!
//! Every element is an ID whose byte length is inferred from its
//! leading-bit class, a variable-length size field, and a payload.
//! The segment and each cluster are written with the reserved
//! "unknown size" pattern, so the file is append-only and `finalize`
//! performs no backpatching.

use vstd::prelude::*;
use crate::Codec;
use crate::encoder::Packet;
use crate::error::Error;
use crate::muxer::{Muxer, MuxerConfig};

verus! {

/// The fixed 4-byte magic every chunked-container file begins with:
/// the EBML header element ID.
pub open spec fn webm_magic() -> Seq<u8> {
    seq![0x1Au8, 0x45u8, 0xDFu8, 0xA3u8]
}

/// An element ID encoded by its leading-bit class: 1-byte IDs start
/// with a one bit, 2-byte IDs with `01`, 3-byte with `001`, 4-byte
/// with `0001`; anything else falls back to the minimal width.
pub open spec fn ebml_id_bytes(id: int) -> Seq<u8> {
    if 0x80 <= id <= 0xFF {
        seq![id as u8]
    } else if 0x4000 <= id <= 0x7FFF {
        seq![(id / 0x100) as u8, (id % 0x100) as u8]
    } else if 0x200000 <= id <= 0x3FFFFF {
        seq![(id / 0x10000) as u8, ((id / 0x100) % 0x100) as u8, (id % 0x100) as u8]
    } else if 0x10000000 <= id <= 0x1FFFFFFF {
        seq![
            (id / 0x1000000) as u8,
            ((id / 0x10000) % 0x100) as u8,
            ((id / 0x100) % 0x100) as u8,
            (id % 0x100) as u8,
        ]
    } else if 0 <= id <= 0xFF {
        seq![id as u8]
    } else if id <= 0xFFFF {
        seq![(id / 0x100) as u8, (id % 0x100) as u8]
    } else if id <= 0xFFFFFF {
        seq![(id / 0x10000) as u8, ((id / 0x100) % 0x100) as u8, (id % 0x100) as u8]
    } else {
        seq![
            (id / 0x1000000) as u8,
            ((id / 0x10000) % 0x100) as u8,
            ((id / 0x100) % 0x100) as u8,
            (id % 0x100) as u8,
        ]
    }
}

/// A size field: a variable-length unsigned integer whose leading
/// marker bit tells its width, falling back to the 8-byte form for
/// sizes that do not fit a smaller field.
pub open spec fn ebml_size_bytes(size: int) -> Seq<u8> {
    if size < 0x7F {
        seq![(size + 0x80) as u8]
    } else if size < 0x3FFF {
        seq![(size / 0x100 + 0x40) as u8, (size % 0x100) as u8]
    } else if size < 0x1FFFFF {
        seq![(size / 0x10000 + 0x20) as u8, ((size / 0x100) % 0x100) as u8, (size % 0x100) as u8]
    } else if size < 0x0FFFFFFF {
        seq![
            (size / 0x1000000 + 0x10) as u8,
            ((size / 0x10000) % 0x100) as u8,
            ((size / 0x100) % 0x100) as u8,
            (size % 0x100) as u8,
        ]
    } else {
        seq![
            0x01u8,
            ((size / 0x1000000000000) % 0x100) as u8,
            ((size / 0x10000000000) % 0x100) as u8,
            ((size / 0x100000000) % 0x100) as u8,
            ((size / 0x1000000) % 0x100) as u8,
            ((size / 0x10000) % 0x100) as u8,
            ((size / 0x100) % 0x100) as u8,
            (size % 0x100) as u8,
        ]
    }
}

/// The reserved all-ones size pattern meaning "unknown/streaming".
pub open spec fn unknown_size_bytes() -> Seq<u8> {
    seq![0x01u8, 0xFFu8, 0xFFu8, 0xFFu8, 0xFFu8, 0xFFu8, 0xFFu8, 0xFFu8]
}

/// A complete element: ID, size of the payload, payload.
pub open spec fn ebml_element_bytes(id: int, payload: Seq<u8>) -> Seq<u8> {
    ebml_id_bytes(id) + ebml_size_bytes(payload.len() as int) + payload
}

/// An unsigned integer payload: big-endian, minimal width, one zero
/// byte for zero.
pub open spec fn uint_be(v: int) -> Seq<u8>
    decreases v,
{
    if v <= 0 {
        Seq::empty()
    } else {
        uint_be(v / 0x100) + seq![(v % 0x100) as u8]
    }
}

/// See `uint_be`; zero still takes one byte.
pub open spec fn uint_bytes(v: int) -> Seq<u8> {
    if v == 0 {
        seq![0u8]
    } else {
        uint_be(v)
    }
}

/// Encode an element ID by its leading-bit class.
pub fn encode_ebml_id(id: u32) -> (r: Vec<u8>)
    ensures
        r@ == ebml_id_bytes(id as int),
{
    let mut r: Vec<u8> = Vec::new();
    if 0x80 <= id && id <= 0xFF {
        r.push(id as u8);
    } else if 0x4000 <= id && id <= 0x7FFF {
        r.push((id / 0x100) as u8);
        r.push((id % 0x100) as u8);
    } else if 0x200000 <= id && id <= 0x3FFFFF {
        r.push((id / 0x10000) as u8);
        r.push(((id / 0x100) % 0x100) as u8);
        r.push((id % 0x100) as u8);
    } else if 0x10000000 <= id && id <= 0x1FFFFFFF {
        r.push((id / 0x1000000) as u8);
        r.push(((id / 0x10000) % 0x100) as u8);
        r.push(((id / 0x100) % 0x100) as u8);
        r.push((id % 0x100) as u8);
    } else if id <= 0xFF {
        r.push(id as u8);
    } else if id <= 0xFFFF {
        r.push((id / 0x100) as u8);
        r.push((id % 0x100) as u8);
    } else if id <= 0xFFFFFF {
        r.push((id / 0x10000) as u8);
        r.push(((id / 0x100) % 0x100) as u8);
        r.push((id % 0x100) as u8);
    } else {
        r.push((id / 0x1000000) as u8);
        r.push(((id / 0x10000) % 0x100) as u8);
        r.push(((id / 0x100) % 0x100) as u8);
        r.push((id % 0x100) as u8);
    }
    proof {
        assert(r@ =~= ebml_id_bytes(id as int));
    }
    r
}

/// Encode a size field in the smallest width that carries it.
pub fn encode_ebml_size(size: u64) -> (r: Vec<u8>)
    ensures
        r@ == ebml_size_bytes(size as int),
{
    let mut r: Vec<u8> = Vec::new();
    if size < 0x7F {
        r.push((size + 0x80) as u8);
    } else if size < 0x3FFF {
        r.push((size / 0x100 + 0x40) as u8);
        r.push((size % 0x100) as u8);
    } else if size < 0x1FFFFF {
        r.push((size / 0x10000 + 0x20) as u8);
        r.push(((size / 0x100) % 0x100) as u8);
        r.push((size % 0x100) as u8);
    } else if size < 0x0FFFFFFF {
        r.push((size / 0x1000000 + 0x10) as u8);
        r.push(((size / 0x10000) % 0x100) as u8);
        r.push(((size / 0x100) % 0x100) as u8);
        r.push((size % 0x100) as u8);
    } else {
        r.push(0x01);
        r.push(((size / 0x1000000000000) % 0x100) as u8);
        r.push(((size / 0x10000000000) % 0x100) as u8);
        r.push(((size / 0x100000000) % 0x100) as u8);
        r.push(((size / 0x1000000) % 0x100) as u8);
        r.push(((size / 0x10000) % 0x100) as u8);
        r.push(((size / 0x100) % 0x100) as u8);
        r.push((size % 0x100) as u8);
    }
    proof {
        assert(r@ =~= ebml_size_bytes(size as int));
    }
    r
}

/// The bytes of an unsigned integer, least significant first.
spec fn lsb_bytes(v: int) -> Seq<u8>
    decreases v,
{
    if v <= 0 {
        Seq::empty()
    } else {
        seq![(v % 0x100) as u8] + lsb_bytes(v / 0x100)
    }
}

/// The reversed least-significant-first bytes are the big-endian form.
proof fn lemma_lsb_bytes(v: int)
    requires
        v >= 1,
    ensures
        lsb_bytes(v).reverse() == uint_be(v),
    decreases v,
{
    if v < 0x100 {
        assert(v / 0x100 == 0);
        assert(lsb_bytes(0) =~= Seq::<u8>::empty());
        assert(uint_be(0) =~= Seq::<u8>::empty());
        assert(lsb_bytes(v) =~= seq![(v % 0x100) as u8]);
        assert(uint_be(v) =~= seq![(v % 0x100) as u8]);
        assert(lsb_bytes(v).reverse() =~= uint_be(v));
    } else {
        lemma_lsb_bytes(v / 0x100);
        assert(lsb_bytes(v).reverse() =~= lsb_bytes(v / 0x100).reverse().push(
            (v % 0x100) as u8,
        ));
        assert(uint_be(v / 0x100).push((v % 0x100) as u8) =~= uint_be(v));
    }
}

/// Encode an unsigned integer payload: big-endian, minimal width.
pub fn encode_uint(value: u64) -> (r: Vec<u8>)
    ensures
        r@ == uint_bytes(value as int),
{
    if value == 0 {
        let mut r: Vec<u8> = Vec::new();
        r.push(0);
        proof {
            assert(r@ =~= uint_bytes(0));
        }
        return r;
    }
    let mut tmp: Vec<u8> = Vec::new();
    let mut v: u64 = value;
    while v > 0
        invariant
            lsb_bytes(value as int) == tmp@ + lsb_bytes(v as int),
        decreases v,
    {
        tmp.push((v % 0x100) as u8);
        proof {
            assert(lsb_bytes(v as int) == seq![(v as int % 0x100) as u8] + lsb_bytes(
                v as int / 0x100,
            ));
            assert(lsb_bytes(value as int) =~= tmp@ + lsb_bytes(v as int / 0x100));
        }
        v = v / 0x100;
    }
    proof {
        assert(lsb_bytes(0int) =~= Seq::<u8>::empty());
        assert(lsb_bytes(value as int) =~= tmp@);
        lemma_lsb_bytes(value as int);
    }
    let nb = tmp.len();
    let mut r: Vec<u8> = Vec::new();
    let mut j: usize = nb;
    while j > 0
        invariant
            j <= nb,
            nb == tmp@.len(),
            r@ == tmp@.reverse().take(nb - j),
        decreases j,
    {
        r.push(tmp[j - 1]);
        proof {
            assert(tmp@.reverse()[nb - j] == tmp@[j - 1]);
            assert(r@ =~= tmp@.reverse().take(nb - (j - 1)));
        }
        j = j - 1;
    }
    proof {
        assert(tmp@.reverse().take(nb as int) =~= tmp@.reverse());
    }
    r
}

/// Append a byte vector to the output buffer.
fn put(out: &mut Vec<u8>, bytes: Vec<u8>)
    ensures
        final(out)@ == old(out)@ + bytes@,
{
    let ghost base = out@;
    let n = bytes.len();
    let mut i: usize = 0;
    while i < n
        invariant
            n == bytes@.len(),
            i <= n,
            out@ == base + bytes@.subrange(0, i as int),
        decreases n - i,
    {
        out.push(bytes[i]);
        proof {
            assert(out@ =~= base + bytes@.subrange(0, i + 1));
        }
        i = i + 1;
    }
    proof {
        assert(bytes@.subrange(0, n as int) =~= bytes@);
    }
}

/// Encode a complete element: ID, payload size, payload.
pub fn encode_ebml_element(id: u32, data: &Vec<u8>) -> (r: Vec<u8>)
    ensures
        r@ == ebml_element_bytes(id as int, data@),
{
    let mut r = encode_ebml_id(id);
    let size = encode_ebml_size(data.len() as u64);
    put(&mut r, size);
    let mut i: usize = 0;
    let ghost base = r@;
    let n = data.len();
    while i < n
        invariant
            n == data@.len(),
            i <= n,
            r@ == base + data@.subrange(0, i as int),
        decreases n - i,
    {
        r.push(data[i]);
        proof {
            assert(r@ =~= base + data@.subrange(0, i + 1));
        }
        i = i + 1;
    }
    proof {
        assert(data@.subrange(0, n as int) =~= data@);
        assert(r@ =~= ebml_element_bytes(id as int, data@));
    }
    r
}

/// The EBML header payload: version, read version, maximum ID and
/// size lengths, document type "webm", and its versions.
pub open spec fn ebml_header_payload() -> Seq<u8> {
    ebml_element_bytes(0x4286, seq![1u8]) + ebml_element_bytes(0x42F7, seq![1u8])
        + ebml_element_bytes(0x42F2, seq![4u8]) + ebml_element_bytes(0x42F3, seq![8u8])
        + ebml_element_bytes(0x4282, seq![0x77u8, 0x65u8, 0x62u8, 0x6Du8])  // "webm"
        + ebml_element_bytes(0x4287, seq![4u8]) + ebml_element_bytes(0x4285, seq![2u8])
}

/// The segment-info payload: a one-millisecond timestamp scale and the
/// muxing and writing application names.
pub open spec fn segment_info_payload() -> Seq<u8> {
    ebml_element_bytes(0x2AD7B1, uint_bytes(1000000)) + ebml_element_bytes(
        0x4D80,
        seq![0x6Du8, 0x69u8, 0x6Eu8, 0x6Du8, 0x70u8, 0x65u8, 0x67u8],  // "minmpeg"
    ) + ebml_element_bytes(
        0x5741,
        seq![0x6Du8, 0x69u8, 0x6Eu8, 0x6Du8, 0x70u8, 0x65u8, 0x67u8],
    )
}

/// The single video track entry: track number 1, a stable track
/// identifier, track type video, the AV1 codec identifier, and the
/// pixel dimensions.
pub open spec fn track_entry_payload(width: u32, height: u32) -> Seq<u8> {
    ebml_element_bytes(0xD7, seq![1u8]) + ebml_element_bytes(0x73C5, uint_bytes(1))
        + ebml_element_bytes(0x83, seq![1u8]) + ebml_element_bytes(
        0x86,
        seq![0x56u8, 0x5Fu8, 0x41u8, 0x56u8, 0x31u8],  // "V_AV1"
    ) + ebml_element_bytes(
        0xE0,
        ebml_element_bytes(0xB0, uint_bytes(width as int)) + ebml_element_bytes(
            0xBA,
            uint_bytes(height as int),
        ),
    )
}

/// Everything written once at open: the header element, the
/// unbounded-size segment, the segment info, and the tracks.
pub open spec fn webm_file_header(width: u32, height: u32) -> Seq<u8> {
    ebml_element_bytes(0x1A45DFA3, ebml_header_payload()) + ebml_id_bytes(0x18538067)
        + unknown_size_bytes() + ebml_element_bytes(0x1549A966, segment_info_payload())
        + ebml_element_bytes(0x1654AE6B, track_entry_container(width, height))
}

/// The tracks payload: one track entry.
pub open spec fn track_entry_container(width: u32, height: u32) -> Seq<u8> {
    ebml_element_bytes(0xAE, track_entry_payload(width, height))
}

/// A cluster opening: the cluster element with unknown size and its
/// absolute timestamp.
pub open spec fn cluster_open_bytes(timecode: u64) -> Seq<u8> {
    ebml_id_bytes(0x1F43B675) + unknown_size_bytes() + ebml_element_bytes(
        0xE7,
        uint_bytes(timecode as int),
    )
}

/// A simple block: track 1, the block's 16-bit timecode relative to
/// its cluster, one flag byte marking keyframe status, then the
/// payload verbatim.
pub open spec fn simple_block_bytes(rel16: int, keyframe: bool, payload: Seq<u8>) -> Seq<u8> {
    ebml_element_bytes(
        0xA3,
        seq![
            0x81u8,
            (rel16 / 0x100) as u8,
            (rel16 % 0x100) as u8,
            if keyframe {
                0x80u8
            } else {
                0x00u8
            },
        ] + payload,
    )
}

/// Saturating addition on 64-bit tick counters.
pub open spec fn sat_add64(a: u64, b: u64) -> u64 {
    if a + b > u64::MAX {
        u64::MAX
    } else {
        (a + b) as u64
    }
}

/// The chunked-container muxer.  It accumulates the container bytes
/// in memory; internal time advances by one frame duration per packet,
/// driven by call order, not by packet timestamps.
pub struct WebmMuxer {
    /// The container bytes written so far.
    out: Vec<u8>,
    /// Pixel width the track was declared with.
    width: u32,
    /// Pixel height the track was declared with.
    height: u32,
    /// Absolute time, in milliseconds, of the next block.
    timecode: u64,
    /// Absolute time the open cluster started at.
    cluster_start: u64,
    /// How far internal time advances per packet.
    frame_duration_ms: u64,
    /// Whether a cluster is open.
    cluster_open: bool,
}

impl WebmMuxer {
    /// The bytes written so far.
    pub closed spec fn out_bytes(&self) -> Seq<u8> {
        self.out@
    }

    /// Pixel width the track was declared with.
    pub closed spec fn spec_width(&self) -> u32 {
        self.width
    }

    /// Pixel height the track was declared with.
    pub closed spec fn spec_height(&self) -> u32 {
        self.height
    }

    /// The internal clock.
    pub closed spec fn spec_timecode(&self) -> u64 {
        self.timecode
    }

    /// The open cluster's start time.
    pub closed spec fn spec_cluster_start(&self) -> u64 {
        self.cluster_start
    }

    /// Whether a cluster is open.
    pub closed spec fn spec_cluster_open(&self) -> bool {
        self.cluster_open
    }

    /// Milliseconds per packet.
    pub closed spec fn spec_frame_duration(&self) -> u64 {
        self.frame_duration_ms
    }

    /// A new cluster is opened when none is open yet, or when a
    /// keyframe arrives after the current cluster has elapsed time.
    pub open spec fn opens_cluster(&self, packet: Packet) -> bool {
        !self.spec_cluster_open() || (packet.is_keyframe && self.spec_timecode()
            > self.spec_cluster_start())
    }

    /// Open a chunked-container muxer.  Only the AV1 codec is
    /// accepted; the file header is written immediately.
    pub fn new(config: MuxerConfig) -> (r: Result<WebmMuxer, Error>)
        requires
            config.fps >= 1,
        ensures
            (r is Ok <==> config.codec is Av1),
            r is Ok ==> {
                let m = r->Ok_0;
                &&& m.wf()
                &&& m.spec_width() == config.width
                &&& m.spec_height() == config.height
                &&& m.out_bytes() == webm_file_header(config.width, config.height)
                &&& m.spec_timecode() == 0
                &&& !m.spec_cluster_open()
                &&& m.spec_frame_duration() == 1000 as int / config.fps as int
            },
            r is Err ==> r->Err_0 is Mux,
    {
        match config.codec {
            Codec::H264 => {
                return Err(
                    Error::Mux("WebM container only supports AV1 codec".to_owned()),
                );
            },
            Codec::Av1 => {},
        }
        let frame_duration_ms = (1000 / config.fps) as u64;
        let mut out: Vec<u8> = Vec::new();
        // EBML header
        let mut hdr: Vec<u8> = Vec::new();
        put(&mut hdr, encode_ebml_element(0x4286, &vec![1u8]));
        put(&mut hdr, encode_ebml_element(0x42F7, &vec![1u8]));
        put(&mut hdr, encode_ebml_element(0x42F2, &vec![4u8]));
        put(&mut hdr, encode_ebml_element(0x42F3, &vec![8u8]));
        put(&mut hdr, encode_ebml_element(0x4282, &vec![0x77u8, 0x65, 0x62, 0x6D]));
        put(&mut hdr, encode_ebml_element(0x4287, &vec![4u8]));
        put(&mut hdr, encode_ebml_element(0x4285, &vec![2u8]));
        proof {
            assert(hdr@ =~= ebml_header_payload());
        }
        put(&mut out, encode_ebml_element(0x1A45DFA3, &hdr));
        // Segment with unknown size, for streaming.
        put(&mut out, encode_ebml_id(0x18538067));
        put(&mut out, unknown_size());
        // Segment info
        let mut info: Vec<u8> = Vec::new();
        put(&mut info, encode_ebml_element(0x2AD7B1, &encode_uint(1000000)));
        let app = vec![0x6Du8, 0x69, 0x6E, 0x6D, 0x70, 0x65, 0x67];
        put(&mut info, encode_ebml_element(0x4D80, &app));
        put(&mut info, encode_ebml_element(0x5741, &app));
        proof {
            assert(info@ =~= segment_info_payload());
        }
        put(&mut out, encode_ebml_element(0x1549A966, &info));
        // Tracks: one video track entry.
        let mut video: Vec<u8> = Vec::new();
        put(&mut video, encode_ebml_element(0xB0, &encode_uint(config.width as u64)));
        put(&mut video, encode_ebml_element(0xBA, &encode_uint(config.height as u64)));
        let mut entry: Vec<u8> = Vec::new();
        put(&mut entry, encode_ebml_element(0xD7, &vec![1u8]));
        put(&mut entry, encode_ebml_element(0x73C5, &encode_uint(1)));
        put(&mut entry, encode_ebml_element(0x83, &vec![1u8]));
        put(&mut entry, encode_ebml_element(0x86, &vec![0x56u8, 0x5F, 0x41, 0x56, 0x31]));
        put(&mut entry, encode_ebml_element(0xE0, &video));
        proof {
            assert(entry@ =~= track_entry_payload(config.width, config.height));
        }
        let mut tracks: Vec<u8> = Vec::new();
        put(&mut tracks, encode_ebml_element(0xAE, &entry));
        proof {
            assert(tracks@ =~= track_entry_container(config.width, config.height));
        }
        put(&mut out, encode_ebml_element(0x1654AE6B, &tracks));
        proof {
            assert(out@ =~= webm_file_header(config.width, config.height));
            assert(out@.take(4) =~= webm_magic());
            assert(out@.take(webm_file_header(config.width, config.height).len() as int)
                =~= out@);
        }
        Ok(
            WebmMuxer {
                out,
                width: config.width,
                height: config.height,
                timecode: 0,
                cluster_start: 0,
                frame_duration_ms,
                cluster_open: false,
            },
        )
    }
}

/// The reserved unknown-size field as bytes.
fn unknown_size() -> (r: Vec<u8>)
    ensures
        r@ == unknown_size_bytes(),
{
    let mut r: Vec<u8> = Vec::new();
    r.push(0x01);
    r.push(0xFF);
    r.push(0xFF);
    r.push(0xFF);
    r.push(0xFF);
    r.push(0xFF);
    r.push(0xFF);
    r.push(0xFF);
    proof {
        assert(r@ =~= unknown_size_bytes());
    }
    r
}

impl Muxer for WebmMuxer {
    /// The complete file header for the declared dimensions, which
    /// starts with the magic, has been written and stays in place;
    /// the clock never runs behind the open cluster, and the frame
    /// duration is a sane millisecond count.
    open spec fn wf(&self) -> bool {
        let header = webm_file_header(self.spec_width(), self.spec_height());
        &&& self.out_bytes().len() >= header.len()
        &&& self.out_bytes().take(header.len() as int) == header
        &&& self.out_bytes().len() >= 4
        &&& self.out_bytes().take(4) == webm_magic()
        &&& self.spec_cluster_start() <= self.spec_timecode()
        &&& self.spec_frame_duration() <= 1000
    }

    /// One write appends: a cluster opening when due, then the simple
    /// block with the packet payload verbatim; the clock advances one
    /// frame duration (saturating), and a cluster is open afterward.
    open spec fn write_ens(pre: Self, post: Self, packet: Packet, r: Result<(), Error>) -> bool {
        let opens = pre.opens_cluster(packet);
        let cs = if opens {
            pre.spec_timecode()
        } else {
            pre.spec_cluster_start()
        };
        &&& r is Ok
        &&& post.out_bytes() == pre.out_bytes() + (if opens {
            cluster_open_bytes(pre.spec_timecode())
        } else {
            Seq::empty()
        }) + simple_block_bytes(
            ((pre.spec_timecode() - cs) % 0x10000) as int,
            packet.is_keyframe,
            packet.data@,
        )
        &&& post.spec_timecode() == sat_add64(pre.spec_timecode(), pre.spec_frame_duration())
        &&& post.spec_cluster_start() == cs
        &&& post.spec_cluster_open()
        &&& post.spec_frame_duration() == pre.spec_frame_duration()
        &&& post.spec_width() == pre.spec_width()
        &&& post.spec_height() == pre.spec_height()
    }

    /// Finalize simply hands the accumulated bytes back: sizes were
    /// written as unknown, so no backpatching is required.
    open spec fn finalize_ens(pre: Self, r: Result<Vec<u8>, Error>) -> bool {
        &&& r is Ok
        &&& r->Ok_0@ == pre.out_bytes()
    }

    #[verifier::rlimit(100)]
    fn write_packet(&mut self, packet: &Packet) -> (r: Result<(), Error>) {
        let opens = !self.cluster_open || (packet.is_keyframe && self.timecode
            > self.cluster_start);
        if opens {
            // Cluster with unknown size, then its absolute timestamp.
            put(&mut self.out, encode_ebml_id(0x1F43B675));
            put(&mut self.out, unknown_size());
            put(&mut self.out, encode_ebml_element(0xE7, &encode_uint(self.timecode)));
            self.cluster_start = self.timecode;
            self.cluster_open = true;
        }
        let rel: u64 = (self.timecode - self.cluster_start) % 0x10000;
        let mut block: Vec<u8> = Vec::new();
        block.push(0x81);  // track number 1, EBML coded
        block.push((rel / 0x100) as u8);
        block.push((rel % 0x100) as u8);
        block.push(if packet.is_keyframe {
            0x80
        } else {
            0x00
        });
        let ghost head = block@;
        let n = packet.data.len();
        let mut i: usize = 0;
        while i < n
            invariant
                n == packet.data@.len(),
                i <= n,
                block@ == head + packet.data@.subrange(0, i as int),
            decreases n - i,
        {
            block.push(packet.data[i]);
            proof {
                assert(block@ =~= head + packet.data@.subrange(0, i + 1));
            }
            i = i + 1;
        }
        proof {
            assert(packet.data@.subrange(0, n as int) =~= packet.data@);
        }
        put(&mut self.out, encode_ebml_element(0xA3, &block));
        if self.timecode <= u64::MAX - self.frame_duration_ms {
            self.timecode = self.timecode + self.frame_duration_ms;
        } else {
            self.timecode = u64::MAX;
        }
        proof {
            assert(self.out_bytes() =~= old(self).out_bytes() + (if old(
                self,
            ).opens_cluster(*packet) {
                cluster_open_bytes(old(self).spec_timecode())
            } else {
                Seq::empty()
            }) + simple_block_bytes(
                ((old(self).spec_timecode() - (if old(self).opens_cluster(*packet) {
                    old(self).spec_timecode()
                } else {
                    old(self).spec_cluster_start()
                })) % 0x10000) as int,
                packet.is_keyframe,
                packet.data@,
            ));
            assert(self.out_bytes().take(4) =~= old(self).out_bytes().take(4));
            assert(self.out_bytes().take(
                webm_file_header(self.spec_width(), self.spec_height()).len() as int,
            ) =~= old(self).out_bytes().take(
                webm_file_header(old(self).spec_width(), old(self).spec_height()).len() as int,
            ));
        }
        Ok(())
    }

    fn finalize(self) -> (r: Result<Vec<u8>, Error>) {
        Ok(self.out)
    }
}

/// Chunked-container output always begins with the fixed 4-byte
/// binary-format magic: the writer puts the EBML header element
/// first, and every later write only appends.
pub proof fn lemma_chunked_output_magic(m: WebmMuxer, r: Result<Vec<u8>, Error>)
    requires
        m.wf(),
        WebmMuxer::finalize_ens(m, r),
    ensures
        r is Ok,
        r->Ok_0@.len() >= 4,
        r->Ok_0@.take(4) == webm_magic(),
        r->Ok_0@.len() >= webm_file_header(m.spec_width(), m.spec_height()).len(),
        r->Ok_0@.take(webm_file_header(m.spec_width(), m.spec_height()).len() as int)
            == webm_file_header(m.spec_width(), m.spec_height()),
{
}

} // verus!
