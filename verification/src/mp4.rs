//! The conventional-container adapter: thin marshaling into an
//! external MP4 writer over an in-memory buffer.  Only H.264 is
//! accepted here; the writer needs both parameter sets up front.

use vstd::prelude::*;
use crate::Codec;
use crate::encoder::Packet;
use crate::error::Error;
use crate::muxer::{Muxer, MuxerConfig};

verus! {

#[verifier::external_type_specification]
#[verifier::external_body]
#[verifier::reject_recursive_types(T)]
pub struct ExCursor<T>(std::io::Cursor<T>);

#[verifier::external_type_specification]
#[verifier::external_body]
#[verifier::reject_recursive_types(W)]
pub struct ExMp4Writer<W>(mp4::Mp4Writer<W>);

/// The bytes the external writer has put in its in-memory buffer.
pub uninterp spec fn mp4_written(w: mp4::Mp4Writer<std::io::Cursor<Vec<u8>>>) -> Seq<u8>;

/// The samples the external writer has recorded, in write order: each
/// sample's duration, sync flag, and payload bytes.  The writer
/// derives every sample's start time from the durations before it, so
/// durations are what the tables carry.
pub uninterp spec fn mp4_samples(w: mp4::Mp4Writer<std::io::Cursor<Vec<u8>>>) -> Seq<
    (u32, bool, Seq<u8>),
>;

/// The video tracks the external writer holds, in creation order:
/// each track's pixel width and height, its timescale, and its two
/// parameter-set payloads.
pub uninterp spec fn mp4_tracks(w: mp4::Mp4Writer<std::io::Cursor<Vec<u8>>>) -> Seq<
    (u16, u16, u32, Seq<u8>, Seq<u8>),
>;

/// The fixed 4-byte box-type tag conventional-container files carry at
/// byte offset 4: `ftyp`.
pub open spec fn ftyp_tag() -> Seq<u8> {
    seq![0x66u8, 0x74u8, 0x79u8, 0x70u8]
}

/// Relies on mp4::Mp4Writer::write_start: it writes the `ftyp` box
/// first, so the buffer starts with the box size followed by the tag
/// at offset 4 and is at least the box header long; writing into an
/// in-memory buffer cannot fail, and the fresh writer holds no tracks
/// and no samples.
#[verifier::external_body]
fn mp4_begin() -> (r: Result<mp4::Mp4Writer<std::io::Cursor<Vec<u8>>>, String>)
    ensures
        r is Ok,
        r is Ok ==> {
            let w = r->Ok_0;
            &&& mp4_written(w).len() >= 8
            &&& mp4_written(w).subrange(4, 8) == ftyp_tag()
            &&& mp4_samples(w) == Seq::<(u32, bool, Seq<u8>)>::empty()
            &&& mp4_tracks(w) == Seq::<(u16, u16, u32, Seq<u8>, Seq<u8>)>::empty()
        },
{
    let config = mp4::Mp4Config {
        major_brand: mp4::FourCC { value: [0x69, 0x73, 0x6F, 0x6D] },
        minor_version: 512,
        compatible_brands: vec![
            mp4::FourCC { value: [0x69, 0x73, 0x6F, 0x6D] },
            mp4::FourCC { value: [0x69, 0x73, 0x6F, 0x32] },
            mp4::FourCC { value: [0x61, 0x76, 0x63, 0x31] },
            mp4::FourCC { value: [0x6D, 0x70, 0x34, 0x31] },
        ],
        timescale: 1000,
    };
    mp4::Mp4Writer::write_start(std::io::Cursor::new(Vec::new()), &config).map_err(
        |e| e.to_string(),
    )
}

/// Relies on mp4::Mp4Writer::add_track: it only records the track
/// tables in memory — one more track, nothing written to the buffer —
/// and for an H.264 track it cannot fail.  The sample entry reads the
/// SPS header bytes, so the SPS must hold at least four bytes; a zero
/// timescale would divide a later sample write by zero, so the frame
/// rate must be positive.
#[verifier::external_body]
fn mp4_add_video_track(
    w: &mut mp4::Mp4Writer<std::io::Cursor<Vec<u8>>>,
    width: u16,
    height: u16,
    fps: u32,
    sps: &Vec<u8>,
    pps: &Vec<u8>,
) -> (r: Result<(), String>)
    requires
        sps@.len() >= 4,
        fps >= 1,
    ensures
        r is Ok,
        mp4_written(*final(w)) == mp4_written(*old(w)),
        mp4_samples(*final(w)) == mp4_samples(*old(w)),
        mp4_tracks(*final(w)) == mp4_tracks(*old(w)).push(
            (width, height, fps, sps@, pps@),
        ),
{
    let track = mp4::TrackConfig {
        track_type: mp4::TrackType::Video,
        timescale: fps,
        language: "und".to_owned(),
        media_conf: mp4::MediaConfig::AvcConfig(
            mp4::AvcConfig {
                width,
                height,
                seq_param_set: sps.clone(),
                pic_param_set: pps.clone(),
            },
        ),
    };
    w.add_track(&track).map_err(|e| e.to_string())
}

/// Relies on mp4::Mp4Writer::write_sample: with a track present the
/// sample is recorded — its duration, sync flag and payload bytes —
/// and its bytes buffered or appended at the end of the in-memory
/// stream, which cannot fail; without one it returns an error and
/// records nothing.  The write path never reads the sample's own
/// start time: a sample's position in time is the sum of the recorded
/// durations before it.  Nothing before the first eight bytes is
/// touched and the buffer never shrinks.  A zero track timescale
/// would divide by zero, so the writer's tracks must have been
/// created with a positive frame rate.
#[verifier::external_body]
fn mp4_put_sample(
    w: &mut mp4::Mp4Writer<std::io::Cursor<Vec<u8>>>,
    start_time: u64,
    duration: u32,
    rendering_offset: i32,
    is_sync: bool,
    data: &Vec<u8>,
) -> (r: Result<(), String>)
    requires
        forall|i: int|
            0 <= i < mp4_tracks(*old(w)).len() ==> (#[trigger] mp4_tracks(*old(w))[i]).2 >= 1,
    ensures
        mp4_written(*final(w)).len() >= mp4_written(*old(w)).len(),
        mp4_written(*old(w)).len() >= 8 ==> mp4_written(*final(w)).subrange(0, 8)
            == mp4_written(*old(w)).subrange(0, 8),
        mp4_tracks(*final(w)) == mp4_tracks(*old(w)),
        mp4_tracks(*old(w)).len() >= 1 ==> r is Ok,
        r is Ok ==> mp4_samples(*final(w)) == mp4_samples(*old(w)).push(
            (duration, is_sync, data@),
        ),
        r is Err ==> mp4_samples(*final(w)) == mp4_samples(*old(w)),
{
    let sample = mp4::Mp4Sample {
        start_time,
        duration,
        rendering_offset,
        is_sync,
        bytes: mp4::Bytes::copy_from_slice(data.as_slice()),
    };
    w.write_sample(1, &sample).map_err(|e| e.to_string())
}

/// Relies on mp4::Mp4Writer::write_end and into_writer: closing
/// appends the remaining chunks and the index, and backpatches only
/// the `mdat` size, which sits after the `ftyp` box; on an in-memory
/// buffer nothing in that path can fail, the buffer never shrinks,
/// and the first eight bytes stay as written.
#[verifier::external_body]
fn mp4_finish(w: mp4::Mp4Writer<std::io::Cursor<Vec<u8>>>) -> (r: Result<Vec<u8>, String>)
    ensures
        r is Ok,
        r is Ok ==> r->Ok_0@.len() >= mp4_written(w).len(),
        (r is Ok && mp4_written(w).len() >= 8) ==> r->Ok_0@.subrange(0, 8) == mp4_written(
            w,
        ).subrange(0, 8),
{
    let mut w = w;
    if let Err(e) = w.write_end() {
        return Err(e.to_string());
    }
    Ok(w.into_writer().into_inner())
}

/// Whether a configuration carries everything the adapter needs: the
/// H.264 codec and both parameter sets, the SPS with at least its
/// four header bytes.
pub open spec fn mp4_config_ok(config: MuxerConfig) -> bool {
    &&& config.codec is H264
    &&& config.codec_config is Some
    &&& config.pps is Some
    &&& config.codec_config->0@.len() >= 4
}

/// The conventional-container muxer: marshaling into the external
/// writer, one sample per packet, timed by sample index.
pub struct Mp4Muxer {
    /// The external writer over an in-memory buffer.
    writer: mp4::Mp4Writer<std::io::Cursor<Vec<u8>>>,
    /// How many samples have been written.
    sample_count: u32,
}

impl Mp4Muxer {
    /// How many samples have been written.
    pub closed spec fn spec_sample_count(&self) -> u32 {
        self.sample_count
    }

    /// The buffer of the held writer.
    pub closed spec fn written(&self) -> Seq<u8> {
        mp4_written(self.writer)
    }

    /// The samples recorded so far: duration, sync flag, payload.
    pub closed spec fn samples(&self) -> Seq<(u32, bool, Seq<u8>)> {
        mp4_samples(self.writer)
    }

    /// The video tracks of the held writer.
    pub closed spec fn tracks(&self) -> Seq<(u16, u16, u32, Seq<u8>, Seq<u8>)> {
        mp4_tracks(self.writer)
    }

    /// Open a conventional-container muxer.  Only H.264 is accepted,
    /// and both parameter sets must be present, the SPS with at least
    /// its four header bytes; with those given, construction succeeds
    /// with one video track marshaled from the configuration.
    pub fn new(config: MuxerConfig) -> (r: Result<Mp4Muxer, Error>)
        requires
            config.fps >= 1,
        ensures
            r is Ok <==> mp4_config_ok(config),
            r is Err ==> r->Err_0 is Mux,
            r is Ok ==> {
                let m = r->Ok_0;
                &&& m.wf()
                &&& m.spec_sample_count() == 0
                &&& m.samples() == Seq::<(u32, bool, Seq<u8>)>::empty()
                &&& m.tracks() == seq![
                    (
                        config.width as u16,
                        config.height as u16,
                        config.fps,
                        config.codec_config->0@,
                        config.pps->0@,
                    ),
                ]
            },
    {
        match config.codec {
            Codec::Av1 => {
                return Err(
                    Error::Mux(
                        "MP4 container with AV1 codec requires an external muxer. Use WebM for AV1 instead.".to_owned(),
                    ),
                );
            },
            Codec::H264 => {},
        }
        let sps = match config.codec_config {
            Some(s) => s,
            None => {
                return Err(Error::Mux("H.264 muxing needs a sequence parameter set".to_owned()));
            },
        };
        let pps = match config.pps {
            Some(p) => p,
            None => {
                return Err(Error::Mux("H.264 muxing needs a picture parameter set".to_owned()));
            },
        };
        if sps.len() < 4 {
            return Err(Error::Mux("sequence parameter set too short".to_owned()));
        }
        let mut writer = match mp4_begin() {
            Ok(w) => w,
            Err(e) => {
                return Err(Error::Mux(e));
            },
        };
        let width = #[verifier::truncate] (config.width as u16);
        let height = #[verifier::truncate] (config.height as u16);
        match mp4_add_video_track(&mut writer, width, height, config.fps, &sps, &pps) {
            Ok(()) => {},
            Err(e) => {
                return Err(Error::Mux(e));
            },
        }
        Ok(Mp4Muxer { writer, sample_count: 0 })
    }
}

impl Muxer for Mp4Muxer {
    /// The `ftyp` header has been written and stays in place, and the
    /// writer holds exactly the one video track, created with a
    /// positive timescale.
    open spec fn wf(&self) -> bool {
        &&& self.written().len() >= 8
        &&& self.written().subrange(4, 8) == ftyp_tag()
        &&& self.tracks().len() == 1
        &&& self.tracks()[0].2 >= 1
    }

    /// A write succeeds and records exactly one more sample: the
    /// packet's payload, its keyframe flag as the sync flag, one tick
    /// of duration; the header bytes stay in place, the track is
    /// untouched, and the counter advances (saturating at its width).
    /// With every duration one tick, the i-th recorded sample starts
    /// at time i (`lemma_unit_duration_start_times`).
    open spec fn write_ens(pre: Self, post: Self, packet: Packet, r: Result<(), Error>) -> bool {
        &&& r is Ok
        &&& post.samples() == pre.samples().push(
            (1u32, packet.is_keyframe, packet.data@),
        )
        &&& post.tracks() == pre.tracks()
        &&& post.written().len() >= pre.written().len()
        &&& post.written().subrange(0, 8) == pre.written().subrange(0, 8)
        &&& post.spec_sample_count() == (if pre.spec_sample_count() < u32::MAX {
            pre.spec_sample_count() + 1
        } else {
            u32::MAX as int
        })
    }

    /// Closing an in-memory container succeeds, keeps everything
    /// written, and leaves the box-type tag at byte offset 4.
    open spec fn finalize_ens(pre: Self, r: Result<Vec<u8>, Error>) -> bool {
        &&& r is Ok
        &&& r->Ok_0@.len() >= pre.written().len()
        &&& r->Ok_0@.len() >= 8
        &&& r->Ok_0@.subrange(4, 8) == ftyp_tag()
    }

    fn write_packet(&mut self, packet: &Packet) -> (r: Result<(), Error>) {
        let start_time = self.sample_count as u64;
        let outcome = mp4_put_sample(
            &mut self.writer,
            start_time,
            1,
            0,
            packet.is_keyframe,
            &packet.data,
        );
        proof {
            assert(self.written().subrange(4, 8) =~= self.written().subrange(0, 8).subrange(
                4,
                8,
            ));
            assert(old(self).written().subrange(4, 8) =~= old(self).written().subrange(
                0,
                8,
            ).subrange(4, 8));
        }
        match outcome {
            Ok(()) => {},
            Err(e) => {
                return Err(Error::Mux(e));
            },
        }
        if self.sample_count < u32::MAX {
            self.sample_count = self.sample_count + 1;
        }
        Ok(())
    }

    fn finalize(self) -> (r: Result<Vec<u8>, Error>) {
        let ghost pre = self;
        match mp4_finish(self.writer) {
            Ok(bytes) => {
                proof {
                    assert(bytes@.subrange(4, 8) =~= bytes@.subrange(0, 8).subrange(4, 8));
                    assert(pre.written().subrange(4, 8) =~= pre.written().subrange(
                        0,
                        8,
                    ).subrange(4, 8));
                }
                Ok(bytes)
            },
            Err(e) => Err(Error::Mux(e)),
        }
    }
}

/// Where a recorded sample starts: the sum of the durations of the
/// samples before it.
pub open spec fn sample_start_time(samples: Seq<(u32, bool, Seq<u8>)>, i: int) -> int
    decreases i,
{
    if i <= 0 {
        0
    } else {
        sample_start_time(samples, i - 1) + samples[i - 1].0
    }
}

/// The adapter writes every sample with one tick of duration, so the
/// i-th packet written starts at time i.
pub proof fn lemma_unit_duration_start_times(samples: Seq<(u32, bool, Seq<u8>)>, i: int)
    requires
        0 <= i <= samples.len(),
        forall|k: int| 0 <= k < samples.len() ==> (#[trigger] samples[k]).0 == 1,
    ensures
        sample_start_time(samples, i) == i,
    decreases i,
{
    if i > 0 {
        lemma_unit_duration_start_times(samples, i - 1);
    }
}

/// Conventional-container output always carries the fixed 4-byte
/// box-type tag at byte offset 4: the writer opens with the `ftyp`
/// box and later writes never move it.
pub proof fn lemma_conventional_output_tag(m: Mp4Muxer, r: Result<Vec<u8>, Error>)
    requires
        m.wf(),
        Mp4Muxer::finalize_ens(m, r),
    ensures
        r is Ok,
        r->Ok_0@.len() >= 8,
        r->Ok_0@.subrange(4, 8) == ftyp_tag(),
{
}

} // verus!
