use minmpeg::encoder::Packet;
use minmpeg::error::Error;
use minmpeg::muxer::{create_muxer, Muxer, MuxerBackend, MuxerConfig};
use minmpeg::webm::{encode_ebml_id, encode_ebml_size, encode_uint};
use minmpeg::{Codec, Container};

fn config(codec: Codec, sps: Option<Vec<u8>>, pps: Option<Vec<u8>>) -> MuxerConfig {
    MuxerConfig {
        width: 64,
        height: 48,
        fps: 30,
        codec,
        codec_config: sps,
        pps,
    }
}

fn packet(data: Vec<u8>, keyframe: bool) -> Packet {
    Packet {
        data,
        pts: 0,
        dts: 0,
        is_keyframe: keyframe,
    }
}

#[test]
fn test_ebml_id_classes() {
    assert_eq!(encode_ebml_id(0x1A45DFA3), vec![0x1A, 0x45, 0xDF, 0xA3]);
    assert_eq!(encode_ebml_id(0xA3), vec![0xA3]);
    assert_eq!(encode_ebml_id(0x4286), vec![0x42, 0x86]);
    assert_eq!(encode_ebml_id(0x2AD7B1), vec![0x2A, 0xD7, 0xB1]);
}

#[test]
fn test_ebml_size_widths() {
    assert_eq!(encode_ebml_size(0x23), vec![0xA3]);
    assert_eq!(encode_ebml_size(0x80), vec![0x40, 0x80]);
    assert_eq!(encode_ebml_size(0x4000), vec![0x20, 0x40, 0x00]);
    assert_eq!(
        encode_ebml_size(0x10000000),
        vec![0x01, 0, 0, 0, 0x10, 0, 0, 0]
    );
}

#[test]
fn test_encode_uint_minimal_width() {
    assert_eq!(encode_uint(0), vec![0]);
    assert_eq!(encode_uint(1), vec![1]);
    assert_eq!(encode_uint(1_000_000), vec![0x0F, 0x42, 0x40]);
}

#[test]
fn test_webm_rejects_h264() {
    match create_muxer(Container::WebM, config(Codec::H264, None, None)) {
        Err(Error::Mux(_)) => {}
        _ => panic!("expected the WebM muxer to reject H.264"),
    }
}

#[test]
fn test_mp4_rejects_av1() {
    match create_muxer(Container::Mp4, config(Codec::Av1, None, None)) {
        Err(Error::Mux(_)) => {}
        _ => panic!("expected the MP4 muxer to reject AV1"),
    }
}

#[test]
fn test_mp4_needs_parameter_sets() {
    match create_muxer(Container::Mp4, config(Codec::H264, None, None)) {
        Err(Error::Mux(_)) => {}
        _ => panic!("expected the MP4 muxer to need parameter sets"),
    }
}

#[test]
fn test_webm_output_magic_and_block() {
    let mut muxer = create_muxer(Container::WebM, config(Codec::Av1, None, None)).unwrap();
    muxer.write_packet(&packet(vec![0xDE, 0xAD, 0xBE, 0xEF], true)).unwrap();
    muxer.write_packet(&packet(vec![0x11, 0x22], false)).unwrap();
    let bytes = match muxer {
        MuxerBackend::WebM(m) => m.finalize().unwrap(),
        _ => panic!("expected the chunked container"),
    };
    // The chunked container starts with the fixed EBML magic.
    assert_eq!(&bytes[0..4], &[0x1A, 0x45, 0xDF, 0xA3]);
    // A cluster was opened and the payload was written verbatim.
    let cluster_id = [0x1F, 0x43, 0xB6, 0x75];
    assert!(bytes.windows(4).any(|w| w == cluster_id));
    assert!(bytes.windows(4).any(|w| w == [0xDE, 0xAD, 0xBE, 0xEF]));
}

#[test]
fn test_mp4_output_has_ftyp_at_offset_four() {
    let sps = vec![0x67, 0x42, 0xC0, 0x28, 0x11];
    let pps = vec![0x68, 0xCE, 0x3C, 0x80];
    let mut muxer =
        create_muxer(Container::Mp4, config(Codec::H264, Some(sps), Some(pps))).unwrap();
    muxer.write_packet(&packet(vec![0, 0, 0, 2, 0x65, 0x88], true)).unwrap();
    let bytes = muxer.finalize().unwrap();
    assert!(bytes.len() > 8);
    // The conventional container carries the box-type tag at offset 4.
    assert_eq!(&bytes[4..8], b"ftyp");
}
