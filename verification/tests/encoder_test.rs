use minmpeg::encoder::{Encoder, Frame, Packet};
use minmpeg::error::Error;
use minmpeg::image_ops::LoadedImage;
use minmpeg::slideshow::{slideshow_with_encoder, Slide};
use minmpeg::sps::generate_fallback_sps_pps;
use minmpeg::{av1, Codec, Container, EncodeOptions};

/// A minimal H.264-style backend: one fake packet per frame, with the
/// synthesized parameter sets exposed only after the first encode, as
/// real hardware backends do.
struct StubH264Encoder {
    width: u32,
    height: u32,
    frames_seen: u64,
}

impl Encoder for StubH264Encoder {
    fn wf(&self) -> bool {
        true
    }

    fn cfg_width(&self) -> u32 {
        self.width
    }

    fn cfg_height(&self) -> u32 {
        self.height
    }

    fn encode(&mut self, _frame: &Frame) -> Result<Vec<Packet>, Error> {
        let pts = self.frames_seen as i64;
        self.frames_seen += 1;
        Ok(vec![Packet {
            data: vec![0, 0, 0, 2, 0x65, 0x88],
            pts,
            dts: pts,
            is_keyframe: pts == 0,
        }])
    }

    fn flush(&mut self) -> Result<Vec<Packet>, Error> {
        Ok(Vec::new())
    }

    fn codec_config(&self) -> Option<Vec<u8>> {
        if self.frames_seen == 0 {
            return None;
        }
        let (sps, _) = generate_fallback_sps_pps(self.width, self.height);
        Some(sps)
    }

    fn pps(&self) -> Option<Vec<u8>> {
        if self.frames_seen == 0 {
            return None;
        }
        let (_, pps) = generate_fallback_sps_pps(self.width, self.height);
        Some(pps)
    }
}

fn solid_image(width: u32, height: u32, r: u8, g: u8, b: u8) -> LoadedImage {
    let mut data = Vec::new();
    for _ in 0..(width * height) {
        data.push(r);
        data.push(g);
        data.push(b);
        data.push(255);
    }
    LoadedImage {
        width,
        height,
        data,
    }
}

#[test]
fn test_slideshow_mp4_h264_with_backend() {
    // Driving the pipeline with an H.264-style backend produces a
    // conventional container with the box-type tag at offset 4, using
    // the parameter sets the backend yields after the first encode.
    let slides = vec![Slide {
        image: solid_image(16, 16, 40, 80, 120),
        duration_ms: 100,
    }];
    let options = EncodeOptions {
        output_path: "test.mp4".to_string(),
        container: Container::Mp4,
        codec: Codec::H264,
        quality: 50,
        ffmpeg_path: None,
    };
    let mut enc = StubH264Encoder {
        width: 16,
        height: 16,
        frames_seen: 0,
    };
    let bytes = slideshow_with_encoder(&slides, &options, &mut enc).unwrap();
    assert!(bytes.len() > 8);
    assert_eq!(&bytes[4..8], b"ftyp");
    // Three frames of 100 ms at 30 fps were encoded.
    assert_eq!(enc.frames_seen, 3);
}

#[test]
fn test_quality_to_quantizer_endpoints() {
    // Quality 100 maps to the highest-fidelity setting, quality 0 to
    // the lowest-bitrate setting, monotonically in between.
    assert_eq!(av1::quality_to_quantizer(100), 0);
    assert_eq!(av1::quality_to_quantizer(0), 255);
    let mut prev = av1::quality_to_quantizer(0);
    for q in 1..=100u8 {
        let cur = av1::quality_to_quantizer(q);
        assert!(cur <= prev, "quantizer must not rise with quality");
        prev = cur;
    }
}

#[test]
fn test_quality_to_crf_endpoints() {
    assert_eq!(av1::quality_to_crf(100), 0);
    assert_eq!(av1::quality_to_crf(0), 51);
    assert_eq!(av1::quality_to_crf(50), 25);
}

#[test]
fn test_av1_encoder_needs_backend_range() {
    // The backend validates its configuration: dimensions below its
    // accepted range are refused as an encode error.
    let config = minmpeg::encoder::EncoderConfig {
        width: 4,
        height: 4,
        fps: 30,
        quality: 50,
    };
    match av1::create_encoder(Codec::Av1, config) {
        Err(Error::Encode(_)) => {}
        _ => panic!("expected the backend to refuse a 4x4 configuration"),
    }
}

#[test]
fn test_av1_encoder_rejects_h264() {
    let config = minmpeg::encoder::EncoderConfig {
        width: 16,
        height: 16,
        fps: 30,
        quality: 50,
    };
    match av1::create_encoder(Codec::H264, config) {
        Err(Error::CodecUnavailable(_)) => {}
        _ => panic!("expected the library to have no H.264 backend"),
    }
}
