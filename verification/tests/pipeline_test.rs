use minmpeg::error::Error;
use minmpeg::image_ops::LoadedImage;
use minmpeg::juxtapose::{
    compose_frames, duration_frames, juxtapose, output_dims, DecodedVideo, VideoInfo,
};
use minmpeg::slideshow::{plan_slide_frames, slideshow, Slide};
use minmpeg::error::ErrorCode;
use minmpeg::{available, Codec, Color, Container, EncodeOptions};

fn solid_image(width: u32, height: u32, r: u8, g: u8, b: u8) -> LoadedImage {
    let mut data = Vec::new();
    for _ in 0..(width * height) {
        data.push(r);
        data.push(g);
        data.push(b);
        data.push(255);
    }
    LoadedImage {
        width,
        height,
        data,
    }
}

fn options(container: Container, codec: Codec) -> EncodeOptions {
    EncodeOptions {
        output_path: "test.mp4".to_string(),
        container,
        codec,
        quality: 50,
        ffmpeg_path: None,
    }
}

#[test]
fn slideshow_test_slideshow_empty_entries() {
    let options = EncodeOptions {
        output_path: "test.mp4".to_string(),
        container: Container::Mp4,
        codec: Codec::Av1,
        quality: 50,
        ffmpeg_path: None,
    };

    let result = slideshow(&vec![], &options);
    assert!(result.is_err());
}

#[test]
fn test_supports_codec_matrix() {
    assert!(Container::Mp4.supports_codec(Codec::Av1));
    assert!(Container::Mp4.supports_codec(Codec::H264));
    assert!(Container::WebM.supports_codec(Codec::Av1));
    assert!(!Container::WebM.supports_codec(Codec::H264));
}

#[test]
fn test_validate_rejects_incompatible_pair() {
    let opts = options(Container::WebM, Codec::H264);
    match opts.validate() {
        Err(Error::ContainerCodecMismatch { container, codec }) => {
            assert_eq!(container, Container::WebM);
            assert_eq!(codec, Codec::H264);
        }
        _ => panic!("expected a container/codec mismatch"),
    }
    assert!(options(Container::Mp4, Codec::H264).validate().is_ok());
    assert!(options(Container::Mp4, Codec::Av1).validate().is_ok());
    assert!(options(Container::WebM, Codec::Av1).validate().is_ok());
}

#[test]
fn test_slideshow_fails_before_work_on_mismatch() {
    let slides = vec![Slide {
        image: solid_image(16, 16, 10, 20, 30),
        duration_ms: 100,
    }];
    let result = slideshow(&slides, &options(Container::WebM, Codec::H264));
    match result {
        Err(Error::ContainerCodecMismatch { .. }) => {}
        _ => panic!("expected a container/codec mismatch"),
    }
}

#[test]
fn test_slide_frame_counts() {
    // Three slides of 1000 ms each at 30 fps give 90 frames.
    let img = solid_image(4, 4, 1, 2, 3);
    let slides = vec![
        Slide {
            image: img.clone(),
            duration_ms: 1000,
        },
        Slide {
            image: img.clone(),
            duration_ms: 1000,
        },
        Slide {
            image: img.clone(),
            duration_ms: 1000,
        },
    ];
    let frames = plan_slide_frames(&slides, 4, 4, 30);
    assert_eq!(frames.len(), 90);
}

#[test]
fn test_slide_frame_count_floor_of_one() {
    // A 100 ms slide at 30 fps takes 3 frames, and a 0 ms slide still
    // takes 1 frame.
    let img = solid_image(4, 4, 1, 2, 3);
    let slides = vec![Slide {
        image: img.clone(),
        duration_ms: 100,
    }];
    assert_eq!(plan_slide_frames(&slides, 4, 4, 30).len(), 3);

    let slides0 = vec![Slide {
        image: img,
        duration_ms: 0,
    }];
    assert_eq!(plan_slide_frames(&slides0, 4, 4, 30).len(), 1);
}

#[test]
fn test_slide_frame_count_rounds() {
    // 50 ms at 30 fps is 1.5 frames and rounds to 2.
    let img = solid_image(4, 4, 1, 2, 3);
    let slides = vec![Slide {
        image: img,
        duration_ms: 50,
    }];
    assert_eq!(plan_slide_frames(&slides, 4, 4, 30).len(), 2);
}

#[test]
fn test_slideshow_webm_av1_starts_with_magic() {
    let slides = vec![Slide {
        image: solid_image(32, 32, 200, 100, 50),
        duration_ms: 40,
    }];
    let bytes = slideshow(&slides, &options(Container::WebM, Codec::Av1)).unwrap();
    assert!(bytes.len() > 4);
    assert_eq!(&bytes[0..4], &[0x1A, 0x45, 0xDF, 0xA3]);
}

fn info(width: u32, height: u32, fps_num: u32, fps_den: u32, frame_count: u64) -> VideoInfo {
    VideoInfo {
        width,
        height,
        fps_num,
        fps_den,
        frame_count,
    }
}

#[test]
fn test_output_dims_even() {
    // 160x120 and 200x150 compose onto a 360x150 canvas, both even.
    let l = info(160, 120, 30, 1, 10);
    let r = info(200, 150, 30, 1, 10);
    let (w, h) = output_dims(&l, &r);
    assert_eq!((w, h), (360, 150));
    assert_eq!(w % 2, 0);
    assert_eq!(h % 2, 0);
}

#[test]
fn test_duration_frames_resampling() {
    // 10 frames at 15 fps resampled to 30 fps take 20 output frames.
    assert_eq!(duration_frames(&info(8, 8, 15, 1, 10), 30), 20);
    // 30000/1001 fps: 30 frames resampled to 30 fps round up.
    assert_eq!(duration_frames(&info(8, 8, 30000, 1001, 30), 30), 31);
}

#[test]
fn test_compose_freezes_exhausted_source() {
    // The left source has one red frame, the right two (blue, green);
    // with three output frames, each source holds its last frame.
    let left = DecodedVideo {
        info: info(2, 2, 30, 1, 1),
        frames: vec![solid_image(2, 2, 255, 0, 0)],
    };
    let right = DecodedVideo {
        info: info(2, 2, 30, 1, 2),
        frames: vec![solid_image(2, 2, 0, 0, 255), solid_image(2, 2, 0, 255, 0)],
    };
    let bg = Color { r: 9, g: 9, b: 9 };
    let frames = compose_frames(&left, &right, 4, 2, 3, bg);
    assert_eq!(frames.len(), 3);
    let last = &frames[2];
    // Pixel (0, 0) still shows the left source's only frame.
    assert_eq!(&last.data[0..4], &[255, 0, 0, 255]);
    // Pixel (2, 0) shows the right source's last frame (green).
    let off = 2 * 4;
    assert_eq!(&last.data[off..off + 4], &[0, 255, 0, 255]);
}

#[test]
fn test_compose_background_fills_gap() {
    // A 2x2 left and taller 2x4 right leave the left column's lower
    // half background-filled.
    let left = DecodedVideo {
        info: info(2, 2, 30, 1, 1),
        frames: vec![solid_image(2, 2, 255, 0, 0)],
    };
    let right = DecodedVideo {
        info: info(2, 4, 30, 1, 1),
        frames: vec![solid_image(2, 4, 0, 0, 255)],
    };
    let bg = Color { r: 7, g: 8, b: 9 };
    let frames = compose_frames(&left, &right, 4, 4, 1, bg);
    assert_eq!(frames.len(), 1);
    let f = &frames[0];
    // Pixel (0, 3): below the left frame, background.
    let off = (3 * 4 + 0) * 4;
    assert_eq!(&f.data[off..off + 4], &[7, 8, 9, 255]);
    // Pixel (2, 3): right frame still covers it.
    let off2 = (3 * 4 + 2) * 4;
    assert_eq!(&f.data[off2..off2 + 4], &[0, 0, 255, 255]);
}

#[test]
fn test_juxtapose_mismatch_fails_immediately() {
    let left = DecodedVideo {
        info: info(2, 2, 30, 1, 1),
        frames: vec![solid_image(2, 2, 1, 1, 1)],
    };
    let right = DecodedVideo {
        info: info(2, 2, 30, 1, 1),
        frames: vec![solid_image(2, 2, 2, 2, 2)],
    };
    let result = juxtapose(&left, &right, &options(Container::WebM, Codec::H264), None);
    match result {
        Err(Error::ContainerCodecMismatch { .. }) => {}
        _ => panic!("expected a container/codec mismatch"),
    }
}

#[test]
fn test_juxtapose_webm_av1() {
    let left = DecodedVideo {
        info: info(16, 16, 30, 1, 2),
        frames: vec![solid_image(16, 16, 255, 0, 0), solid_image(16, 16, 0, 255, 0)],
    };
    let right = DecodedVideo {
        info: info(16, 16, 30, 1, 1),
        frames: vec![solid_image(16, 16, 0, 0, 255)],
    };
    let bytes = juxtapose(&left, &right, &options(Container::WebM, Codec::Av1), None).unwrap();
    assert_eq!(&bytes[0..4], &[0x1A, 0x45, 0xDF, 0xA3]);
}

#[test]
fn test_available_codecs() {
    assert!(available(Codec::Av1, None).is_ok());
    match available(Codec::H264, None) {
        Err(Error::CodecUnavailable(_)) => {}
        _ => panic!("expected H.264 to be unavailable from the library"),
    }
}

#[test]
fn test_error_codes() {
    assert_eq!(
        ErrorCode::of_error(&Error::InvalidInput(String::new())),
        ErrorCode::InvalidInput
    );
    assert_eq!(
        ErrorCode::of_error(&Error::CodecUnavailable(String::new())),
        ErrorCode::CodecUnavailable
    );
    assert_eq!(
        ErrorCode::of_error(&Error::ContainerCodecMismatch {
            container: Container::WebM,
            codec: Codec::H264
        }),
        ErrorCode::ContainerCodecMismatch
    );
    assert_eq!(
        ErrorCode::of_error(&Error::Io(String::new())),
        ErrorCode::IoError
    );
    assert_eq!(
        ErrorCode::of_error(&Error::Decode(String::new())),
        ErrorCode::DecodeError
    );
    assert_eq!(
        ErrorCode::of_error(&Error::Mux(String::new())),
        ErrorCode::EncodeError
    );
}

#[test]
fn test_default_color_is_white() {
    let c = Color::default();
    assert_eq!((c.r, c.g, c.b), (255, 255, 255));
}
