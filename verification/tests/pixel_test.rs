use minmpeg::encoder::Frame;
use minmpeg::image_ops::{normalize_images, LoadedImage};
use minmpeg::pixel::{rgba_to_nv12, rgba_to_yuv420};

fn solid_frame(width: u32, height: u32, r: u8, g: u8, b: u8) -> Frame {
    let mut data = Vec::new();
    for _ in 0..(width * height) {
        data.push(r);
        data.push(g);
        data.push(b);
        data.push(255);
    }
    Frame {
        width,
        height,
        data,
        pts_ms: 0,
    }
}

#[test]
fn test_luma_chroma_of_red() {
    // For pure red: luma 299*255/1000 = 76, first chroma
    // (128000 - 169*255)/1000 = 84, second chroma
    // (128000 + 500*255)/1000 = 255.
    let frame = solid_frame(2, 2, 255, 0, 0);
    let (y, u, v) = rgba_to_yuv420(&frame);
    assert_eq!(y, vec![76, 76, 76, 76]);
    assert_eq!(u, vec![84]);
    assert_eq!(v, vec![255]);
}

#[test]
fn test_luma_weights_sum_to_white() {
    let frame = solid_frame(2, 2, 255, 255, 255);
    let (y, u, v) = rgba_to_yuv420(&frame);
    // 299 + 587 + 114 = 1000 per mille: white is full luma.
    assert_eq!(y, vec![255, 255, 255, 255]);
    // Chroma of a gray pixel sits at the 128 offset.
    assert_eq!(u, vec![128]);
    assert_eq!(v, vec![128]);
}

#[test]
fn test_planar_layouts_agree() {
    // The separate-plane and interleaved layouts are derived from the
    // same block averages, so they agree pixel for pixel.
    let mut data = Vec::new();
    for i in 0..(4 * 4) as usize {
        data.push((i * 13 % 256) as u8);
        data.push((i * 31 % 256) as u8);
        data.push((i * 7 % 256) as u8);
        data.push(255);
    }
    let frame = Frame {
        width: 4,
        height: 4,
        data,
        pts_ms: 0,
    };
    let (y, u, v) = rgba_to_yuv420(&frame);
    let nv12 = rgba_to_nv12(&frame);
    assert_eq!(nv12.len(), 16 + 8);
    assert_eq!(&nv12[0..16], &y[..]);
    for j in 0..4 {
        assert_eq!(nv12[16 + 2 * j], u[j]);
        assert_eq!(nv12[16 + 2 * j + 1], v[j]);
    }
}

fn solid_image(width: u32, height: u32, r: u8, g: u8, b: u8) -> LoadedImage {
    let mut data = Vec::new();
    for _ in 0..(width * height) {
        data.push(r);
        data.push(g);
        data.push(b);
        data.push(255);
    }
    LoadedImage {
        width,
        height,
        data,
    }
}

#[test]
fn test_resize_changes_buffer() {
    // Upscaling 2x2 to 4x4 yields a fresh 4x4 buffer from the
    // external resampler, not the input handed back.
    let img = LoadedImage {
        width: 2,
        height: 2,
        data: vec![
            255, 0, 0, 255, // red
            0, 255, 0, 255, // green
            0, 0, 255, 255, // blue
            255, 255, 0, 255, // yellow
        ],
    };
    let resized = img.resize(4, 4);
    assert_eq!(resized.width, 4);
    assert_eq!(resized.height, 4);
    assert_eq!(resized.data.len(), 4 * 4 * 4);
}

#[test]
fn test_resize_same_size_keeps_pixels() {
    let img = solid_image(3, 3, 1, 2, 3);
    let same = img.resize(3, 3);
    assert_eq!(same.data, img.data);
}

#[test]
fn test_resize_fit_letterboxes_exactly() {
    // A wide 4x2 source into a 4x4 square target keeps its aspect
    // ratio (4x2 content, centered) and fills the two remaining rows
    // with the requested background color exactly.
    let img = solid_image(4, 2, 50, 60, 70);
    let bg = [1u8, 2, 3, 4];
    let fit = img.resize_fit(4, 4, bg);
    assert_eq!(fit.width, 4);
    assert_eq!(fit.height, 4);
    for x in 0..4usize {
        for &y in &[0usize, 3] {
            let off = (y * 4 + x) * 4;
            assert_eq!(&fit.data[off..off + 4], &bg, "row {y} must be background");
        }
    }
    // The middle rows carry scaled source content, not background.
    let mid = (1 * 4 + 1) * 4;
    assert_ne!(&fit.data[mid..mid + 4], &bg);
}

#[test]
fn test_normalize_images_keeps_first() {
    let first = solid_image(4, 2, 1, 2, 3);
    let second = solid_image(2, 2, 9, 9, 9);
    let out = normalize_images(vec![first.clone(), second]).unwrap();
    assert_eq!(out.len(), 2);
    // The first image already has the target dimensions and comes
    // back byte-identical; the second was resampled to them.
    assert_eq!(out[0].data, first.data);
    assert_eq!((out[1].width, out[1].height), (4, 2));
    assert_eq!(out[1].data.len(), 4 * 2 * 4);
}

#[test]
fn test_normalize_images_rejects_empty() {
    assert!(normalize_images(vec![]).is_err());
}

#[test]
fn test_resize_fit_same_size_keeps_pixels() {
    let img = solid_image(4, 4, 9, 8, 7);
    let fit = img.resize_fit(4, 4, [0, 0, 0, 0]);
    assert_eq!(fit.data, img.data);
}
