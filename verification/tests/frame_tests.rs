use visage::clahe::clahe_enhance;
use visage::frame::grey_to_grayscale;
use visage::frame::is_dark_frame;
use visage::frame::y16_to_grayscale;
use visage::frame::yuyv_to_grayscale;
use visage::frame::FrameError;

#[test]
fn test_yuyv_to_grayscale() {
    // 2x1 image: [Y0=100, U=128, Y1=200, V=128]
    let yuyv = vec![100, 128, 200, 128];
    let gray = yuyv_to_grayscale(&yuyv, 2, 1).unwrap();
    assert_eq!(gray, vec![100, 200]);
}

#[test]
fn test_yuyv_to_grayscale_4x2() {
    // 4x2 image = 8 pixels, 16 YUYV bytes
    let yuyv: Vec<u8> = (0..16).collect();
    let gray = yuyv_to_grayscale(&yuyv, 4, 2).unwrap();
    assert_eq!(gray.len(), 8);
    // Even indices: 0, 2, 4, 6, 8, 10, 12, 14
    assert_eq!(gray, vec![0, 2, 4, 6, 8, 10, 12, 14]);
}

#[test]
fn test_yuyv_invalid_length() {
    let yuyv = vec![100, 128]; // too short for 2x1
    let result = yuyv_to_grayscale(&yuyv, 2, 1);
    assert!(result.is_err());
}

#[test]
fn test_yuyv_error_reports_lengths() {
    let yuyv = vec![0u8; 7];
    match yuyv_to_grayscale(&yuyv, 2, 2) {
        Err(FrameError::InvalidLength { expected, actual }) => {
            assert_eq!(expected, 8);
            assert_eq!(actual, 7);
        }
        _ => panic!("expected InvalidLength"),
    }
}

#[test]
fn test_grey_to_grayscale_identity() {
    let buf = vec![7u8, 8, 9, 10, 11];
    let gray = grey_to_grayscale(&buf, 2, 2).unwrap();
    assert_eq!(gray, vec![7, 8, 9, 10]);
    assert!(grey_to_grayscale(&buf, 3, 2).is_err());
}

#[test]
fn test_y16_high_bytes() {
    // little-endian 16-bit: [low, high] per pixel; output is the high byte
    let buf = vec![0x34u8, 0x12, 0xCD, 0xAB];
    let gray = y16_to_grayscale(&buf, 2, 1).unwrap();
    assert_eq!(gray, vec![0x12, 0xAB]);
    assert!(y16_to_grayscale(&buf, 2, 2).is_err());
}

#[test]
fn test_dark_frame_all_black() {
    let gray = vec![0u8; 1000];
    assert!(is_dark_frame(&gray, 95));
}

#[test]
fn test_dark_frame_normal() {
    let gray = vec![128u8; 1000];
    assert!(!is_dark_frame(&gray, 95));
}

#[test]
fn test_dark_frame_empty() {
    assert!(is_dark_frame(&[], 95));
}

#[test]
fn test_dark_frame_mostly_dark() {
    // 96% dark, 4% bright -> should be dark
    let mut gray = vec![10u8; 960];
    gray.extend(vec![128u8; 40]);
    assert!(is_dark_frame(&gray, 95));
}

#[test]
fn test_dark_frame_borderline_bright() {
    // 94% dark, 6% bright -> should NOT be dark
    let mut gray = vec![10u8; 940];
    gray.extend(vec![128u8; 60]);
    assert!(!is_dark_frame(&gray, 95));
}

#[test]
fn test_clahe_increases_contrast() {
    // Low-contrast 16x16 image: all pixels between 100-110
    let w = 16u32;
    let h = 16u32;
    let mut gray: Vec<u8> = (0..(w * h) as usize).map(|i| 100 + (i % 11) as u8).collect();

    let orig_stddev = stddev(&gray);
    clahe_enhance(&mut gray, w, h, 2, 20000);
    let new_stddev = stddev(&gray);

    // CLAHE should increase contrast (stddev should grow)
    assert!(
        new_stddev > orig_stddev,
        "CLAHE should increase contrast: orig={orig_stddev:.2}, new={new_stddev:.2}"
    );
}

#[test]
fn test_clahe_preserves_pixel_count() {
    let mut gray: Vec<u8> = (0..64).map(|i| (i * 3) as u8).collect();
    clahe_enhance(&mut gray, 8, 8, 2, 20000);
    assert_eq!(gray.len(), 64);
}

#[test]
fn test_clahe_degenerate_untouched() {
    // tiles larger than the image leave it unchanged
    let mut gray = vec![50u8, 60, 70, 80];
    let before = gray.clone();
    clahe_enhance(&mut gray, 2, 2, 8, 20000);
    assert_eq!(gray, before);
    // a buffer shorter than width * height is also untouched
    let mut short = vec![1u8, 2, 3];
    let before = short.clone();
    clahe_enhance(&mut short, 2, 2, 1, 20000);
    assert_eq!(short, before);
}

#[test]
fn test_clahe_uniform_tile_saturates() {
    // a uniform image concentrates each tile histogram in one bin; clipping
    // and redistribution push every pixel to the top of the range
    let mut gray = vec![90u8; 16];
    clahe_enhance(&mut gray, 4, 4, 2, 20000);
    assert_eq!(gray, vec![255u8; 16]);
}

#[test]
fn test_avg_brightness_milli() {
    let frame = visage::frame::Frame {
        data: vec![10, 20],
        width: 2,
        height: 1,
        timestamp_ms: 0,
        sequence: 0,
        is_dark: false,
    };
    assert_eq!(frame.avg_brightness(), 15000);
    let empty = visage::frame::Frame {
        data: vec![],
        width: 0,
        height: 0,
        timestamp_ms: 0,
        sequence: 0,
        is_dark: true,
    };
    assert_eq!(empty.avg_brightness(), 0);
}

fn stddev(data: &[u8]) -> f32 {
    let n = data.len() as f32;
    let mean = data.iter().map(|&b| b as f32).sum::<f32>() / n;
    let variance = data.iter().map(|&b| (b as f32 - mean).powi(2)).sum::<f32>() / n;
    variance.sqrt()
}
