use visage::detector::anchor_center;
use visage::detector::discover_output_indices;
use visage::detector::iou_ppm;
use visage::detector::letterbox_params;
use visage::detector::nms;
use visage::detector::Detection;

fn make_bbox(x: i64, y: i64, w: i64, h: i64, conf_ppm: i64) -> Detection {
    Detection {
        x: x * 256,
        y: y * 256,
        width: w * 256,
        height: h * 256,
        confidence_ppm: conf_ppm,
        landmarks: None,
    }
}

#[test]
fn test_iou_identical() {
    let a = make_bbox(0, 0, 100, 100, 1000000);
    assert_eq!(iou_ppm(&a, &a), 1000000);
}

#[test]
fn test_iou_no_overlap() {
    let a = make_bbox(0, 0, 10, 10, 1000000);
    let b = make_bbox(20, 20, 10, 10, 1000000);
    assert_eq!(iou_ppm(&a, &b), 0);
}

#[test]
fn test_iou_partial() {
    let a = make_bbox(0, 0, 10, 10, 1000000);
    let b = make_bbox(5, 0, 10, 10, 1000000);
    // Overlap: 5x10 = 50, union: 100+100-50 = 150
    let expected = 1000000 / 3;
    assert!((iou_ppm(&a, &b) - expected).abs() <= 1);
}

#[test]
fn test_nms_suppresses_overlapping() {
    let detections = vec![
        make_bbox(0, 0, 100, 100, 900000),
        make_bbox(5, 5, 100, 100, 800000),
        make_bbox(200, 200, 50, 50, 700000),
    ];
    let result = nms(detections, 400000);
    assert_eq!(result.len(), 2);
    assert_eq!(result[0].confidence_ppm, 900000);
    assert_eq!(result[1].confidence_ppm, 700000);
}

#[test]
fn test_nms_no_suppression() {
    let detections = vec![
        make_bbox(0, 0, 10, 10, 900000),
        make_bbox(50, 50, 10, 10, 800000),
    ];
    let result = nms(detections, 400000);
    assert_eq!(result.len(), 2);
}

#[test]
fn test_nms_empty() {
    let result = nms(vec![], 400000);
    assert!(result.is_empty());
}

#[test]
fn test_nms_keeps_landmarks() {
    let mut d = make_bbox(0, 0, 10, 10, 600000);
    d.landmarks = Some([(1, 2), (3, 4), (5, 6), (7, 8), (9, 10)]);
    let result = nms(vec![d], 400000);
    assert_eq!(result.len(), 1);
    assert_eq!(result[0].landmarks, Some([(1, 2), (3, 4), (5, 6), (7, 8), (9, 10)]));
}

#[test]
fn test_letterbox_coordinate_roundtrip() {
    let width = 320.0f32;
    let height = 240.0f32;
    let scale_w = 640.0 / width;
    let scale_h = 640.0 / height;
    let scale = scale_w.min(scale_h);
    let new_w = (width * scale).round();
    let new_h = (height * scale).round();
    let pad_x = (640.0 - new_w) / 2.0;
    let pad_y = (640.0 - new_h) / 2.0;

    let orig_x = 100.0f32;
    let orig_y = 50.0f32;
    let letterboxed_x = orig_x * scale + pad_x;
    let letterboxed_y = orig_y * scale + pad_y;

    let recovered_x = (letterboxed_x - pad_x) / scale;
    let recovered_y = (letterboxed_y - pad_y) / scale;

    assert!((recovered_x - orig_x).abs() < 0.1, "x: {recovered_x} vs {orig_x}");
    assert!((recovered_y - orig_y).abs() < 0.1, "y: {recovered_y} vs {orig_y}");
}

#[test]
fn test_letterbox_params_values() {
    // 320x240 into 640: scale 2, no padding on x, 160 rows of padding split
    let (new_w, new_h, pad_x, pad_y) = letterbox_params(320, 240, 640);
    assert_eq!((new_w, new_h), (640, 480));
    assert_eq!((pad_x, pad_y), (0, 80));
    // 640x360 into 640: scale 1, 280 rows of padding split
    let (new_w, new_h, pad_x, pad_y) = letterbox_params(640, 360, 640);
    assert_eq!((new_w, new_h), (640, 360));
    assert_eq!((pad_x, pad_y), (0, 140));
}

#[test]
fn test_anchor_center_grid() {
    // grid 80 cells wide, stride 8, two anchors per cell
    assert_eq!(anchor_center(0, 80, 8), (0, 0));
    assert_eq!(anchor_center(1, 80, 8), (0, 0));
    assert_eq!(anchor_center(2, 80, 8), (8, 0));
    assert_eq!(anchor_center(160, 80, 8), (0, 8));
}

#[test]
fn test_discover_output_indices_named() {
    let names: Vec<String> = [
        "score_8", "score_16", "score_32", "bbox_8", "bbox_16", "bbox_32", "kps_8", "kps_16",
        "kps_32",
    ]
    .iter()
    .map(|s| s.to_string())
    .collect();

    let indices = discover_output_indices(&names);

    // stride 8: score at 0, bbox at 3, kps at 6
    assert_eq!(indices[0], (0, 3, 6));
    // stride 16: score at 1, bbox at 4, kps at 7
    assert_eq!(indices[1], (1, 4, 7));
    // stride 32: score at 2, bbox at 5, kps at 8
    assert_eq!(indices[2], (2, 5, 8));
}

#[test]
fn test_discover_output_indices_shuffled_named() {
    // Named but in non-standard order
    let names: Vec<String> = [
        "bbox_8", "kps_8", "score_8", "bbox_16", "kps_16", "score_16", "bbox_32", "kps_32",
        "score_32",
    ]
    .iter()
    .map(|s| s.to_string())
    .collect();

    let indices = discover_output_indices(&names);

    // score_8 at index 2, bbox_8 at 0, kps_8 at 1
    assert_eq!(indices[0], (2, 0, 1));
    assert_eq!(indices[1], (5, 3, 4));
    assert_eq!(indices[2], (8, 6, 7));
}

#[test]
fn test_discover_output_indices_positional_fallback() {
    // Generic numeric names — should fall back to positional
    let names: Vec<String> = (0..9).map(|i: usize| i.to_string()).collect();
    let indices = discover_output_indices(&names);
    assert_eq!(indices, [(0, 3, 6), (1, 4, 7), (2, 5, 8)]);
}

#[test]
fn test_bilinear_resize_uniform() {
    // Uniform frame resized should remain uniform
    let w = 100usize;
    let h = 100usize;
    let frame = vec![128u8; w * h];

    // Simulate the bilinear resize portion of detector preprocessing
    let new_w = 200usize;
    let new_h = 200usize;
    let inv_scale = 0.5f32;

    let mut resized = vec![0u8; new_w * new_h];
    for y in 0..new_h {
        let src_y = (y as f32 + 0.5) * inv_scale - 0.5;
        let y0 = (src_y.floor() as i32).clamp(0, h as i32 - 1) as usize;
        let y1 = (y0 + 1).min(h - 1);
        let fy = (src_y - src_y.floor()).clamp(0.0, 1.0);
        for x in 0..new_w {
            let src_x = (x as f32 + 0.5) * inv_scale - 0.5;
            let x0 = (src_x.floor() as i32).clamp(0, w as i32 - 1) as usize;
            let x1 = (x0 + 1).min(w - 1);
            let fx = (src_x - src_x.floor()).clamp(0.0, 1.0);
            let tl = frame[y0 * w + x0] as f32;
            let tr = frame[y0 * w + x1] as f32;
            let bl = frame[y1 * w + x0] as f32;
            let br = frame[y1 * w + x1] as f32;
            let val = tl * (1.0 - fx) * (1.0 - fy)
                + tr * fx * (1.0 - fy)
                + bl * (1.0 - fx) * fy
                + br * fx * fy;
            resized[y * new_w + x] = val.round() as u8;
        }
    }

    // All pixels should be 128 (uniform input stays uniform)
    assert!(resized.iter().all(|&p| p == 128), "uniform resize should stay uniform");
}
