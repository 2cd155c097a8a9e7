use visage::alignment::align_face;
use visage::alignment::estimate_similarity_transform;
use visage::alignment::reference_landmarks;
use visage::alignment::warp_affine;
use visage::alignment::SimilarityTransform;
use visage::alignment::TRANSFORM_SCALE;

#[test]
fn test_identity_transform() {
    // When src == dst, the transform should be identity-like (a~1, b~0).
    let pts = reference_landmarks();
    let m = estimate_similarity_transform(&pts, &pts);

    // a ~ 1.0 (tolerance 1e-4 of a unit)
    assert!((m.a - TRANSFORM_SCALE).abs() <= TRANSFORM_SCALE / 10000, "a = {}", m.a);
    // b ~ 0.0
    assert!(m.b.abs() <= TRANSFORM_SCALE / 10000, "b = {}", m.b);
    // translations ~ 0.0 (tolerance 1e-3 of a pixel, in 1/256-pixel units)
    assert!(m.tx.abs() <= 1, "tx = {}", m.tx);
    assert!(m.ty.abs() <= 1, "ty = {}", m.ty);
}

#[test]
fn test_scaled_transform() {
    // Source landmarks at 2x scale -> the transform should have a ~ 0.5.
    let src: [(i64, i64); 5] = [
        (19607, 26469),
        (37648, 26369),
        (28685, 36729),
        (21273, 47291),
        (36214, 47208),
    ];
    let m = estimate_similarity_transform(&src, &reference_landmarks());

    // Scale factor should be ~0.5 within 0.05
    assert!(
        (m.a - TRANSFORM_SCALE / 2).abs() <= TRANSFORM_SCALE / 20,
        "a = {}, expected ~{}",
        m.a,
        TRANSFORM_SCALE / 2
    );
}

#[test]
fn test_warp_output_size() {
    let frame = vec![128u8; 640 * 480];
    // the identity transform
    let m = SimilarityTransform { a: TRANSFORM_SCALE, b: 0, tx: 0, ty: 0 };
    let out = warp_affine(&frame, 640, 480, &m, 112);
    assert_eq!(out.len(), 112 * 112);
}

#[test]
fn test_align_face_output_size() {
    let frame = vec![128u8; 640 * 480];
    // landmarks already at the reference positions
    let landmarks = reference_landmarks();
    let aligned = align_face(&frame, 640, 480, &landmarks);
    assert_eq!(aligned.len(), 112 * 112);
}

#[test]
fn test_landmark_roundtrip() {
    // Place a bright patch at a landmark position and verify it lands near
    // the reference position after alignment.
    let w = 200usize;
    let h = 200usize;
    let mut frame = vec![0u8; w * h];

    // landmarks at (80,60), (120,60), (100,85), (85,110), (115,110) pixels
    let src_landmarks: [(i64, i64); 5] = [
        (20480, 15360),
        (30720, 15360),
        (25600, 21760),
        (21760, 28160),
        (29440, 28160),
    ];

    // Paint a 5x5 bright patch at the left eye (survives interpolation).
    let (lx, ly) = (80usize, 60usize);
    for dy in 0..5 {
        for dx in 0..5 {
            let px = lx - 2 + dx;
            let py = ly - 2 + dy;
            frame[py * w + px] = 255;
        }
    }

    let aligned = align_face(&frame, w as u32, h as u32, &src_landmarks);

    // The reference left eye position is (38.29, 51.70): sample a small area
    // around it and check for brightness.
    let ref_x = 38usize;
    let ref_y = 52usize;
    let mut max_val = 0u8;
    for dy in 0..3 {
        for dx in 0..3 {
            let x = ref_x - 1 + dx;
            let y = ref_y - 1 + dy;
            if x < 112 && y < 112 {
                max_val = max_val.max(aligned[y * 112 + x]);
            }
        }
    }
    assert!(max_val > 100, "Expected bright patch near reference left eye ({ref_x}, {ref_y}), max={max_val}");
}
