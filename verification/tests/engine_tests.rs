use visage::config::Config;
use visage::detector::Detection;
use visage::engine::aggregate_verify;
use visage::engine::select_best_detection;
use visage::engine::EngineError;
use visage::engine::FrameMatch;
use visage::ir_emitter::activation_payload;
use visage::ir_emitter::deactivation_payload;
use visage::ir_emitter::UVCIOC_CTRL_QUERY;
use visage::ir_emitter::UVC_SET_CUR;
use visage::quirks::list_quirks;
use visage::quirks::lookup_quirk;
use visage::quirks::parse_hex_u16;
use visage::recognizer::require_landmarks;
use visage::recognizer::RecognizerError;
use visage::types::MatchResult;

fn det(conf_ppm: i64) -> Detection {
    Detection {
        x: 0,
        y: 0,
        width: 2560,
        height: 2560,
        confidence_ppm: conf_ppm,
        landmarks: None,
    }
}

fn frame_match(sim_ppm: i64, conf_ppm: i64) -> FrameMatch {
    FrameMatch {
        result: MatchResult {
            matched: sim_ppm >= 400000,
            similarity_ppm: sim_ppm,
            model_id: None,
            model_label: None,
        },
        confidence_ppm: conf_ppm,
    }
}

#[test]
fn test_select_best_detection_highest_wins() {
    let frames = vec![Some(det(700000)), None, Some(det(900000)), Some(det(800000))];
    let (idx, best) = select_best_detection(&frames).unwrap();
    assert_eq!(idx, 2);
    assert_eq!(best.confidence_ppm, 900000);
}

#[test]
fn test_select_best_detection_ties_favor_earlier() {
    let frames = vec![Some(det(800000)), Some(det(800000))];
    let (idx, _) = select_best_detection(&frames).unwrap();
    assert_eq!(idx, 0);
}

#[test]
fn test_select_best_detection_none() {
    assert!(select_best_detection(&vec![None, None]).is_none());
    assert!(select_best_detection(&vec![]).is_none());
    // a zero-confidence face never wins
    assert!(select_best_detection(&vec![Some(det(0))]).is_none());
}

#[test]
fn test_aggregate_verify_best_similarity_wins() {
    let frames = vec![
        Some(frame_match(300000, 910000)),
        None,
        Some(frame_match(650000, 870000)),
        Some(frame_match(650000, 990000)),
    ];
    let vr = aggregate_verify(&frames).unwrap();
    // strictly-better similarity wins, so the earlier 650000 frame is kept
    assert_eq!(vr.result.similarity_ppm, 650000);
    assert_eq!(vr.best_quality_ppm, 870000);
    assert!(vr.result.matched);
}

#[test]
fn test_aggregate_verify_no_face() {
    let r = aggregate_verify(&vec![None, None]);
    assert!(matches!(r, Err(EngineError::NoFaceDetected)));
}

#[test]
fn test_extract_requires_landmarks() {
    let mut face = det(900000);
    assert!(matches!(
        require_landmarks(&face),
        Err(RecognizerError::NoLandmarks)
    ));
    face.landmarks = Some([(1, 1), (2, 1), (1, 2), (0, 3), (2, 3)]);
    assert_eq!(require_landmarks(&face).unwrap(), [(1, 1), (2, 1), (1, 2), (0, 3), (2, 3)]);
}

#[test]
fn test_config_defaults() {
    let c = Config::defaults();
    assert_eq!(c.camera_device, "/dev/video2");
    assert_eq!(c.similarity_threshold_ppm, 400000);
    assert_eq!(c.verify_timeout_secs, 10);
    assert_eq!(c.warmup_frames, 4);
    assert_eq!(c.frames_per_verify, 3);
    assert_eq!(c.frames_per_enroll, 5);
    assert!(c.emitter_enabled);
    assert!(c.scrfd_model_path().ends_with("/det_10g.onnx"));
    assert!(c.arcface_model_path().ends_with("/w600k_r50.onnx"));
}

#[test]
fn test_quirk_lookup() {
    let q = lookup_quirk(0x04f2, 0xb6d9).expect("compiled-in quirk must parse");
    assert_eq!(q.device.vendor_id, 0x04f2);
    assert_eq!(q.device.product_id, 0xb6d9);
    assert!(!q.emitter.control_bytes.is_empty());
    assert!(lookup_quirk(0xffff, 0x0001).is_none());
    assert_eq!(list_quirks().len(), 1);
}

#[test]
fn test_emitter_payloads() {
    let q = lookup_quirk(0x04f2, 0xb6d9).unwrap();
    let on = activation_payload(&q);
    assert_eq!(on, q.emitter.control_bytes);
    let off = deactivation_payload(&q);
    assert_eq!(off.len(), on.len());
    assert!(off.iter().all(|&b| b == 0));
}

#[test]
fn test_uvc_constants() {
    assert_eq!(UVCIOC_CTRL_QUERY, 0xC010_7521);
    assert_eq!(UVC_SET_CUR, 0x01);
}

#[test]
fn test_parse_hex_u16() {
    assert_eq!(parse_hex_u16(b"04f2"), Some(0x04f2));
    assert_eq!(parse_hex_u16(b"B6D9"), Some(0xb6d9));
    assert_eq!(parse_hex_u16(b"0"), Some(0));
    assert_eq!(parse_hex_u16(b"ffff"), Some(0xffff));
    assert_eq!(parse_hex_u16(b"10000"), None);
    assert_eq!(parse_hex_u16(b""), None);
    assert_eq!(parse_hex_u16(b"12g4"), None);
}
