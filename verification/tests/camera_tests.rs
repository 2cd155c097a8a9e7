use visage::camera::buf_to_grayscale;
use visage::camera::check_capture_capability;
use visage::camera::pixel_format_of_fourcc;
use visage::camera::process_captured_buffer;
use visage::camera::CameraError;
use visage::camera::CapturePlan;
use visage::camera::PixelFormat;

#[test]
fn test_fourcc_dispatch() {
    assert_eq!(pixel_format_of_fourcc(b"YUYV"), Some(PixelFormat::Yuyv));
    assert_eq!(pixel_format_of_fourcc(b"GREY"), Some(PixelFormat::Grey));
    // both trailing-byte conventions of the 16-bit format are accepted
    assert_eq!(pixel_format_of_fourcc(b"Y16 "), Some(PixelFormat::Y16));
    assert_eq!(pixel_format_of_fourcc(b"Y16\0"), Some(PixelFormat::Y16));
    assert_eq!(pixel_format_of_fourcc(b"MJPG"), None);
}

#[test]
fn test_capture_capability_flag() {
    assert!(check_capture_capability(0x1).is_ok());
    assert!(check_capture_capability(0x5).is_ok());
    assert!(matches!(
        check_capture_capability(0x4),
        Err(CameraError::StreamingNotSupported)
    ));
}

#[test]
fn test_buf_to_grayscale_dispatch() {
    let yuyv = vec![10u8, 0, 20, 0];
    assert_eq!(buf_to_grayscale(PixelFormat::Yuyv, &yuyv, 2, 1).unwrap(), vec![10, 20]);
    let grey = vec![1u8, 2, 3];
    assert_eq!(buf_to_grayscale(PixelFormat::Grey, &grey, 2, 1).unwrap(), vec![1, 2]);
    let y16 = vec![0u8, 7, 0, 9];
    assert_eq!(buf_to_grayscale(PixelFormat::Y16, &y16, 2, 1).unwrap(), vec![7, 9]);
    assert!(buf_to_grayscale(PixelFormat::Grey, &grey, 2, 2).is_err());
}

#[test]
fn test_process_captured_buffer_drops_dark() {
    // an all-black buffer is dark and dropped
    let dark = vec![0u8; 8];
    let r = process_captured_buffer(PixelFormat::Grey, &dark, 4, 2, 95, 8, 20000).unwrap();
    assert!(r.is_none());
    // a bright buffer is kept (tile grid degenerate at this size: untouched)
    let bright = vec![200u8; 8];
    let r = process_captured_buffer(PixelFormat::Grey, &bright, 4, 2, 95, 8, 20000).unwrap();
    assert_eq!(r.unwrap().len(), 8);
    // a short buffer fails the capture
    let short = vec![200u8; 3];
    assert!(process_captured_buffer(PixelFormat::Grey, &short, 4, 2, 95, 8, 20000).is_err());
}

#[test]
fn test_capture_plan_budget() {
    let mut plan = CapturePlan::new(2);
    assert!(plan.wants_more());
    plan.record_dark();
    plan.record_dark();
    plan.record_kept();
    plan.record_dark();
    plan.record_dark();
    plan.record_kept();
    // target reached: stop even though attempts remain
    assert!(!plan.wants_more());
    assert_eq!(plan.kept, 2);
    assert_eq!(plan.dark_skipped, 4);
    assert_eq!(plan.attempts, 6);
}

#[test]
fn test_capture_plan_exhausts_attempts() {
    let mut plan = CapturePlan::new(1);
    plan.record_dark();
    plan.record_dark();
    plan.record_dark();
    // three dequeues per requested frame: budget exhausted
    assert!(!plan.wants_more());
    assert_eq!(plan.kept, 0);
}
