use p2p_videochat::capture::{
    CameraCapture, CaptureEvent, CaptureError, classify_capture_error, contains_subslice,
    should_capture, probe_plan, device_indices,
};

fn test_frame(len: usize, seed: u8) -> Vec<u8> {
    (0..len).map(|i| (i as u8).wrapping_add(seed)).collect()
}

#[test]
fn transient_failures_replay_last_capture() {
    let mut cam = CameraCapture::new(2, 2);
    let frame = test_frame(12, 3);
    let got = cam.get_frame(CaptureEvent::Captured { frame: frame.clone() }).unwrap();
    assert_eq!(got, frame);
    // Fewer than 3 consecutive hardware-transient failures: every call
    // hands back bytes identical to the last successful capture.
    for _ in 0..2 {
        let replay = cam.get_frame(CaptureEvent::Failed { hardware: true }).unwrap();
        assert_eq!(replay, frame);
    }
    assert!(cam.is_healthy());
}

#[test]
fn health_flips_after_six_failures_and_back_on_success() {
    let mut cam = CameraCapture::new(2, 2);
    let frame = test_frame(12, 0);
    cam.get_frame(CaptureEvent::Captured { frame: frame.clone() }).unwrap();
    for i in 0..6 {
        assert!(cam.is_healthy(), "still healthy before failure {}", i);
        cam.get_frame(CaptureEvent::Failed { hardware: true }).unwrap();
    }
    assert!(!cam.is_healthy());
    cam.get_frame(CaptureEvent::Captured { frame }).unwrap();
    assert!(cam.is_healthy());
}

#[test]
fn hardware_failure_without_backup_yields_black_frame() {
    let mut cam = CameraCapture::new(2, 3);
    let got = cam.get_frame(CaptureEvent::Failed { hardware: true }).unwrap();
    assert_eq!(got, vec![0u8; 2 * 3 * 3]);
}

#[test]
fn other_failure_without_backup_is_an_error() {
    let mut cam = CameraCapture::new(2, 2);
    let got = cam.get_frame(CaptureEvent::Failed { hardware: false });
    assert_eq!(got, Err(CaptureError::NoFrameAvailable));
}

#[test]
fn wrong_size_capture_is_returned_but_not_kept() {
    let mut cam = CameraCapture::new(2, 2);
    let small = test_frame(5, 1);
    let got = cam.get_frame(CaptureEvent::Captured { frame: small.clone() }).unwrap();
    assert_eq!(got, small);
    // Nothing was kept as a backup, so a hardware failure falls back to
    // the black frame.
    let fallback = cam.get_frame(CaptureEvent::Failed { hardware: true }).unwrap();
    assert_eq!(fallback, vec![0u8; 12]);
}

#[test]
fn dimensions_are_reported() {
    let cam = CameraCapture::new(320, 240);
    assert_eq!(cam.dimensions(), (320, 240));
}

#[test]
fn classifier_recognizes_vendor_signatures() {
    assert!(classify_capture_error(b"Hardware MFT failed to start streaming"));
    assert!(classify_capture_error(b"got 0xC00D3704 from the driver"));
    assert!(classify_capture_error(b"the hardware is busy"));
    assert!(classify_capture_error(b"MFT"));
    assert!(!classify_capture_error(b"device disconnected"));
    assert!(!classify_capture_error(b""));
    // Case matters: the signatures are matched byte for byte.
    assert!(!classify_capture_error(b"HARDWARE"));
}

#[test]
fn subslice_search_is_exact() {
    assert!(contains_subslice(b"abcdef", b"cde"));
    assert!(contains_subslice(b"abcdef", b""));
    assert!(contains_subslice(b"abcdef", b"abcdef"));
    assert!(!contains_subslice(b"abcdef", b"abcdefg"));
    assert!(!contains_subslice(b"abcdef", b"ce"));
    assert!(!contains_subslice(b"", b"a"));
    assert!(contains_subslice(b"aab", b"ab"));
}

#[test]
fn capture_rate_degrades_while_unhealthy() {
    assert!(should_capture(true, 1));
    assert!(should_capture(true, 2));
    assert!(!should_capture(false, 1));
    assert!(should_capture(false, 2));
}

#[test]
fn probe_plan_shape() {
    let plan = probe_plan();
    assert_eq!(plan.len(), 6);
    let indices = device_indices();
    assert_eq!(indices, vec![0, 1]);
}
