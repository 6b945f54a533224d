use p2p_videochat::gate::frames_differ;

fn flat_frame(pixels: usize, value: u8) -> Vec<u8> {
    vec![value; pixels * 3]
}

#[test]
fn identical_frames_are_never_sent() {
    let a = flat_frame(10, 128);
    assert!(!frames_differ(&a, &a, 0));
    assert!(!frames_differ(&a, &a, 1));
    assert!(!frames_differ(&a, &a, 100));
    assert!(!frames_differ(&a, &a, 255));
}

#[test]
fn identical_large_frames_are_never_sent() {
    let a = flat_frame(20000, 77);
    assert!(!frames_differ(&a, &a, 1));
}

#[test]
fn size_mismatch_always_sends() {
    let a = flat_frame(10, 0);
    let b = flat_frame(11, 0);
    assert!(frames_differ(&a, &b, 100));
    assert!(frames_differ(&b, &a, 100));
}

#[test]
fn empty_frames_always_send() {
    let a: Vec<u8> = Vec::new();
    assert!(frames_differ(&a, &a, 255));
}

#[test]
fn single_pixel_over_sensitivity_sends() {
    // One pixel; channel sum difference 46 exceeds the sensitivity of 45.
    let a = vec![0u8, 0, 0];
    let b = vec![0u8, 0, 46];
    assert!(frames_differ(&a, &b, 1));
}

#[test]
fn single_pixel_at_sensitivity_does_not_send() {
    // Channel sum difference exactly 45 is not "changed".
    let a = vec![0u8, 0, 0];
    let b = vec![0u8, 0, 45];
    assert!(!frames_differ(&a, &b, 0));
}

#[test]
fn threshold_is_strict() {
    // One pixel, fully changed: 100% changed samples.  A threshold of
    // 100 is not exceeded (the comparison is strict), 99 is.
    let a = vec![0u8, 0, 0];
    let b = vec![255u8, 255, 255];
    assert!(frames_differ(&a, &b, 99));
    assert!(!frames_differ(&a, &b, 100));
}

#[test]
fn gate_is_symmetric() {
    let mut a = flat_frame(100, 10);
    let b = flat_frame(100, 200);
    a[30] = 250;
    a[31] = 1;
    for t in [0u8, 1, 5, 50, 100, 255] {
        assert_eq!(frames_differ(&a, &b, t), frames_differ(&b, &a, t));
    }
}

#[test]
fn small_change_below_threshold_is_suppressed() {
    // 100 pixels, one changed sample out of 100 sampled: a 1% change,
    // suppressed at a 5% (or even 1%) threshold, sent only at 0%.
    let a = flat_frame(100, 0);
    let mut b = a.clone();
    b[0] = 255;
    b[1] = 255;
    assert!(!frames_differ(&a, &b, 5));
    assert!(!frames_differ(&a, &b, 1));
    assert!(frames_differ(&a, &b, 0));
}
