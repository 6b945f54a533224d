use p2p_videochat::scale::{reduce_frame_size, placeholder_frame};

#[test]
fn resize_returns_exactly_dst_size() {
    let frame = vec![0u8; 4 * 4 * 3];
    for (dw, dh) in [(1u32, 1u32), (2, 2), (3, 5), (8, 8), (640, 480)] {
        let out = reduce_frame_size(&frame, 4, 4, dw, dh);
        assert_eq!(out.len(), (dw * dh * 3) as usize);
    }
}

#[test]
fn resize_to_one_pixel_takes_top_left() {
    // 2x2 source; destination pixel (0,0) maps to source (0,0).
    let frame = vec![10u8, 11, 12, 20, 21, 22, 30, 31, 32, 40, 41, 42];
    let out = reduce_frame_size(&frame, 2, 2, 1, 1);
    assert_eq!(out, vec![10, 11, 12]);
}

#[test]
fn resize_identity_keeps_bytes() {
    let frame: Vec<u8> = (0u8..27).collect();
    let out = reduce_frame_size(&frame, 3, 3, 3, 3);
    assert_eq!(out, frame);
}

#[test]
fn resize_upscale_repeats_pixels() {
    // 1x1 source scaled to 2x2: every destination pixel is the source
    // pixel.
    let frame = vec![7u8, 8, 9];
    let out = reduce_frame_size(&frame, 1, 1, 2, 2);
    assert_eq!(out, vec![7, 8, 9, 7, 8, 9, 7, 8, 9, 7, 8, 9]);
}

#[test]
fn resize_zero_fills_missing_source() {
    // The source claims 2x2 pixels but carries bytes for just one; the
    // pixels that fall outside come out black.
    let frame = vec![5u8, 6, 7];
    let out = reduce_frame_size(&frame, 2, 2, 2, 2);
    assert_eq!(out, vec![5, 6, 7, 0, 0, 0, 0, 0, 0, 0, 0, 0]);
}

#[test]
fn placeholder_has_transmission_size() {
    let f = placeholder_frame();
    assert_eq!(f.len(), 640 * 480 * 3);
}

#[test]
fn placeholder_center_is_white() {
    let f = placeholder_frame();
    let idx = (240 * 640 + 320) * 3;
    assert_eq!(&f[idx..idx + 3], &[255, 255, 255]);
}

#[test]
fn placeholder_checkerboard_tones() {
    let f = placeholder_frame();
    // (0,0): same parity squares -> bright tone.
    assert_eq!(&f[0..3], &[180, 40, 40]);
    // (40,0): differing parity -> dark tone.
    let idx = 40 * 3;
    assert_eq!(&f[idx..idx + 3], &[120, 20, 20]);
}
