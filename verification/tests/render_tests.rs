use p2p_videochat::render::TerminalDisplay;

fn sample_frame() -> Vec<u8> {
    vec![10, 20, 30, 40, 50, 60, 70, 80, 90, 100, 110, 120]
}

#[test]
fn display_is_sized_from_first_frame_dimensions() {
    // The receiving side sizes its display from the incoming frame's
    // 640x480, whatever the local capture does.
    let d = TerminalDisplay::new(640, 480, 120, 40, true);
    assert_eq!((d.cam_w, d.cam_h), (640, 480));
    assert!(d.redraw);
}

#[test]
fn layout_on_a_conventional_terminal() {
    let d = TerminalDisplay::new(640, 480, 120, 40, true);
    // 118 usable columns and 37 usable rows of two samples each:
    // ceil(640/118) = 6, ceil(480/74) = 7, so the scale is 7.
    assert_eq!(d.scale, 7);
    assert_eq!(d.disp_w, 91);
    assert_eq!(d.disp_h, 34);
    assert_eq!(d.h_pad, (120 - 91) / 2);
    assert_eq!(d.v_pad, (40 - 2 - 34) / 2);
}

#[test]
fn layout_never_scales_below_two() {
    let d = TerminalDisplay::new(2, 2, 10, 10, true);
    assert_eq!(d.scale, 2);
    assert_eq!((d.disp_w, d.disp_h), (1, 1));
    assert_eq!((d.h_pad, d.v_pad), (4, 3));
}

#[test]
fn tiny_terminal_still_yields_a_cell() {
    let d = TerminalDisplay::new(640, 480, 1, 1, true);
    assert_eq!((d.disp_w, d.disp_h), (1, 1));
}

#[test]
fn first_color_frame_paints_exactly() {
    let mut d = TerminalDisplay::new(2, 2, 10, 10, true);
    let out = d.show_frame(&sample_frame(), 10, 10);
    let mut expected: Vec<u8> = Vec::new();
    expected.extend_from_slice(b"\x1b[2J\x1b[H");
    expected.extend_from_slice(b"\n\n\n");
    expected.extend_from_slice(b"    ");
    expected.extend_from_slice(b"\x1b[38;2;10;20;30m\x1b[48;2;70;80;90m");
    expected.extend_from_slice("\u{2580}".as_bytes());
    expected.extend_from_slice(b"\x1b[0m\n");
    assert_eq!(out, expected);
    assert!(!d.redraw);
}

#[test]
fn second_frame_repaints_incrementally() {
    let mut d = TerminalDisplay::new(2, 2, 10, 10, true);
    let first = d.show_frame(&sample_frame(), 10, 10);
    let second = d.show_frame(&sample_frame(), 10, 10);
    assert!(first.starts_with(b"\x1b[2J\x1b[H"));
    assert!(second.starts_with(b"\x1b[H"));
    assert!(!second.starts_with(b"\x1b[2J"));
    // Past the prefix, the same picture is painted.
    assert_eq!(&first[7..], &second[3..]);
}

#[test]
fn terminal_resize_forces_full_repaint() {
    let mut d = TerminalDisplay::new(2, 2, 10, 10, true);
    d.show_frame(&sample_frame(), 10, 10);
    assert!(!d.redraw);
    let out = d.show_frame(&sample_frame(), 20, 10);
    assert!(out.starts_with(b"\x1b[2J\x1b[H"));
    assert_eq!(d.term_w, 20);
    assert_eq!(d.h_pad, (20 - 1) / 2);
    assert!(!d.redraw);
}

#[test]
fn monochrome_frame_uses_brightness_ramp() {
    let mut d = TerminalDisplay::new(2, 2, 10, 10, false);
    let out = d.show_frame(&sample_frame(), 10, 10);
    let mut expected: Vec<u8> = Vec::new();
    expected.extend_from_slice(&[b'\n'; 10]);
    expected.extend_from_slice(&[8u8; 10]);
    expected.extend_from_slice(b"\n\n\n");
    expected.extend_from_slice(b"    ");
    // Top sample brightness (10+20+30)/3 = 20 falls in the darkest
    // bucket: a blank.
    expected.push(b' ');
    expected.push(b'\n');
    assert_eq!(out, expected);
}

#[test]
fn ramp_buckets_cover_the_brightness_range() {
    // One-cell display; drive the top sample through the buckets.
    for (v, ch) in [(0u8, b' '), (52, b'.'), (103, b':'), (154, b'#'), (205, b'@')] {
        let mut d = TerminalDisplay::new(2, 2, 10, 10, false);
        let mut frame = vec![0u8; 12];
        frame[0] = v;
        frame[1] = v;
        frame[2] = v;
        let out = d.show_frame(&frame, 10, 10);
        // The cell is the byte before the final newline.
        assert_eq!(out[out.len() - 2], ch, "brightness {}", v);
    }
}

#[test]
fn out_of_frame_cells_are_blank() {
    let mut d = TerminalDisplay::new(2, 2, 10, 10, true);
    // A frame too short for the bottom sample: the cell is a blank, no
    // escape is emitted for it.
    let out = d.show_frame(&[1, 2, 3], 10, 10);
    let mut expected: Vec<u8> = Vec::new();
    expected.extend_from_slice(b"\x1b[2J\x1b[H");
    expected.extend_from_slice(b"\n\n\n");
    expected.extend_from_slice(b"    ");
    expected.push(b' ');
    expected.extend_from_slice(b"\x1b[0m\n");
    assert_eq!(out, expected);
}
