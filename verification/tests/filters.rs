use image_processor::blur::blur_rgba;
use image_processor::mirror::{mirror_horizontal_rgba, mirror_vertical_rgba};

#[test]
fn blur_test() {
    let mut buf = vec![
        1, 2, 3, 4, 5, 6, 7, 8, 9, 10, 11, 12, 13, 14, 15, 16, 17, 18, 19, 20, 21, 22, 23, 24, 25,
        26, 27, 28, 29, 30, 31, 32, 33, 34, 35, 36,
    ];
    blur_rgba(&mut buf, 3, 3, 2, 2);
    assert_eq!(
        buf,
        vec![
            17, 18, 19, 20, 17, 18, 19, 20, 17, 18, 19, 20, 17, 18, 19, 20, 17, 18, 19, 20, 17,
            18, 19, 20, 17, 18, 19, 20, 17, 18, 19, 20, 17, 18, 19, 20
        ]
    );
}

#[test]
fn horizontal_mirror() {
    let mut buf = vec![1, 2, 3, 4, 5, 6, 7, 8, 9, 10, 11, 12, 13, 14, 15, 16];
    mirror_horizontal_rgba(&mut buf, 2, 2);
    assert_eq!(buf, vec![5, 6, 7, 8, 1, 2, 3, 4, 13, 14, 15, 16, 9, 10, 11, 12]);
}

#[test]
fn vertical_mirror() {
    let mut buf = vec![1, 2, 3, 4, 5, 6, 7, 8, 9, 10, 11, 12, 13, 14, 15, 16];
    mirror_vertical_rgba(&mut buf, 2, 2);
    assert_eq!(buf, vec![9, 10, 11, 12, 13, 14, 15, 16, 1, 2, 3, 4, 5, 6, 7, 8]);
}

#[test]
fn blur_zero_radius_leaves_buffer_unchanged() {
    let mut buf = vec![9, 8, 7, 6, 5, 4, 3, 2, 1, 0, 255, 128, 1, 2, 3, 4];
    let orig = buf.clone();
    blur_rgba(&mut buf, 2, 2, 0, 5);
    assert_eq!(buf, orig);
}

#[test]
fn blur_zero_iterations_leaves_buffer_unchanged() {
    let mut buf = vec![9, 8, 7, 6, 5, 4, 3, 2, 1, 0, 255, 128, 1, 2, 3, 4];
    let orig = buf.clone();
    blur_rgba(&mut buf, 2, 2, 3, 0);
    assert_eq!(buf, orig);
}

#[test]
fn blur_full_radius_single_iteration_is_uniform_average() {
    // radius 5 clamps to max(3-1, 3-1) = 2: every window covers the whole
    // image, so one sweep leaves the truncating global average everywhere.
    let mut buf: Vec<u8> = (1..=36).collect();
    blur_rgba(&mut buf, 3, 3, 5, 1);
    for p in 0..9 {
        assert_eq!(&buf[p * 4..p * 4 + 4], &[17, 18, 19, 20]);
    }
}

#[test]
fn blur_truncates_channel_averages() {
    // Two pixels: channel sums are 1, 3, 5, 7 over 2 pixels; truncating
    // averages are 0, 1, 2, 3.
    let mut buf = vec![0, 1, 2, 3, 1, 2, 3, 4];
    blur_rgba(&mut buf, 2, 1, 1, 1);
    assert_eq!(buf, vec![0, 1, 2, 3, 0, 1, 2, 3]);
}

#[test]
fn blur_clamps_window_at_edges() {
    // A 3x1 row with radius 1: the edge pixels average over a two-pixel
    // window, the middle one over all three — clamped, not wrapped or
    // zero-padded.
    let mut buf = vec![10, 0, 0, 0, 20, 0, 0, 0, 90, 0, 0, 0];
    blur_rgba(&mut buf, 3, 1, 1, 1);
    assert_eq!(buf, vec![15, 0, 0, 0, 40, 0, 0, 0, 55, 0, 0, 0]);
}

#[test]
fn mirror_horizontal_twice_restores_buffer() {
    let mut buf: Vec<u8> = (0..60).collect();
    let orig = buf.clone();
    mirror_horizontal_rgba(&mut buf, 3, 5);
    assert_ne!(buf, orig);
    mirror_horizontal_rgba(&mut buf, 3, 5);
    assert_eq!(buf, orig);
}

#[test]
fn mirror_vertical_twice_restores_buffer() {
    let mut buf: Vec<u8> = (0..60).collect();
    let orig = buf.clone();
    mirror_vertical_rgba(&mut buf, 5, 3);
    assert_ne!(buf, orig);
    mirror_vertical_rgba(&mut buf, 5, 3);
    assert_eq!(buf, orig);
}

#[test]
fn mirror_horizontal_keeps_middle_column() {
    let mut buf: Vec<u8> = (0..12).collect();
    mirror_horizontal_rgba(&mut buf, 3, 1);
    assert_eq!(buf, vec![8, 9, 10, 11, 4, 5, 6, 7, 0, 1, 2, 3]);
}

#[test]
fn mirror_empty_image_is_noop() {
    let mut buf: Vec<u8> = vec![];
    mirror_horizontal_rgba(&mut buf, 0, 7);
    mirror_vertical_rgba(&mut buf, 7, 0);
    assert!(buf.is_empty());
}
