use image_processor::entry::{blur_process_image, mirror_process_image};

#[test]
fn blur_entry_end_to_end_three_by_three() {
    // A 3x3 RGBA image with channel values 1..36, blurred with radius 2 for
    // 2 iterations: radius covers the whole image, so every pixel becomes
    // the global truncating channel average [17, 18, 19, 20] and stays
    // there on the second pass.
    let mut buf: Vec<u8> = (1..=36).collect();
    blur_process_image(3, 3, &mut buf, "radius=2;iterations=2");
    for p in 0..9 {
        assert_eq!(&buf[p * 4..p * 4 + 4], &[17, 18, 19, 20]);
    }
}

#[test]
fn mirror_entry_end_to_end_two_by_two() {
    let start: Vec<u8> = (1..=16).collect();

    let mut buf = start.clone();
    mirror_process_image(2, 2, &mut buf, "horizontal");
    assert_eq!(buf, vec![5, 6, 7, 8, 1, 2, 3, 4, 13, 14, 15, 16, 9, 10, 11, 12]);

    let mut buf = start.clone();
    mirror_process_image(2, 2, &mut buf, "vertical");
    assert_eq!(buf, vec![9, 10, 11, 12, 13, 14, 15, 16, 1, 2, 3, 4, 5, 6, 7, 8]);
}

#[test]
fn mirror_entry_unrecognized_axis_is_noop() {
    let start: Vec<u8> = (1..=16).collect();
    for params in ["", "diagonal", "horizontal;", " horizontal", "axis"] {
        let mut buf = start.clone();
        mirror_process_image(2, 2, &mut buf, params);
        assert_eq!(buf, start, "params {:?} must not mutate", params);
    }
}

#[test]
fn blur_entry_neutral_parameters_are_noop() {
    let start: Vec<u8> = (1..=16).collect();
    for params in ["", "radius=0;iterations=3", "radius=2;iterations=0", "radius=2", "iterations=2"]
    {
        let mut buf = start.clone();
        blur_process_image(2, 2, &mut buf, params);
        assert_eq!(buf, start, "params {:?} must not mutate", params);
    }
}

#[test]
fn entry_rejects_zero_dimensions() {
    let start: Vec<u8> = (1..=16).collect();
    let mut buf = start.clone();
    blur_process_image(0, 2, &mut buf, "radius=1;iterations=1");
    assert_eq!(buf, start);
    mirror_process_image(2, 0, &mut buf, "horizontal");
    assert_eq!(buf, start);
}

#[test]
fn entry_rejects_mismatched_buffer_length() {
    // 2x2 RGBA needs 16 bytes; hand 12 and nothing may be touched.
    let start: Vec<u8> = (1..=12).collect();
    let mut buf = start.clone();
    blur_process_image(2, 2, &mut buf, "radius=1;iterations=1");
    assert_eq!(buf, start);
    mirror_process_image(2, 2, &mut buf, "vertical");
    assert_eq!(buf, start);
}

#[test]
fn entry_rejects_overflowing_byte_length() {
    let start: Vec<u8> = (1..=16).collect();
    let mut buf = start.clone();
    blur_process_image(u32::MAX, u32::MAX, &mut buf, "radius=1;iterations=1");
    assert_eq!(buf, start);
    mirror_process_image(u32::MAX, u32::MAX, &mut buf, "horizontal");
    assert_eq!(buf, start);
}
