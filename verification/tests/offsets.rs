use image_processor::pixel::pixel_offset;

#[test]
fn pixel_offsets_stay_inside_buffer() {
    // Every computed channel offset must stay below width * height * 4 for
    // all dimension and coordinate combinations up to a bound.
    for width in 1usize..=24 {
        for height in 1usize..=24 {
            let len = width * height * 4;
            for y in 0..height {
                for x in 0..width {
                    let off = pixel_offset(width, height, x, y);
                    assert_eq!(off, (y * width + x) * 4);
                    assert!(off + 3 <= len - 1);
                }
            }
        }
    }
}

#[test]
fn pixel_offsets_near_usize_limit() {
    // A one-row image as wide as the address space allows: the last pixel's
    // last channel byte still lands on the last byte of the buffer.
    let width = usize::MAX / 4;
    let off = pixel_offset(width, 1, width - 1, 0);
    assert_eq!(off + 3, width * 4 - 1);
}
