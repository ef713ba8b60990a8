use bit_bound::framebuffer::{FrameBuffer, HEIGHT, PALETTE, WIDTH};

#[test]
fn set_then_get_round_trips() {
    let mut fb = FrameBuffer::new();
    for color in 0..4u8 {
        for &(x, y) in &[(0usize, 0usize), (1, 0), (3, 7), (159, 143), (80, 72)] {
            fb.set_pixel(x, y, color);
            assert_eq!(fb.get_pixel(x, y), color);
        }
    }
}

#[test]
fn set_leaves_neighbours_alone() {
    let mut fb = FrameBuffer::new();
    fb.clear(1);
    fb.set_pixel(5, 5, 3);
    assert_eq!(fb.get_pixel(4, 5), 1);
    assert_eq!(fb.get_pixel(6, 5), 1);
    assert_eq!(fb.get_pixel(7, 5), 1);
    assert_eq!(fb.get_pixel(5, 4), 1);
    assert_eq!(fb.get_pixel(5, 5), 3);
    // Only the two bits of pixel 5 of row 5 change: index 805, byte 201, lane 1.
    assert_eq!(fb.raw()[201], 0b0101_1101);
}

#[test]
fn color_is_masked_to_two_bits() {
    let mut fb = FrameBuffer::new();
    fb.set_pixel(2, 2, 0b1110);
    assert_eq!(fb.get_pixel(2, 2), 2);
    fb.clear(7);
    assert_eq!(fb.get_pixel(0, 0), 3);
    assert!(fb.raw().iter().all(|&b| b == 0xff));
}

#[test]
fn out_of_bounds_is_a_no_op() {
    let mut fb = FrameBuffer::new();
    fb.clear(2);
    let before = fb.raw().to_vec();
    fb.set_pixel(WIDTH, 0, 1);
    fb.set_pixel(0, HEIGHT, 1);
    fb.set_pixel(usize::MAX, usize::MAX, 3);
    assert_eq!(fb.raw(), &before[..]);
    assert_eq!(fb.get_pixel(WIDTH, 0), 0);
    assert_eq!(fb.get_pixel(0, HEIGHT), 0);
}

#[test]
fn raw_has_four_pixels_per_byte() {
    let fb = FrameBuffer::new();
    assert_eq!(fb.raw().len(), WIDTH * HEIGHT / 4);
}

#[test]
fn rgba_buffer_is_raster_ordered() {
    let mut fb = FrameBuffer::new();
    fb.clear(0);
    fb.set_pixel(1, 0, 1);
    fb.set_pixel(0, 1, 2);
    fb.set_pixel(159, 143, 3);
    let mut out = vec![0u32; WIDTH * HEIGHT];
    fb.to_rgba_buffer(&mut out);
    assert_eq!(out[0], 0xFF0F380F);
    assert_eq!(out[1], 0xFF306230);
    assert_eq!(out[WIDTH], 0xFF8BAC0F);
    assert_eq!(out[WIDTH * HEIGHT - 1], 0xFF9BBC0F);
    assert_eq!(out[2], PALETTE[0]);
}

#[test]
fn rgba_buffer_tail_is_left_alone() {
    let mut fb = FrameBuffer::new();
    fb.clear(3);
    let mut out = vec![7u32; WIDTH * HEIGHT + 5];
    fb.to_rgba_buffer(&mut out);
    assert_eq!(out[WIDTH * HEIGHT - 1], PALETTE[3]);
    assert!(out[WIDTH * HEIGHT..].iter().all(|&c| c == 7));
}
