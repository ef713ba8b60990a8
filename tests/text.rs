use bit_bound::debug::{DebugInfo, render_debug_overlay};
use bit_bound::draw::FONT_ADVANCE;
use bit_bound::font::get_glyph;
use bit_bound::framebuffer::FrameBuffer;

fn row(fb: &FrameBuffer, x0: usize, y: usize, n: usize) -> Vec<u8> {
    (x0..x0 + n).map(|x| fb.get_pixel(x, y)).collect()
}

#[test]
fn glyph_lookup() {
    assert_eq!(get_glyph('1').unwrap().rows, [0b010, 0b110, 0b010, 0b010, 0b111]);
    assert_eq!(get_glyph('Z').unwrap().rows, [0b111, 0b001, 0b010, 0b100, 0b111]);
    assert!(get_glyph('a').is_none());
    assert!(get_glyph('?').is_none());
}

#[test]
fn draw_char_lights_glyph_cells() {
    let mut fb = FrameBuffer::new();
    let glyph = get_glyph('1').unwrap();
    fb.draw_char(10, 20, &glyph, 3);
    assert_eq!(row(&fb, 10, 20, 3), vec![0, 3, 0]);
    assert_eq!(row(&fb, 10, 21, 3), vec![3, 3, 0]);
    assert_eq!(row(&fb, 10, 24, 3), vec![3, 3, 3]);
    assert_eq!(fb.get_pixel(13, 24), 0);
    assert_eq!(fb.get_pixel(10, 25), 0);
}

#[test]
fn unlit_cells_keep_background() {
    let mut fb = FrameBuffer::new();
    fb.clear(2);
    fb.draw_char(0, 0, &get_glyph('1').unwrap(), 0);
    assert_eq!(row(&fb, 0, 0, 3), vec![2, 0, 2]);
}

#[test]
fn draw_text_skips_unknown_but_advances() {
    let mut fb = FrameBuffer::new();
    fb.draw_text(0, 0, "a1", 3);
    assert_eq!(row(&fb, 0, 0, 4), vec![0, 0, 0, 0]);
    assert_eq!(row(&fb, FONT_ADVANCE, 0, 3), vec![0, 3, 0]);
}

#[test]
fn draw_text_clips_at_right_edge() {
    let mut fb = FrameBuffer::new();
    fb.draw_text(158, 0, "HH", 1);
    assert_eq!(row(&fb, 158, 0, 2), vec![1, 0]);
}

#[test]
fn draw_u32_zero_pads() {
    let mut fb = FrameBuffer::new();
    fb.draw_u32(0, 0, 42, 3, 3);
    // '0' then '4' then '2', top rows 111, 101, 111.
    assert_eq!(row(&fb, 0, 0, 12), vec![3, 3, 3, 0, 3, 0, 3, 0, 3, 3, 3, 0]);
    // '4' has row 2 full.
    assert_eq!(row(&fb, 4, 2, 3), vec![3, 3, 3]);
}

#[test]
fn draw_u32_keeps_low_digits() {
    let mut a = FrameBuffer::new();
    a.draw_u32(0, 0, 12345, 3, 1);
    let mut b = FrameBuffer::new();
    b.draw_text(0, 0, "345", 1);
    assert_eq!(a.raw(), b.raw());
}

#[test]
fn debug_overlay_draws_labels_and_values() {
    let mut fb = FrameBuffer::new();
    let info = DebugInfo { frame_us: 16667, global_used: 5, level_used: 0, frame_used: 123 };
    render_debug_overlay(&mut fb, &info);
    let mut expected = FrameBuffer::new();
    expected.draw_text(2, 1, "FPS", 2);
    expected.draw_text(30, 1, "G", 2);
    expected.draw_text(50, 1, "L", 2);
    expected.draw_text(70, 1, "F", 2);
    expected.draw_text(14, 1, "059", 3);
    expected.draw_text(34, 1, "005", 3);
    expected.draw_text(54, 1, "000", 3);
    expected.draw_text(74, 1, "123", 3);
    assert_eq!(fb.raw(), expected.raw());
    assert_eq!(fb.get_pixel(2, 1), 2);
}

#[test]
fn debug_overlay_with_no_frame_time_shows_zero_fps() {
    let mut fb = FrameBuffer::new();
    let info = DebugInfo { frame_us: 0, global_used: 0, level_used: 0, frame_used: 0 };
    render_debug_overlay(&mut fb, &info);
    let mut expected = FrameBuffer::new();
    expected.draw_text(2, 1, "FPS", 2);
    expected.draw_text(30, 1, "G", 2);
    expected.draw_text(50, 1, "L", 2);
    expected.draw_text(70, 1, "F", 2);
    for x in [14, 34, 54, 74] {
        expected.draw_text(x, 1, "000", 3);
    }
    assert_eq!(fb.raw(), expected.raw());
}
