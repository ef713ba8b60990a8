use vstd::prelude::*;
use crate::draw::{FONT_ADVANCE, decimal_digits, with_text};
use crate::framebuffer::FrameBuffer;

verus! {

/// The row of the overlay's text.
pub const DEBUG_Y: usize = 1;

/// Pixels left of the overlay's first column.
pub const DEBUG_X_PADDING: usize = 2;

pub const COL_FPS: usize = 0;

pub const COL_GLOBAL: usize = 7;

pub const COL_LEVEL: usize = 12;

pub const COL_FRAME: usize = 17;

/// What the overlay shows: the last frame's duration in microseconds and the
/// bytes in use in each arena.
pub struct DebugInfo {
    pub frame_us: u32,
    pub global_used: u32,
    pub level_used: u32,
    pub frame_used: u32,
}

/// The x coordinate of text column `col`.
pub open spec fn column_x(col: int) -> int {
    DEBUG_X_PADDING + col * FONT_ADVANCE
}

/// Frames per second for a frame of `frame_us` microseconds; 0 for none.
pub open spec fn fps_of(frame_us: u32) -> nat {
    if frame_us > 0 {
        (1_000_000int / (frame_us as int)) as nat
    } else {
        0
    }
}

/// The pixels after the overlay is drawn: the labels FPS, G, L and F in index
/// 2, each followed by its three-digit value in index 3.
pub open spec fn with_overlay(pix: Seq<u8>, info: DebugInfo) -> Seq<u8> {
    let y = DEBUG_Y as int;
    let p1 = with_text(pix, column_x(COL_FPS as int), y, seq!['F', 'P', 'S'], 2);
    let p2 = with_text(p1, column_x(COL_GLOBAL as int), y, seq!['G'], 2);
    let p3 = with_text(p2, column_x(COL_LEVEL as int), y, seq!['L'], 2);
    let p4 = with_text(p3, column_x(COL_FRAME as int), y, seq!['F'], 2);
    let p5 = with_text(
        p4,
        column_x(COL_FPS as int) + 3 * FONT_ADVANCE,
        y,
        decimal_digits(fps_of(info.frame_us), 3),
        3,
    );
    let p6 = with_text(
        p5,
        column_x(COL_GLOBAL as int) + FONT_ADVANCE,
        y,
        decimal_digits(info.global_used as nat, 3),
        3,
    );
    let p7 = with_text(
        p6,
        column_x(COL_LEVEL as int) + FONT_ADVANCE,
        y,
        decimal_digits(info.level_used as nat, 3),
        3,
    );
    with_text(
        p7,
        column_x(COL_FRAME as int) + FONT_ADVANCE,
        y,
        decimal_digits(info.frame_used as nat, 3),
        3,
    )
}

fn col_to_x(col: usize) -> (r: usize)
    requires
        col <= (usize::MAX - DEBUG_X_PADDING) as int / FONT_ADVANCE as int,
    ensures
        r == column_x(col as int),
{
    proof {
        let c = col as int;
        let m = (usize::MAX - DEBUG_X_PADDING) as int;
        assert(c * 4 <= m) by (nonlinear_arith)
            requires
                c <= m / 4,
                m >= 0,
        ;
    }
    DEBUG_X_PADDING + col * FONT_ADVANCE
}

/// Draws the frame-rate and arena-usage overlay in the top row.
pub fn render_debug_overlay(framebuffer: &mut FrameBuffer, info: &DebugInfo)
    requires
        old(framebuffer).wf(),
    ensures
        final(framebuffer).wf(),
        final(framebuffer).pixels() == with_overlay(old(framebuffer).pixels(), *info),
{
    let fps: u32 = if info.frame_us > 0 {
        1_000_000 / info.frame_us
    } else {
        0
    };
    proof {
        reveal_strlit("FPS");
        reveal_strlit("G");
        reveal_strlit("L");
        reveal_strlit("F");
        assert("FPS"@ =~= seq!['F', 'P', 'S']);
        assert("G"@ =~= seq!['G']);
        assert("L"@ =~= seq!['L']);
        assert("F"@ =~= seq!['F']);
    }
    framebuffer.draw_text(col_to_x(COL_FPS), DEBUG_Y, "FPS", 2);
    framebuffer.draw_text(col_to_x(COL_GLOBAL), DEBUG_Y, "G", 2);
    framebuffer.draw_text(col_to_x(COL_LEVEL), DEBUG_Y, "L", 2);
    framebuffer.draw_text(col_to_x(COL_FRAME), DEBUG_Y, "F", 2);
    framebuffer.draw_u32(col_to_x(COL_FPS) + 3 * FONT_ADVANCE, DEBUG_Y, fps, 3, 3);
    framebuffer.draw_u32(col_to_x(COL_GLOBAL) + FONT_ADVANCE, DEBUG_Y, info.global_used, 3, 3);
    framebuffer.draw_u32(col_to_x(COL_LEVEL) + FONT_ADVANCE, DEBUG_Y, info.level_used, 3, 3);
    framebuffer.draw_u32(col_to_x(COL_FRAME) + FONT_ADVANCE, DEBUG_Y, info.frame_used, 3, 3);
}

} // verus!
