use vstd::prelude::*;
use vstd::string::*;
use crate::font::{Glyph, get_glyph, glyph_for};
use crate::framebuffer::{
    FrameBuffer,
    HEIGHT,
    PIXELS,
    WIDTH,
    lemma_index_coords,
    lemma_pixel_coords,
    pixel_index,
};
use crate::sprite::{Sprite, planar_index, lemma_decode_position, decode_pixel};

verus! {

pub const FONT_WIDTH: usize = 3;

pub const FONT_HEIGHT: usize = 5;

pub const FONT_SPACING: usize = 1;

pub const LINE_HEIGHT: usize = 6;

/// How far the cursor moves after each character.
pub const FONT_ADVANCE: usize = FONT_WIDTH + FONT_SPACING;

/// The pixels after a `w`-wide block of cells is stamped at `(x, y)`: cell
/// `(px, py)` is taken when it is among the first `n` in row-major order, and
/// it writes `f(px, py)` to the screen pixel `(x + px, y + py)` when that is
/// `Some` and on screen. Every other pixel keeps its value.
pub open spec fn stamp(
    pix: Seq<u8>,
    x: int,
    y: int,
    w: int,
    n: int,
    f: spec_fn(int, int) -> Option<u8>,
) -> Seq<u8> {
    Seq::new(
        pix.len(),
        |i: int|
            {
                let px = i % (WIDTH as int) - x;
                let py = i / (WIDTH as int) - y;
                if 0 <= px < w && 0 <= py && py * w + px < n && f(px, py) is Some {
                    f(px, py)->Some_0
                } else {
                    pix[i]
                }
            },
    )
}

/// Whether cell `(col, row)` of a glyph is lit.
pub open spec fn glyph_bit(g: Glyph, row: int, col: int) -> bool {
    (g.rows[row] >> ((2 - col) as u8)) & 1u8 == 1u8
}

/// A glyph's cells: the lit ones write `color & 3`, the others nothing.
pub open spec fn glyph_cells(g: Glyph, color: u8) -> spec_fn(int, int) -> Option<u8> {
    |px: int, py: int|
        if py < FONT_HEIGHT && glyph_bit(g, py, px) {
            Some(color & 3u8)
        } else {
            None
        }
}

/// The pixels after glyph `g` is drawn with its top-left cell at `(x, y)`.
pub open spec fn with_glyph(pix: Seq<u8>, x: int, y: int, g: Glyph, color: u8) -> Seq<u8> {
    stamp(pix, x, y, FONT_WIDTH as int, (FONT_WIDTH * FONT_HEIGHT) as int, glyph_cells(g, color))
}

/// The pixels after character `c` is drawn at `(x, y)`; a character without a
/// glyph draws nothing.
pub open spec fn with_char(pix: Seq<u8>, x: int, y: int, c: char, color: u8) -> Seq<u8> {
    match glyph_for(c) {
        Some(g) => with_glyph(pix, x, y, g, color),
        None => pix,
    }
}

/// The pixels after the characters of `s` are drawn from `(x, y)`, the cursor
/// moving `FONT_ADVANCE` to the right after each, drawn or not.
pub open spec fn with_text(pix: Seq<u8>, x: int, y: int, s: Seq<char>, color: u8) -> Seq<u8>
    decreases s.len(),
{
    if s.len() == 0 {
        pix
    } else {
        with_text(
            with_char(pix, x, y, s[0], color),
            x + FONT_ADVANCE,
            y,
            s.drop_first(),
            color,
        )
    }
}

/// The character of decimal digit `d`.
pub open spec fn digit_char(d: int) -> char {
    ((d + 48) as u8) as char
}

/// The last `n` decimal digits of `v`, most significant first, with leading zeros.
pub open spec fn decimal_digits(v: nat, n: nat) -> Seq<char>
    decreases n,
{
    if n == 0 {
        Seq::empty()
    } else {
        decimal_digits(v / 10, (n - 1) as nat).push(digit_char((v % 10) as int))
    }
}

/// A sprite's cells: each writes its palette index, except index 0, which is
/// transparent.
pub open spec fn sprite_cells(data: Seq<u8>, tiles_x: int, h: int) -> spec_fn(int, int) -> Option<
    u8,
> {
    |px: int, py: int|
        if py < h && planar_index(data, tiles_x, px, py) != 0 {
            Some(planar_index(data, tiles_x, px, py))
        } else {
            None
        }
}

/// The pixels after a sprite of `w` by `h` pixels, in planar tile data `tiles_x`
/// tiles wide, is blitted with its top-left pixel at `(x, y)`.
pub open spec fn with_sprite(
    pix: Seq<u8>,
    x: int,
    y: int,
    data: Seq<u8>,
    tiles_x: int,
    w: int,
    h: int,
) -> Seq<u8> {
    stamp(pix, x, y, w, w * h, sprite_cells(data, tiles_x, h))
}

/// Taking one more cell of a stamp writes at most that cell's screen pixel.
proof fn lemma_stamp_step(
    pix: Seq<u8>,
    x: int,
    y: int,
    w: int,
    f: spec_fn(int, int) -> Option<u8>,
    px0: int,
    py0: int,
)
    requires
        pix.len() == PIXELS,
        0 <= px0 < w,
        0 <= py0,
    ensures
        stamp(pix, x, y, w, py0 * w + px0 + 1, f) == (if 0 <= x + px0 < WIDTH && 0 <= y + py0
            < HEIGHT && f(px0, py0) is Some {
            stamp(pix, x, y, w, py0 * w + px0, f).update(
                pixel_index(x + px0, y + py0),
                f(px0, py0)->Some_0,
            )
        } else {
            stamp(pix, x, y, w, py0 * w + px0, f)
        }),
{
    let n = py0 * w + px0;
    let a = stamp(pix, x, y, w, n + 1, f);
    let b = stamp(pix, x, y, w, n, f);
    let on = 0 <= x + px0 < WIDTH && 0 <= y + py0 < HEIGHT && f(px0, py0) is Some;
    let rhs = if on {
        b.update(pixel_index(x + px0, y + py0), f(px0, py0)->Some_0)
    } else {
        b
    };
    if 0 <= x + px0 < WIDTH && 0 <= y + py0 < HEIGHT {
        lemma_pixel_coords(x + px0, y + py0);
    }
    assert forall|i: int| 0 <= i < PIXELS implies a[i] == rhs[i] by {
        lemma_index_coords(i);
        let px = i % (WIDTH as int) - x;
        let py = i / (WIDTH as int) - y;
        if 0 <= px < w && 0 <= py && py * w + px == n {
            vstd::arithmetic::div_mod::lemma_fundamental_div_mod_converse(n, w, py, px);
            vstd::arithmetic::div_mod::lemma_fundamental_div_mod_converse(n, w, py0, px0);
            assert(i == pixel_index(x + px0, y + py0));
        }
    }
    assert(a =~= rhs);
}

/// No cell of a stamp that starts right of or below the screen lands on it.
proof fn lemma_stamp_off_screen(
    pix: Seq<u8>,
    x: int,
    y: int,
    w: int,
    n: int,
    f: spec_fn(int, int) -> Option<u8>,
)
    requires
        pix.len() == PIXELS,
        x >= WIDTH || y >= HEIGHT,
    ensures
        stamp(pix, x, y, w, n, f) == pix,
{
    assert forall|i: int| 0 <= i < PIXELS implies stamp(pix, x, y, w, n, f)[i] == pix[i] by {
        lemma_index_coords(i);
    }
    assert(stamp(pix, x, y, w, n, f) =~= pix);
}

/// Nothing of a stamp has been taken before its first cell.
proof fn lemma_stamp_empty(pix: Seq<u8>, x: int, y: int, w: int, f: spec_fn(int, int) -> Option<u8>)
    requires
        pix.len() == PIXELS,
    ensures
        stamp(pix, x, y, w, 0, f) == pix,
{
    assert forall|i: int| 0 <= i < PIXELS implies stamp(pix, x, y, w, 0, f)[i] == pix[i] by {
        let px = i % (WIDTH as int) - x;
        let py = i / (WIDTH as int) - y;
        if 0 <= px < w && 0 <= py {
            assert(py * w >= 0) by (nonlinear_arith)
                requires
                    py >= 0,
                    w >= 0,
            ;
        }
    }
    assert(stamp(pix, x, y, w, 0, f) =~= pix);
}

/// Text that starts right of the screen draws nothing.
proof fn lemma_text_off_screen(pix: Seq<u8>, x: int, y: int, s: Seq<char>, color: u8)
    requires
        pix.len() == PIXELS,
        x >= WIDTH,
    ensures
        with_text(pix, x, y, s, color) == pix,
    decreases s.len(),
{
    if s.len() > 0 {
        if let Some(g) = glyph_for(s[0]) {
            lemma_stamp_off_screen(
                pix,
                x,
                y,
                FONT_WIDTH as int,
                (FONT_WIDTH * FONT_HEIGHT) as int,
                glyph_cells(g, color),
            );
        }
        lemma_text_off_screen(pix, x + FONT_ADVANCE, y, s.drop_first(), color);
    }
}

/// Appends the last `n` decimal digits of `v` to `out`, most significant first.
fn push_digits(v: u32, n: usize, out: &mut Vec<char>)
    ensures
        final(out)@ == old(out)@ + decimal_digits(v as nat, n as nat),
    decreases n,
{
    if n == 0 {
        assert(old(out)@ + decimal_digits(v as nat, 0) =~= old(out)@);
        return ;
    }
    push_digits(v / 10, n - 1, out);
    let d = (v % 10) as u8;
    out.push((48u8 + d) as char);
    assert(final(out)@ =~= old(out)@ + decimal_digits(v as nat, n as nat));
}

impl FrameBuffer {
    /// Draws the lit cells of `glyph` in `color & 3`, its top-left cell at
    /// `(x, y)`; cells off screen are dropped and unlit cells left alone.
    pub fn draw_char(&mut self, x: usize, y: usize, glyph: &Glyph, color: u8)
        requires
            old(self).wf(),
        ensures
            final(self).wf(),
            final(self).pixels() == with_glyph(old(self).pixels(), x as int, y as int, *glyph, color),
    {
        let ghost f = glyph_cells(*glyph, color);
        let ghost start = self.pixels();
        if x >= WIDTH || y >= HEIGHT {
            proof {
                lemma_stamp_off_screen(start, x as int, y as int, 3, 15, f);
            }
            return ;
        }
        proof {
            lemma_stamp_empty(start, x as int, y as int, 3, f);
        }
        let mut row: usize = 0;
        while row < FONT_HEIGHT
            invariant
                self.wf(),
                x < WIDTH,
                y < HEIGHT,
                row <= FONT_HEIGHT,
                f == glyph_cells(*glyph, color),
                start.len() == PIXELS,
                self.pixels() == stamp(start, x as int, y as int, 3, row * 3, f),
            decreases FONT_HEIGHT - row,
        {
            let bits = glyph.rows[row];
            let mut col: usize = 0;
            while col < FONT_WIDTH
                invariant
                    self.wf(),
                    x < WIDTH,
                    y < HEIGHT,
                    row < FONT_HEIGHT,
                    col <= FONT_WIDTH,
                    bits == glyph.rows[row as int],
                    f == glyph_cells(*glyph, color),
                    start.len() == PIXELS,
                    self.pixels() == stamp(start, x as int, y as int, 3, row * 3 + col, f),
                decreases FONT_WIDTH - col,
            {
                proof {
                    lemma_stamp_step(start, x as int, y as int, 3, f, col as int, row as int);
                }
                if (bits >> ((2 - col) as u8)) & 1 == 1 {
                    self.set_pixel(x + col, y + row, color);
                }
                col = col + 1;
            }
            row = row + 1;
        }
    }

    /// Draws the glyph of `c` at `(x, y)`; a character without a glyph draws nothing.
    fn draw_glyph_of(&mut self, x: usize, y: usize, c: char, color: u8)
        requires
            old(self).wf(),
        ensures
            final(self).wf(),
            final(self).pixels() == with_char(old(self).pixels(), x as int, y as int, c, color),
    {
        match get_glyph(c) {
            Some(g) => self.draw_char(x, y, &g, color),
            None => {},
        }
    }

    /// Draws the characters of `text` from `(x, y)`, moving the cursor
    /// `FONT_ADVANCE` to the right after each; characters the font lacks are
    /// skipped, but the cursor still moves.
    pub fn draw_text(&mut self, x: usize, y: usize, text: &str, color: u8)
        requires
            old(self).wf(),
        ensures
            final(self).wf(),
            final(self).pixels() == with_text(old(self).pixels(), x as int, y as int, text@, color),
    {
        let n = text.unicode_len();
        let ghost goal = with_text(self.pixels(), x as int, y as int, text@, color);
        let mut cx: usize = x;
        let mut i: usize = 0;
        assert(text@.skip(0) =~= text@);
        while i < n
            invariant
                self.wf(),
                n == text@.len(),
                i <= n,
                goal == with_text(old(self).pixels(), x as int, y as int, text@, color),
                with_text(self.pixels(), cx as int, y as int, text@.skip(i as int), color) == goal,
            decreases n - i,
        {
            if cx >= WIDTH {
                proof {
                    lemma_text_off_screen(self.pixels(), cx as int, y as int, text@.skip(i as int), color);
                }
                return ;
            }
            let c = text.get_char(i);
            proof {
                assert(text@.skip(i as int)[0] == c);
                assert(text@.skip(i as int).drop_first() =~= text@.skip(i + 1));
            }
            self.draw_glyph_of(cx, y, c, color);
            cx = cx + FONT_ADVANCE;
            i = i + 1;
        }
    }

    /// Draws the characters of `chars` from `(x, y)` as `draw_text` does.
    fn draw_chars(&mut self, x: usize, y: usize, chars: &Vec<char>, color: u8)
        requires
            old(self).wf(),
        ensures
            final(self).wf(),
            final(self).pixels() == with_text(old(self).pixels(), x as int, y as int, chars@, color),
    {
        let n = chars.len();
        let ghost goal = with_text(self.pixels(), x as int, y as int, chars@, color);
        let mut cx: usize = x;
        let mut i: usize = 0;
        assert(chars@.skip(0) =~= chars@);
        while i < n
            invariant
                self.wf(),
                n == chars@.len(),
                i <= n,
                goal == with_text(old(self).pixels(), x as int, y as int, chars@, color),
                with_text(self.pixels(), cx as int, y as int, chars@.skip(i as int), color) == goal,
            decreases n - i,
        {
            if cx >= WIDTH {
                proof {
                    lemma_text_off_screen(self.pixels(), cx as int, y as int, chars@.skip(i as int), color);
                }
                return ;
            }
            let c = chars[i];
            proof {
                assert(chars@.skip(i as int)[0] == c);
                assert(chars@.skip(i as int).drop_first() =~= chars@.skip(i + 1));
            }
            self.draw_glyph_of(cx, y, c, color);
            cx = cx + FONT_ADVANCE;
            i = i + 1;
        }
    }

    /// Draws the last `digits` decimal digits of `value`, zero-padded, most
    /// significant first, from `(x, y)`.
    pub fn draw_u32(&mut self, x: usize, y: usize, value: u32, digits: usize, color: u8)
        requires
            old(self).wf(),
        ensures
            final(self).wf(),
            final(self).pixels() == with_text(
                old(self).pixels(),
                x as int,
                y as int,
                decimal_digits(value as nat, digits as nat),
                color,
            ),
    {
        let mut chars: Vec<char> = Vec::new();
        push_digits(value, digits, &mut chars);
        assert(chars@ =~= decimal_digits(value as nat, digits as nat));
        self.draw_chars(x, y, &chars, color);
    }

    /// Blits a sprite given as planar tile data of `width` by `height` pixels
    /// with its top-left pixel at `(x, y)`. Index 0 is transparent and never
    /// written; pixels that fall off screen are dropped.
    pub fn draw_sprite(&mut self, x: i32, y: i32, data: &[u8], width: usize, height: usize)
        requires
            old(self).wf(),
            width % 8 == 0,
            height % 8 == 0,
            data@.len() == (width / 8) * (height / 8) * 16,
        ensures
            final(self).wf(),
            final(self).pixels() == with_sprite(
                old(self).pixels(),
                x as int,
                y as int,
                data@,
                (width / 8) as int,
                width as int,
                height as int,
            ),
    {
        let tiles_x = width / 8;
        let ghost tiles_y = height / 8;
        let ghost f = sprite_cells(data@, tiles_x as int, height as int);
        let ghost start = self.pixels();
        proof {
            lemma_stamp_empty(start, x as int, y as int, width as int, f);
        }
        let mut py: usize = 0;
        while py < height
            invariant
                self.wf(),
                py <= height,
                width % 8 == 0,
                height % 8 == 0,
                tiles_x == width / 8,
                tiles_y == height / 8,
                data@.len() == tiles_x * tiles_y * 16,
                f == sprite_cells(data@, tiles_x as int, height as int),
                start.len() == PIXELS,
                self.pixels() == stamp(start, x as int, y as int, width as int, py * width, f),
            decreases height - py,
        {
            let mut px: usize = 0;
            while px < width
                invariant
                    self.wf(),
                    py < height,
                    px <= width,
                    width % 8 == 0,
                    height % 8 == 0,
                    tiles_x == width / 8,
                    tiles_y == height / 8,
                    data@.len() == tiles_x * tiles_y * 16,
                    f == sprite_cells(data@, tiles_x as int, height as int),
                    start.len() == PIXELS,
                    self.pixels() == stamp(
                        start,
                        x as int,
                        y as int,
                        width as int,
                        py * width + px,
                        f,
                    ),
                decreases width - px,
            {
                proof {
                    lemma_stamp_step(start, x as int, y as int, width as int, f, px as int, py as int);
                    lemma_decode_position(tiles_x as int, tiles_y as int, px as int, py as int);
                }
                let index = decode_pixel(data, tiles_x, px, py);
                if index != 0 {
                    let sx: i128 = x as i128 + px as i128;
                    let sy: i128 = y as i128 + py as i128;
                    if 0 <= sx && sx < WIDTH as i128 && 0 <= sy && sy < HEIGHT as i128 {
                        proof {
                            assert(index & 3u8 == index) by (bit_vector)
                                requires
                                    index < 4,
                            ;
                        }
                        self.set_pixel(sx as usize, sy as usize, index);
                    }
                }
                px = px + 1;
            }
            proof {
                assert(py * width + width == (py + 1) * width) by (nonlinear_arith);
            }
            py = py + 1;
        }
        assert(height * width == width * height) by (nonlinear_arith);
    }
}

impl Sprite {
    /// The pixels after this sprite is blitted at `(x, y)`.
    pub open spec fn blitted(&self, pix: Seq<u8>, x: int, y: int) -> Seq<u8> {
        with_sprite(
            pix,
            x,
            y,
            self.data@,
            self.tiles_x as int,
            self.width as int,
            self.height as int,
        )
    }
}

impl FrameBuffer {
    /// Blits `sprite` with its top-left pixel at `(x, y)`, as `draw_sprite` does.
    pub fn blit(&mut self, x: i32, y: i32, sprite: &Sprite)
        requires
            old(self).wf(),
            sprite.wf(),
        ensures
            final(self).wf(),
            final(self).pixels() == sprite.blitted(old(self).pixels(), x as int, y as int),
    {
        self.draw_sprite(x, y, sprite.data.as_slice(), sprite.width, sprite.height);
    }
}

} // verus!
