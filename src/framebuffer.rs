use vstd::prelude::*;

verus! {

pub const WIDTH: usize = 160;

pub const HEIGHT: usize = 144;

pub const PIXELS: usize = WIDTH * HEIGHT;

/// Four 2-bit pixels are packed in each byte.
pub const BUFFER_SIZE: usize = PIXELS / 4;

/// The display colours (0xAARRGGBB) of the four palette indices, darkest first.
pub const PALETTE: [u32; 4] = [0xFF0F380F, 0xFF306230, 0xFF8BAC0F, 0xFF9BBC0F];

/// The colour that palette index `i` is shown in.
pub open spec fn palette_color(i: u8) -> u32 {
    if i == 0 {
        0xFF0F380Fu32
    } else if i == 1 {
        0xFF306230u32
    } else if i == 2 {
        0xFF8BAC0Fu32
    } else {
        0xFF9BBC0Fu32
    }
}

/// The 2-bit value held in lane `k` (0 to 3) of a packed byte.
pub open spec fn lane(b: u8, k: u8) -> u8 {
    (b >> (2 * k)) & 3u8
}

/// A byte whose four lanes all hold `c & 3`.
pub open spec fn fill_byte(c: u8) -> u8 {
    (c & 3u8) | ((c & 3u8) << 2u8) | ((c & 3u8) << 4u8) | ((c & 3u8) << 6u8)
}

/// Byte `b` with lane `k` replaced by `c & 3`.
pub open spec fn set_lane(b: u8, k: u8, c: u8) -> u8 {
    (b & !(3u8 << (2 * k))) | ((c & 3u8) << (2 * k))
}

/// The index of the pixel at `(x, y)` in row-major order.
pub open spec fn pixel_index(x: int, y: int) -> int {
    y * WIDTH + x
}

proof fn lemma_lane_update(b: u8, c: u8, k: u8, j: u8)
    by (bit_vector)
    requires
        k < 4,
        j < 4,
    ensures
        lane((b & !(3u8 << (2 * k))) | ((c & 3u8) << (2 * k)), k) == c & 3u8,
        j != k ==> lane((b & !(3u8 << (2 * k))) | ((c & 3u8) << (2 * k)), j) == lane(b, j),
{
}

proof fn lemma_lane_fill(c: u8, k: u8)
    by (bit_vector)
    requires
        k < 4,
    ensures
        lane((c & 3u8) | ((c & 3u8) << 2u8) | ((c & 3u8) << 4u8) | ((c & 3u8) << 6u8), k) == c
            & 3u8,
{
}

proof fn lemma_lane_bound(b: u8, k: u8)
    by (bit_vector)
    ensures
        lane(b, k) < 4,
{
}

/// A pixel index and its coordinates determine each other on the screen.
pub proof fn lemma_pixel_coords(x: int, y: int)
    requires
        0 <= x < WIDTH,
        0 <= y < HEIGHT,
    ensures
        0 <= pixel_index(x, y) < PIXELS,
        pixel_index(x, y) % (WIDTH as int) == x,
        pixel_index(x, y) / (WIDTH as int) == y,
{
    vstd::arithmetic::div_mod::lemma_fundamental_div_mod_converse(
        pixel_index(x, y),
        WIDTH as int,
        y,
        x,
    );
}

pub proof fn lemma_index_coords(i: int)
    requires
        0 <= i < PIXELS,
    ensures
        0 <= i % (WIDTH as int) < WIDTH,
        0 <= i / (WIDTH as int) < HEIGHT,
        pixel_index(i % (WIDTH as int), i / (WIDTH as int)) == i,
{
    vstd::arithmetic::div_mod::lemma_fundamental_div_mod(i, WIDTH as int);
}

/// A 160x144 screen of 2-bit palette indices, four to a byte: pixel `i` sits in
/// byte `i / 4`, at bit offset `(i % 4) * 2`.
pub struct FrameBuffer {
    buffer: Vec<u8>,
}

impl FrameBuffer {
    /// The packed bytes hold exactly the screen's pixels.
    pub open spec fn wf(&self) -> bool {
        self.spec_bytes().len() == BUFFER_SIZE
    }

    /// The packed bytes.
    pub closed spec fn spec_bytes(&self) -> Seq<u8> {
        self.buffer@
    }

    /// The palette index of every pixel, in row-major order.
    pub open spec fn pixels(&self) -> Seq<u8> {
        Seq::new(PIXELS as nat, |i: int| lane(self.spec_bytes()[i / 4], (i % 4) as u8))
    }

    /// The palette index at `(x, y)`; 0 off screen.
    pub open spec fn pixel_at(&self, x: int, y: int) -> u8 {
        if 0 <= x < WIDTH && 0 <= y < HEIGHT {
            self.pixels()[pixel_index(x, y)]
        } else {
            0
        }
    }

    pub fn new() -> (r: Self)
        ensures
            r.wf(),
            r.spec_bytes() == Seq::new(BUFFER_SIZE as nat, |i: int| 0u8),
            r.pixels() == Seq::new(PIXELS as nat, |i: int| 0u8),
    {
        let mut buffer: Vec<u8> = Vec::with_capacity(BUFFER_SIZE);
        let mut i: usize = 0;
        while i < BUFFER_SIZE
            invariant
                i <= BUFFER_SIZE,
                buffer@ == Seq::new(i as nat, |k: int| 0u8),
            decreases BUFFER_SIZE - i,
        {
            buffer.push(0u8);
            i = i + 1;
            assert(buffer@ =~= Seq::new(i as nat, |k: int| 0u8));
        }
        let r = FrameBuffer { buffer };
        assert(r.spec_bytes() =~= Seq::new(BUFFER_SIZE as nat, |i: int| 0u8));
        assert forall|i: int| 0 <= i < PIXELS implies r.pixels()[i] == 0u8 by {
            let k = (i % 4) as u8;
            assert(lane(0u8, k) == 0u8) by (bit_vector);
        }
        assert(r.pixels() =~= Seq::new(PIXELS as nat, |i: int| 0u8));
        r
    }

    /// Sets every pixel to `color & 3`.
    pub fn clear(&mut self, color: u8)
        requires
            old(self).wf(),
        ensures
            final(self).wf(),
            final(self).spec_bytes() == Seq::new(BUFFER_SIZE as nat, |k: int| fill_byte(color)),
            final(self).pixels() == Seq::new(PIXELS as nat, |i: int| color & 3u8),
    {
        let c = color & 0b11;
        let packed: u8 = c | (c << 2u8) | (c << 4u8) | (c << 6u8);
        let mut i: usize = 0;
        while i < BUFFER_SIZE
            invariant
                self.wf(),
                i <= BUFFER_SIZE,
                forall|k: int| 0 <= k < i ==> self.buffer@[k] == packed,
            decreases BUFFER_SIZE - i,
        {
            self.buffer.set(i, packed);
            i = i + 1;
        }
        assert forall|i: int| 0 <= i < PIXELS implies self.pixels()[i] == color & 3u8 by {
            lemma_lane_fill(color, (i % 4) as u8);
        }
        assert(self.pixels() =~= Seq::new(PIXELS as nat, |i: int| color & 3u8));
        assert(self.spec_bytes() =~= Seq::new(BUFFER_SIZE as nat, |k: int| fill_byte(color)));
    }

    /// Writes `color & 3` at `(x, y)`; off screen it changes nothing.
    pub fn set_pixel(&mut self, x: usize, y: usize, color: u8)
        requires
            old(self).wf(),
        ensures
            final(self).wf(),
            x < WIDTH && y < HEIGHT ==> final(self).pixels() == old(self).pixels().update(
                pixel_index(x as int, y as int),
                color & 3u8,
            ),
            x < WIDTH && y < HEIGHT ==> final(self).spec_bytes() == old(self).spec_bytes().update(
                pixel_index(x as int, y as int) / 4,
                set_lane(
                    old(self).spec_bytes()[pixel_index(x as int, y as int) / 4],
                    (pixel_index(x as int, y as int) % 4) as u8,
                    color,
                ),
            ),
            !(x < WIDTH && y < HEIGHT) ==> final(self).spec_bytes() == old(self).spec_bytes(),
    {
        if x >= WIDTH || y >= HEIGHT {
            return ;
        }
        proof {
            lemma_pixel_coords(x as int, y as int);
        }
        let ghost before = self.pixels();
        let index = y * WIDTH + x;
        let byte_index = index / 4;
        let shift: u8 = ((index % 4) * 2) as u8;
        let mask: u8 = !(0b11u8 << shift);
        let value: u8 = (color & 0b11) << shift;
        let old_byte = self.buffer[byte_index];
        let ghost ob = old_byte;
        self.buffer.set(byte_index, (old_byte & mask) | value);
        proof {
            let k = (index % 4) as u8;
            assert(shift == 2 * k);
            assert forall|i: int| 0 <= i < PIXELS implies self.pixels()[i] == before.update(
                index as int,
                color & 3u8,
            )[i] by {
                let j = (i % 4) as u8;
                lemma_lane_update(ob, color, k, j);
                if i / 4 == byte_index as int && i != index as int {
                    assert(j != k);
                }
            }
            assert(self.pixels() =~= before.update(index as int, color & 3u8));
            assert(mask == !(3u8 << (2 * k)));
            assert(value == (color & 3u8) << (2 * k));
        }
    }

    /// The palette index at `(x, y)`; 0 off screen.
    pub fn get_pixel(&self, x: usize, y: usize) -> (r: u8)
        requires
            self.wf(),
        ensures
            r == self.pixel_at(x as int, y as int),
            r < 4,
    {
        if x >= WIDTH || y >= HEIGHT {
            return 0;
        }
        proof {
            lemma_pixel_coords(x as int, y as int);
        }
        let index = y * WIDTH + x;
        let byte_index = index / 4;
        let shift: u8 = ((index % 4) * 2) as u8;
        let b = self.buffer[byte_index];
        proof {
            lemma_lane_bound(b, (index % 4) as u8);
        }
        (b >> shift) & 0b11
    }

    /// Writes the display colour of every pixel into `out`, in raster order
    /// (row-major, top-left first).
    pub fn to_rgba_buffer(&self, out: &mut [u32])
        requires
            self.wf(),
            old(out)@.len() >= PIXELS,
        ensures
            final(out)@.len() == old(out)@.len(),
            forall|i: int|
                0 <= i < PIXELS ==> #[trigger] final(out)@[i] == palette_color(self.pixels()[i]),
            forall|i: int|
                PIXELS <= i < old(out)@.len() ==> #[trigger] final(out)@[i] == old(out)@[i],
    {
        let mut y: usize = 0;
        while y < HEIGHT
            invariant
                self.wf(),
                y <= HEIGHT,
                out@.len() == old(out)@.len(),
                out@.len() >= PIXELS,
                forall|i: int|
                    0 <= i < y * WIDTH ==> #[trigger] out@[i] == palette_color(self.pixels()[i]),
                forall|i: int| PIXELS <= i < out@.len() ==> #[trigger] out@[i] == old(out)@[i],
            decreases HEIGHT - y,
        {
            let mut x: usize = 0;
            while x < WIDTH
                invariant
                    self.wf(),
                    y < HEIGHT,
                    x <= WIDTH,
                    out@.len() == old(out)@.len(),
                    out@.len() >= PIXELS,
                    forall|i: int| PIXELS <= i < out@.len() ==> #[trigger] out@[i] == old(out)@[i],
                    forall|i: int|
                        0 <= i < y * WIDTH + x ==> #[trigger] out@[i] == palette_color(
                            self.pixels()[i],
                        ),
                decreases WIDTH - x,
            {
                proof {
                    lemma_pixel_coords(x as int, y as int);
                }
                let color_index = self.get_pixel(x, y);
                out[y * WIDTH + x] = PALETTE[color_index as usize];
                x = x + 1;
            }
            y = y + 1;
        }
    }

    /// The packed bytes, four pixels to a byte.
    pub fn raw(&self) -> (r: &[u8])
        requires
            self.wf(),
        ensures
            r@ == self.spec_bytes(),
            r@.len() == BUFFER_SIZE,
    {
        self.buffer.as_slice()
    }
}

/// Pixel law: on screen, a pixel written with a colour of the palette reads
/// back as that colour, and every other pixel keeps its value.
pub proof fn lemma_set_then_get(
    before: FrameBuffer,
    after: FrameBuffer,
    x: int,
    y: int,
    color: u8,
    qx: int,
    qy: int,
)
    requires
        before.wf(),
        0 <= x < WIDTH,
        0 <= y < HEIGHT,
        color < 4,
        after.pixels() == before.pixels().update(pixel_index(x, y), color & 3u8),
    ensures
        after.pixel_at(x, y) == color,
        (qx, qy) != (x, y) ==> after.pixel_at(qx, qy) == before.pixel_at(qx, qy),
{
    lemma_pixel_coords(x, y);
    assert(color & 3u8 == color) by (bit_vector)
        requires
            color < 4,
    ;
    if (qx, qy) != (x, y) && 0 <= qx < WIDTH && 0 <= qy < HEIGHT {
        lemma_pixel_coords(qx, qy);
    }
}

proof fn lemma_lanes_determine_byte(a: u8, b: u8)
    by (bit_vector)
    requires
        lane(a, 0) == lane(b, 0),
        lane(a, 1) == lane(b, 1),
        lane(a, 2) == lane(b, 2),
        lane(a, 3) == lane(b, 3),
    ensures
        a == b,
{
}

/// Two well-formed framebuffers with the same pixels hold the same bytes.
pub proof fn lemma_pixels_determine_bytes(a: FrameBuffer, b: FrameBuffer)
    requires
        a.wf(),
        b.wf(),
        a.pixels() == b.pixels(),
    ensures
        a.spec_bytes() == b.spec_bytes(),
{
    assert forall|k: int| 0 <= k < BUFFER_SIZE implies a.spec_bytes()[k] == b.spec_bytes()[k] by {
        assert((4 * k + 0) / 4 == k && ((4 * k + 0) % 4) as u8 == 0u8);
        assert(lane(a.spec_bytes()[k], 0u8) == a.pixels()[4 * k + 0]);
        assert(lane(b.spec_bytes()[k], 0u8) == b.pixels()[4 * k + 0]);
        assert((4 * k + 1) / 4 == k && ((4 * k + 1) % 4) as u8 == 1u8);
        assert(lane(a.spec_bytes()[k], 1u8) == a.pixels()[4 * k + 1]);
        assert(lane(b.spec_bytes()[k], 1u8) == b.pixels()[4 * k + 1]);
        assert((4 * k + 2) / 4 == k && ((4 * k + 2) % 4) as u8 == 2u8);
        assert(lane(a.spec_bytes()[k], 2u8) == a.pixels()[4 * k + 2]);
        assert(lane(b.spec_bytes()[k], 2u8) == b.pixels()[4 * k + 2]);
        assert((4 * k + 3) / 4 == k && ((4 * k + 3) % 4) as u8 == 3u8);
        assert(lane(a.spec_bytes()[k], 3u8) == a.pixels()[4 * k + 3]);
        assert(lane(b.spec_bytes()[k], 3u8) == b.pixels()[4 * k + 3]);
        lemma_lanes_determine_byte(a.spec_bytes()[k], b.spec_bytes()[k]);
    }
    assert(a.spec_bytes() =~= b.spec_bytes());
}

/// Off-screen law: a write outside the screen leaves every byte as it was, and
/// a read outside the screen gives 0.
pub proof fn lemma_off_screen(before: FrameBuffer, after: FrameBuffer, x: int, y: int)
    requires
        !(0 <= x < WIDTH && 0 <= y < HEIGHT),
        after.spec_bytes() == before.spec_bytes(),
    ensures
        after.pixels() == before.pixels(),
        after.pixel_at(x, y) == 0,
{
    assert(after.pixels() =~= before.pixels());
}

} // verus!
