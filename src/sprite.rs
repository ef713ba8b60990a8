use vstd::prelude::*;

verus! {

/// Bit `j` (0 is the least significant) of a byte.
pub open spec fn bit(b: u8, j: int) -> u8 {
    (b >> (j as u8)) & 1u8
}

/// The number of 8-pixel tiles that cover `n` pixels.
pub open spec fn tiles_for(n: int) -> int {
    (n + 7) / 8
}

/// The palette index of an RGBA colour: 0 for fully transparent, then the
/// three opaque greens from darkest to lightest; `None` for any other colour.
pub open spec fn rgba_index(r: u8, g: u8, b: u8, a: u8) -> Option<u8> {
    if r == 0 && g == 0 && b == 0 && a == 0 {
        Some(0u8)
    } else if r == 15 && g == 56 && b == 15 && a == 255 {
        Some(1u8)
    } else if r == 48 && g == 98 && b == 48 && a == 255 {
        Some(2u8)
    } else if r == 139 && g == 172 && b == 15 && a == 255 {
        Some(3u8)
    } else {
        None
    }
}

/// The palette index of pixel `i` of packed RGBA bytes.
pub open spec fn rgba_pixel_index(rgba: Seq<u8>, i: int) -> Option<u8> {
    rgba_index(rgba[4 * i], rgba[4 * i + 1], rgba[4 * i + 2], rgba[4 * i + 3])
}

/// The palette index at `(px, py)` of a `w` by `h` image of indices once it is
/// padded with index 0 on the right and at the bottom.
pub open spec fn padded_index(indices: Seq<u8>, w: int, h: int, px: int, py: int) -> u8 {
    if 0 <= px < w && 0 <= py < h {
        indices[py * w + px]
    } else {
        0u8
    }
}

/// The byte offset of row `py % 8` of the tile that holds `(px, py)`, in tile
/// data `tiles_x` tiles wide.
pub open spec fn tile_row_offset(tiles_x: int, px: int, py: int) -> int {
    ((py / 8) * tiles_x + px / 8) * 16 + (py % 8) * 2
}

/// The palette index of `(px, py)` in planar 2bpp tile data: bit `7 - px % 8`
/// of the row's low byte gives bit 0 of the index, that of its high byte bit 1.
pub open spec fn planar_index(data: Seq<u8>, tiles_x: int, px: int, py: int) -> u8 {
    let off = tile_row_offset(tiles_x, px, py);
    let j = 7 - px % 8;
    (bit(data[off + 1], j) << 1u8) | bit(data[off], j)
}

#[derive(Debug, Clone, Copy, PartialEq, Eq, Structural)]
pub enum SpriteError {
    /// Pixel `index` (in raster order) is none of the four recognised colours.
    UnexpectedColor { index: usize },
    /// The data does not hold exactly the pixels or tiles that the dimensions call for.
    DimensionMismatch,
    /// The encoded sprite would not fit in memory.
    TooLarge,
}

/// The palette index of an RGBA colour, or `None` when it is none of the four
/// recognised colours.
pub fn color_index(r: u8, g: u8, b: u8, a: u8) -> (res: Option<u8>)
    ensures
        res == rgba_index(r, g, b, a),
{
    if r == 0 && g == 0 && b == 0 && a == 0 {
        Some(0)
    } else if r == 15 && g == 56 && b == 15 && a == 255 {
        Some(1)
    } else if r == 48 && g == 98 && b == 48 && a == 255 {
        Some(2)
    } else if r == 139 && g == 172 && b == 15 && a == 255 {
        Some(3)
    } else {
        None
    }
}

/// Maps packed RGBA bytes, four to a pixel, to palette indices. The first pixel
/// that is none of the four recognised colours is reported; no colour is ever
/// approximated.
pub fn index_pixels(rgba: &[u8]) -> (res: Result<Vec<u8>, SpriteError>)
    ensures
        rgba@.len() % 4 != 0 ==> res == Err::<Vec<u8>, SpriteError>(SpriteError::DimensionMismatch),
        rgba@.len() % 4 == 0 ==> match res {
            Ok(v) => {
                &&& forall|i: int| 0 <= i < rgba@.len() / 4 ==> rgba_pixel_index(rgba@, i) is Some
                &&& v@ == Seq::new(
                    (rgba@.len() / 4) as nat,
                    |i: int| rgba_pixel_index(rgba@, i)->Some_0,
                )
            },
            Err(e) => exists|i: int|
                0 <= i < rgba@.len() / 4 && rgba_pixel_index(rgba@, i) is None && e
                    == SpriteError::UnexpectedColor { index: i as usize } && forall|k: int|
                    0 <= k < i ==> rgba_pixel_index(rgba@, k) is Some,
        },
{
    if rgba.len() % 4 != 0 {
        return Err(SpriteError::DimensionMismatch);
    }
    let total = rgba.len();
    let n = total / 4;
    proof {
        vstd::arithmetic::div_mod::lemma_fundamental_div_mod(rgba@.len() as int, 4);
    }
    let mut out: Vec<u8> = Vec::with_capacity(n);
    let mut i: usize = 0;
    while i < n
        invariant
            n == rgba@.len() / 4,
            4 * n == rgba@.len(),
            total == rgba@.len(),
            i <= n,
            out@.len() == i,
            forall|k: int| 0 <= k < i ==> rgba_pixel_index(rgba@, k) is Some,
            forall|k: int| 0 <= k < i ==> out@[k] == rgba_pixel_index(rgba@, k)->Some_0,
        decreases n - i,
    {
        let b = 4 * i;
        match color_index(rgba[b], rgba[b + 1], rgba[b + 2], rgba[b + 3]) {
            Some(v) => {
                out.push(v);
            },
            None => {
                assert(rgba_pixel_index(rgba@, i as int) is None);
                return Err(SpriteError::UnexpectedColor { index: i });
            },
        }
        i = i + 1;
    }
    assert(out@ =~= Seq::new(n as nat, |i: int| rgba_pixel_index(rgba@, i)->Some_0));
    Ok(out)
}

proof fn lemma_set_bit(b: u8, k: u8, j: u8)
    by (bit_vector)
    requires
        k < 8,
        j < 8,
    ensures
        ((b | (1u8 << k)) >> j) & 1u8 == (if j == k {
            1u8
        } else {
            (b >> j) & 1u8
        }),
{
}

proof fn lemma_zero_bit(j: u8)
    by (bit_vector)
    ensures
        (0u8 >> j) & 1u8 == 0u8,
{
}

proof fn lemma_planes_combine(lo: u8, hi: u8, p: u8, j: u8)
    by (bit_vector)
    requires
        p < 4,
        (lo >> j) & 1u8 == p & 1u8,
        (hi >> j) & 1u8 == (p >> 1u8) & 1u8,
    ensures
        (((hi >> j) & 1u8) << 1u8) | ((lo >> j) & 1u8) == p,
{
}

proof fn lemma_plane_bits(p: u8)
    by (bit_vector)
    ensures
        (p >> 0u8) & 1u8 == (if p & 1u8 != 0 {
            1u8
        } else {
            0u8
        }),
        (p >> 1u8) & 1u8 == (if p & 2u8 != 0 {
            1u8
        } else {
            0u8
        }),
{
}

/// The palette index at `(px, py)` of the padded image.
fn padded_at(indices: &[u8], w: usize, h: usize, px: usize, py: usize) -> (r: u8)
    requires
        indices@.len() == w * h,
    ensures
        r == padded_index(indices@, w as int, h as int, px as int, py as int),
{
    let len = indices.len();
    if px < w && py < h {
        proof {
            let (x, y, wi, hi) = (px as int, py as int, w as int, h as int);
            assert(y * wi + x < wi * hi) by (nonlinear_arith)
                requires
                    0 <= x < wi,
                    0 <= y < hi,
            ;
        }
        indices[py * w + px]
    } else {
        0
    }
}

/// Whether `v` is plane `plane` (0 low, 1 high) of the tile row whose pixels
/// are `(px0 + c, py)` for `c` in 0..8, leftmost in the most significant bit.
pub open spec fn plane_byte_ok(
    v: u8,
    indices: Seq<u8>,
    w: int,
    h: int,
    px0: int,
    py: int,
    plane: int,
) -> bool {
    forall|c: int|
        0 <= c < 8 ==> #[trigger] bit(v, 7 - c) == bit(
            padded_index(indices, w, h, px0 + c, py),
            plane,
        )
}

/// Tile row number `k` of the output covers pixels `(px0, py)` onwards.
pub open spec fn row_origin(tiles_x: int, k: int) -> (int, int) {
    let t = k / 8;
    ((t % tiles_x) * 8, (t / tiles_x) * 8 + k % 8)
}

/// Whether byte `b` of encoded data holds what it should for the image.
pub open spec fn encoded_byte_ok(
    v: u8,
    indices: Seq<u8>,
    w: int,
    h: int,
    tiles_x: int,
    b: int,
) -> bool {
    let o = row_origin(tiles_x, b / 2);
    plane_byte_ok(v, indices, w, h, o.0, o.1, b % 2)
}

/// The low and high plane bytes of the tile row at `(px0 .. px0 + 8, py)`.
fn row_planes(indices: &[u8], w: usize, h: usize, px0: usize, py: usize) -> (r: (u8, u8))
    requires
        indices@.len() == w * h,
        px0 + 8 <= usize::MAX,
        forall|i: int| 0 <= i < indices@.len() ==> indices@[i] < 4,
    ensures
        plane_byte_ok(r.0, indices@, w as int, h as int, px0 as int, py as int, 0),
        plane_byte_ok(r.1, indices@, w as int, h as int, px0 as int, py as int, 1),
{
    let mut lo: u8 = 0;
    let mut hi: u8 = 0;
    let mut col: usize = 0;
    assert forall|c: int| 0 <= c < 8 implies #[trigger] bit(0u8, 7 - c) == 0u8 by {
        lemma_zero_bit((7 - c) as u8);
    }
    while col < 8
        invariant
            col <= 8,
            indices@.len() == w * h,
            px0 + 8 <= usize::MAX,
            forall|c: int|
                0 <= c < col ==> #[trigger] bit(lo, 7 - c) == bit(
                    padded_index(indices@, w as int, h as int, px0 + c, py as int),
                    0,
                ),
            forall|c: int|
                0 <= c < col ==> #[trigger] bit(hi, 7 - c) == bit(
                    padded_index(indices@, w as int, h as int, px0 + c, py as int),
                    1,
                ),
            forall|c: int| col <= c < 8 ==> #[trigger] bit(lo, 7 - c) == 0u8,
            forall|c: int| col <= c < 8 ==> #[trigger] bit(hi, 7 - c) == 0u8,
        decreases 8 - col,
    {
        let p = padded_at(indices, w, h, px0 + col, py);
        let k: u8 = (7 - col) as u8;
        let ghost lo0 = lo;
        let ghost hi0 = hi;
        proof {
            lemma_plane_bits(p);
        }
        if p & 1 != 0 {
            lo = lo | (1u8 << k);
        }
        if p & 2 != 0 {
            hi = hi | (1u8 << k);
        }
        proof {
            assert forall|c: int| 0 <= c < 8 implies #[trigger] bit(lo, 7 - c) == (if c
                == col {
                bit(p, 0)
            } else {
                bit(lo0, 7 - c)
            }) by {
                lemma_set_bit(lo0, k, (7 - c) as u8);
                if c == col {
                    assert(bit(lo0, 7 - c) == 0u8);
                }
            }
            assert forall|c: int| 0 <= c < 8 implies #[trigger] bit(hi, 7 - c) == (if c
                == col {
                bit(p, 1)
            } else {
                bit(hi0, 7 - c)
            }) by {
                lemma_set_bit(hi0, k, (7 - c) as u8);
                if c == col {
                    assert(bit(hi0, 7 - c) == 0u8);
                }
            }
        }
        col = col + 1;
    }
    (lo, hi)
}

/// Encodes a `width` by `height` image of palette indices as planar 2bpp
/// tiles: the image is padded with index 0 up to whole 8x8 tiles, the tiles are
/// taken in row-major order, and each is written as 8 rows of a low byte then a
/// high byte. Decoding any pixel of the padded image gives back its index.
pub fn encode_planar(indices: &[u8], width: usize, height: usize) -> (out: Vec<u8>)
    requires
        indices@.len() == width * height,
        forall|i: int| 0 <= i < indices@.len() ==> indices@[i] < 4,
        tiles_for(width as int) * tiles_for(height as int) * 16 <= usize::MAX,
    ensures
        out@.len() == tiles_for(width as int) * tiles_for(height as int) * 16,
        forall|px: int, py: int|
            0 <= px < tiles_for(width as int) * 8 && 0 <= py < tiles_for(height as int) * 8
                ==> #[trigger] planar_index(out@, tiles_for(width as int), px, py)
                == padded_index(indices@, width as int, height as int, px, py),
{
    let tiles_x: usize = width / 8 + if width % 8 == 0 {
        0
    } else {
        1
    };
    let tiles_y: usize = height / 8 + if height % 8 == 0 {
        0
    } else {
        1
    };
    proof {
        assert(tiles_x == tiles_for(width as int));
        assert(tiles_y == tiles_for(height as int));
        assert(tiles_x * tiles_y * 8 <= tiles_x * tiles_y * 16) by (nonlinear_arith);
    }
    let rows: usize = tiles_x * tiles_y * 8;
    let mut out: Vec<u8> = Vec::with_capacity(rows * 2);
    let mut k: usize = 0;
    while k < rows
        invariant
            rows == tiles_x * tiles_y * 8,
            rows * 2 <= usize::MAX,
            tiles_x == tiles_for(width as int),
            tiles_y == tiles_for(height as int),
            indices@.len() == width * height,
            forall|i: int| 0 <= i < indices@.len() ==> indices@[i] < 4,
            k <= rows,
            out@.len() == 2 * k,
            forall|b: int|
                0 <= b < out@.len() ==> encoded_byte_ok(
                    #[trigger] out@[b],
                    indices@,
                    width as int,
                    height as int,
                    tiles_x as int,
                    b,
                ),
        decreases rows - k,
    {
        let t = k / 8;
        proof {
            assert(t < tiles_x * tiles_y);
            assert(tiles_x > 0) by (nonlinear_arith)
                requires
                    t < tiles_x * tiles_y,
            ;
            vstd::arithmetic::div_mod::lemma_fundamental_div_mod(t as int, tiles_x as int);
            assert((t % tiles_x) * 8 + 8 <= tiles_x * 8) by (nonlinear_arith)
                requires
                    t % tiles_x < tiles_x,
            ;
            assert(tiles_y >= 1) by (nonlinear_arith)
                requires
                    t < tiles_x * tiles_y,
                    0 <= t,
            ;
            assert(tiles_x * 8 <= rows * 2) by (nonlinear_arith)
                requires
                    rows == tiles_x * tiles_y * 8,
                    tiles_y >= 1,
            ;
            let q = t / tiles_x;
            let rr = t % tiles_x;
            assert(q < tiles_y) by (nonlinear_arith)
                requires
                    t == tiles_x * q + rr,
                    0 <= rr,
                    t < tiles_x * tiles_y,
                    tiles_x > 0,
            ;
        }
        let px0 = (t % tiles_x) * 8;
        let py = (t / tiles_x) * 8 + k % 8;
        proof {
            assert((t / tiles_x) * 8 + 8 <= tiles_y * 8) by (nonlinear_arith)
                requires
                    t / tiles_x < tiles_y,
            ;
        }
        let planes = row_planes(indices, width, height, px0, py);
        let ghost before = out@;
        out.push(planes.0);
        out.push(planes.1);
        proof {
            assert forall|b: int| 0 <= b < out@.len() implies encoded_byte_ok(
                #[trigger] out@[b],
                indices@,
                width as int,
                height as int,
                tiles_x as int,
                b,
            ) by {
                if b < 2 * k {
                    assert(out@[b] == before[b]);
                } else {
                    assert(b / 2 == k);
                }
            }
        }
        k = k + 1;
    }
    proof {
        assert forall|px: int, py: int|
            0 <= px < tiles_for(width as int) * 8 && 0 <= py < tiles_for(height as int)
                * 8 implies #[trigger] planar_index(out@, tiles_for(width as int), px, py)
            == padded_index(indices@, width as int, height as int, px, py) by {
            lemma_decode_position(tiles_x as int, tiles_y as int, px, py);
            let off = tile_row_offset(tiles_x as int, px, py);
            assert(encoded_byte_ok(out@[off], indices@, width as int, height as int, tiles_x as int, off));
            assert(encoded_byte_ok(out@[off + 1], indices@, width as int, height as int, tiles_x as int, off + 1));
            let c = px % 8;
            let p = padded_index(indices@, width as int, height as int, px, py);
            assert(bit(out@[off], 7 - c) == bit(p, 0));
            assert(bit(out@[off + 1], 7 - c) == bit(p, 1));
            assert(p < 4) by {
                if 0 <= px < width && 0 <= py < height {
                    assert(py * width + px < height * width) by (nonlinear_arith)
                        requires
                            px < width,
                            py < height,
                            0 <= px,
                            0 <= py,
                    ;
                    assert(height * width == width * height) by (nonlinear_arith);
                }
            }
            let j = (7 - c) as u8;
            assert(bit(p, 0) == (p >> 0u8) & 1u8);
            assert((p >> 0u8) & 1u8 == p & 1u8) by (bit_vector);
            lemma_planes_combine(out@[off], out@[off + 1], p, j);
        }
    }
    out
}

/// Where the decoder looks for `(px, py)` is where the encoder wrote it.
pub(crate) proof fn lemma_decode_position(tiles_x: int, tiles_y: int, px: int, py: int)
    requires
        0 <= px < tiles_x * 8,
        0 <= py < tiles_y * 8,
    ensures
        0 <= tile_row_offset(tiles_x, px, py),
        tile_row_offset(tiles_x, px, py) + 1 < tiles_x * tiles_y * 16,
        tile_row_offset(tiles_x, px, py) % 2 == 0,
        (tile_row_offset(tiles_x, px, py) + 1) % 2 == 1,
        tile_row_offset(tiles_x, px, py) / 2 == (tile_row_offset(tiles_x, px, py) + 1) / 2,
        row_origin(tiles_x, tile_row_offset(tiles_x, px, py) / 2) == (px - px % 8, py),
        0 <= px % 8 < 8,
{
    let tx = px / 8;
    let ty = py / 8;
    let r = py % 8;
    vstd::arithmetic::div_mod::lemma_fundamental_div_mod(px, 8);
    vstd::arithmetic::div_mod::lemma_fundamental_div_mod(py, 8);
    assert(tx < tiles_x);
    assert(ty < tiles_y);
    let t = ty * tiles_x + tx;
    let k = t * 8 + r;
    assert(tile_row_offset(tiles_x, px, py) == 2 * k) by (nonlinear_arith)
        requires
            k == t * 8 + r,
            tile_row_offset(tiles_x, px, py) == t * 16 + r * 2,
    ;
    assert(0 <= t < tiles_x * tiles_y) by (nonlinear_arith)
        requires
            0 <= tx < tiles_x,
            0 <= ty < tiles_y,
            t == ty * tiles_x + tx,
    ;
    vstd::arithmetic::div_mod::lemma_fundamental_div_mod_converse(2 * k, 2, k, 0);
    vstd::arithmetic::div_mod::lemma_fundamental_div_mod_converse(2 * k + 1, 2, k, 1);
    vstd::arithmetic::div_mod::lemma_fundamental_div_mod_converse(k, 8, t, r);
    vstd::arithmetic::div_mod::lemma_fundamental_div_mod_converse(t, tiles_x, ty, tx);
    assert(0 <= k);
    assert(k < tiles_x * tiles_y * 8) by (nonlinear_arith)
        requires
            k == t * 8 + r,
            t < tiles_x * tiles_y,
            r < 8,
    ;
}

/// The palette indices of packed RGBA bytes whose pixels are all recognised.
pub open spec fn rgba_indices(rgba: Seq<u8>) -> Seq<u8> {
    Seq::new((rgba.len() / 4) as nat, |i: int| rgba_pixel_index(rgba, i)->Some_0)
}

/// The number of whole tiles that cover `n` pixels.
fn tile_count(n: usize) -> (r: usize)
    ensures
        r == tiles_for(n as int),
{
    n / 8 + if n % 8 == 0 {
        0
    } else {
        1
    }
}

/// A sprite in planar 2bpp form: `tiles_x` by `tiles_y` tiles of 16 bytes each,
/// in row-major tile order, covering `width` by `height` pixels.
pub struct Sprite {
    pub width: usize,
    pub height: usize,
    pub tiles_x: usize,
    pub tiles_y: usize,
    pub data: Vec<u8>,
}

impl Sprite {
    /// The dimensions are whole tiles and the data holds exactly those tiles.
    pub open spec fn wf(&self) -> bool {
        &&& self.width % 8 == 0
        &&& self.height % 8 == 0
        &&& self.tiles_x == self.width / 8
        &&& self.tiles_y == self.height / 8
        &&& self.data@.len() == self.tiles_x * self.tiles_y * 16
    }

    /// The palette index of pixel `(px, py)`.
    pub open spec fn index_at(&self, px: int, py: int) -> u8 {
        planar_index(self.data@, self.tiles_x as int, px, py)
    }

    /// Wraps planar tile data whose dimensions come from elsewhere, refusing
    /// dimensions that are not whole tiles or data of another length.
    pub fn from_planar(width: usize, height: usize, data: Vec<u8>) -> (r: Result<
        Sprite,
        SpriteError,
    >)
        ensures
            r is Ok <==> (width % 8 == 0 && height % 8 == 0 && data@.len() == (width / 8) * (
            height / 8) * 16),
            r matches Ok(s) ==> s.wf() && s.width == width && s.height == height && s.data@
                == data@,
            r matches Err(e) ==> e == SpriteError::DimensionMismatch,
    {
        if width % 8 != 0 || height % 8 != 0 {
            return Err(SpriteError::DimensionMismatch);
        }
        let tiles_x = width / 8;
        let tiles_y = height / 8;
        let total = data.len();
        let bytes = match tiles_x.checked_mul(tiles_y) {
            Some(t) => t.checked_mul(16),
            None => None,
        };
        match bytes {
            Some(b) => {
                if b != data.len() {
                    return Err(SpriteError::DimensionMismatch);
                }
            },
            None => {
                proof {
                    assert(data@.len() != (width / 8) * (height / 8) * 16) by (nonlinear_arith)
                        requires
                            tiles_x * tiles_y > usize::MAX || tiles_x * tiles_y * 16 > usize::MAX,
                            tiles_x == width / 8,
                            tiles_y == height / 8,
                            data@.len() <= usize::MAX,
                            tiles_x >= 0,
                            tiles_y >= 0,
                    ;
                }
                return Err(SpriteError::DimensionMismatch);
            },
        }
        Ok(Sprite { width, height, tiles_x, tiles_y, data })
    }

    /// The palette index of pixel `(px, py)`, decoded from the tile data.
    pub fn pixel(&self, px: usize, py: usize) -> (r: u8)
        requires
            self.wf(),
            px < self.width,
            py < self.height,
        ensures
            r == self.index_at(px as int, py as int),
    {
        proof {
            lemma_decode_position(self.tiles_x as int, self.tiles_y as int, px as int, py as int);
        }
        decode_pixel(self.data.as_slice(), self.tiles_x, px, py)
    }
}

/// The palette index of `(px, py)` in planar 2bpp tile data `tiles_x` tiles wide.
pub fn decode_pixel(data: &[u8], tiles_x: usize, px: usize, py: usize) -> (r: u8)
    requires
        tile_row_offset(tiles_x as int, px as int, py as int) + 1 < data@.len(),
    ensures
        r == planar_index(data@, tiles_x as int, px as int, py as int),
        r < 4,
{
    let total = data.len();
    proof {
        let (t, x, y) = (tiles_x as int, px as int, py as int);
        assert((y / 8) * t + x / 8 <= tile_row_offset(t, x, y)) by (nonlinear_arith)
            requires
                t >= 0,
                x >= 0,
                y >= 0,
                tile_row_offset(t, x, y) == ((y / 8) * t + x / 8) * 16 + (y % 8) * 2,
                y % 8 >= 0,
        ;
        assert((y / 8) * t <= (y / 8) * t + x / 8);
    }
    let off = ((py / 8) * tiles_x + px / 8) * 16 + (py % 8) * 2;
    let j: u8 = (7 - px % 8) as u8;
    let lo = data[off];
    let hi = data[off + 1];
    proof {
        assert(((hi >> j) & 1u8) << 1u8 | ((lo >> j) & 1u8) < 4) by (bit_vector);
    }
    (((hi >> j) & 1) << 1) | ((lo >> j) & 1)
}

/// Compiles a `width` by `height` RGBA image (four bytes a pixel, raster order)
/// into a planar 2bpp sprite padded to whole tiles. Fails when the byte count
/// does not match the dimensions, when any pixel is none of the four recognised
/// colours (the first such pixel is reported), or when the result would not fit.
pub fn compile_sprite(rgba: &[u8], width: usize, height: usize) -> (r: Result<
    Sprite,
    SpriteError,
>)
    ensures
        rgba@.len() != width * height * 4 ==> r == Err::<Sprite, SpriteError>(
            SpriteError::DimensionMismatch,
        ),
        rgba@.len() == width * height * 4 ==> match r {
            Ok(s) => {
                &&& forall|i: int| 0 <= i < width * height ==> rgba_pixel_index(rgba@, i) is Some
                &&& s.wf()
                &&& s.tiles_x == tiles_for(width as int)
                &&& s.tiles_y == tiles_for(height as int)
                &&& s.width == s.tiles_x * 8
                &&& s.height == s.tiles_y * 8
                &&& forall|px: int, py: int|
                    0 <= px < s.width && 0 <= py < s.height ==> #[trigger] s.index_at(px, py)
                        == padded_index(rgba_indices(rgba@), width as int, height as int, px, py)
            },
            Err(SpriteError::UnexpectedColor { index }) => {
                &&& index < width * height
                &&& rgba_pixel_index(rgba@, index as int) is None
                &&& forall|k: int| 0 <= k < index ==> rgba_pixel_index(rgba@, k) is Some
            },
            Err(SpriteError::TooLarge) => {
                &&& forall|i: int| 0 <= i < width * height ==> rgba_pixel_index(rgba@, i) is Some
                &&& (tiles_for(width as int) * tiles_for(height as int) * 16 > usize::MAX
                    || tiles_for(width as int) * 8 > usize::MAX || tiles_for(height as int) * 8
                    > usize::MAX)
            },
            Err(SpriteError::DimensionMismatch) => false,
        },
{
    let total = rgba.len();
    let pixels = match width.checked_mul(height) {
        Some(p) => p.checked_mul(4),
        None => None,
    };
    match pixels {
        Some(n) => {
            if n != rgba.len() {
                return Err(SpriteError::DimensionMismatch);
            }
        },
        None => {
            proof {
                let (w, h) = (width as int, height as int);
                assert(rgba@.len() != w * h * 4) by (nonlinear_arith)
                    requires
                        w * h > usize::MAX || w * h * 4 > usize::MAX,
                        rgba@.len() <= usize::MAX,
                        w >= 0,
                        h >= 0,
                ;
            }
            return Err(SpriteError::DimensionMismatch);
        },
    }
    proof {
        assert(rgba@.len() / 4 == width * height);
    }
    let indices = match index_pixels(rgba) {
        Ok(v) => v,
        Err(e) => {
            return Err(e);
        },
    };
    let tiles_x = tile_count(width);
    let tiles_y = tile_count(height);
    let bytes = match tiles_x.checked_mul(tiles_y) {
        Some(t) => t.checked_mul(16),
        None => None,
    };
    let padded_w = tiles_x.checked_mul(8);
    let padded_h = tiles_y.checked_mul(8);
    if padded_w.is_none() || padded_h.is_none() {
        return Err(SpriteError::TooLarge);
    }
    if bytes.is_none() {
        proof {
            assert(tiles_x * tiles_y * 16 > usize::MAX) by (nonlinear_arith)
                requires
                    tiles_x * tiles_y > usize::MAX || tiles_x * tiles_y * 16 > usize::MAX,
                    tiles_x >= 0,
                    tiles_y >= 0,
            ;
        }
        return Err(SpriteError::TooLarge);
    }
    let data = encode_planar(indices.as_slice(), width, height);
    proof {
        assert(indices@ == rgba_indices(rgba@));
        assert(tiles_x * 8 / 8 == tiles_x);
        assert(tiles_y * 8 / 8 == tiles_y);
    }
    Ok(Sprite { width: tiles_x * 8, height: tiles_y * 8, tiles_x, tiles_y, data })
}

} // verus!
