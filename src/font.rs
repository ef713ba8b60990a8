use vstd::prelude::*;

verus! {

/// A 3x5 glyph: five rows, top first, of which the lower 3 bits are used; bit 2
/// is the leftmost column.
#[derive(Debug, Clone, Copy)]
pub struct Glyph {
    pub rows: [u8; 5],
}

/// The glyph drawn for `c`: digits, capital letters, colon, slash and space;
/// `None` for any other character.
pub open spec fn glyph_for(c: char) -> Option<Glyph> {
    match c {
        '0' => Some(Glyph { rows: [0b111, 0b101, 0b101, 0b101, 0b111] }),
        '1' => Some(Glyph { rows: [0b010, 0b110, 0b010, 0b010, 0b111] }),
        '2' => Some(Glyph { rows: [0b111, 0b001, 0b111, 0b100, 0b111] }),
        '3' => Some(Glyph { rows: [0b111, 0b001, 0b011, 0b001, 0b111] }),
        '4' => Some(Glyph { rows: [0b101, 0b101, 0b111, 0b001, 0b001] }),
        '5' => Some(Glyph { rows: [0b111, 0b100, 0b111, 0b001, 0b111] }),
        '6' => Some(Glyph { rows: [0b111, 0b100, 0b111, 0b101, 0b111] }),
        '7' => Some(Glyph { rows: [0b111, 0b001, 0b010, 0b100, 0b100] }),
        '8' => Some(Glyph { rows: [0b111, 0b101, 0b111, 0b101, 0b111] }),
        '9' => Some(Glyph { rows: [0b111, 0b101, 0b111, 0b001, 0b001] }),
        'A' => Some(Glyph { rows: [0b010, 0b101, 0b111, 0b101, 0b101] }),
        'B' => Some(Glyph { rows: [0b110, 0b101, 0b110, 0b101, 0b110] }),
        'C' => Some(Glyph { rows: [0b111, 0b100, 0b100, 0b100, 0b111] }),
        'D' => Some(Glyph { rows: [0b110, 0b101, 0b101, 0b101, 0b110] }),
        'E' => Some(Glyph { rows: [0b111, 0b100, 0b110, 0b100, 0b111] }),
        'F' => Some(Glyph { rows: [0b111, 0b100, 0b110, 0b100, 0b100] }),
        'G' => Some(Glyph { rows: [0b111, 0b100, 0b101, 0b101, 0b111] }),
        'H' => Some(Glyph { rows: [0b101, 0b101, 0b111, 0b101, 0b101] }),
        'I' => Some(Glyph { rows: [0b111, 0b010, 0b010, 0b010, 0b111] }),
        'J' => Some(Glyph { rows: [0b001, 0b001, 0b001, 0b101, 0b111] }),
        'K' => Some(Glyph { rows: [0b101, 0b110, 0b100, 0b110, 0b101] }),
        'L' => Some(Glyph { rows: [0b100, 0b100, 0b100, 0b100, 0b111] }),
        'M' => Some(Glyph { rows: [0b101, 0b111, 0b101, 0b101, 0b101] }),
        'N' => Some(Glyph { rows: [0b110, 0b101, 0b101, 0b101, 0b101] }),
        'O' => Some(Glyph { rows: [0b111, 0b101, 0b101, 0b101, 0b111] }),
        'P' => Some(Glyph { rows: [0b111, 0b101, 0b111, 0b100, 0b100] }),
        'Q' => Some(Glyph { rows: [0b111, 0b101, 0b101, 0b111, 0b001] }),
        'R' => Some(Glyph { rows: [0b111, 0b101, 0b110, 0b101, 0b101] }),
        'S' => Some(Glyph { rows: [0b111, 0b100, 0b111, 0b001, 0b111] }),
        'T' => Some(Glyph { rows: [0b111, 0b010, 0b010, 0b010, 0b010] }),
        'U' => Some(Glyph { rows: [0b101, 0b101, 0b101, 0b101, 0b111] }),
        'V' => Some(Glyph { rows: [0b101, 0b101, 0b101, 0b101, 0b010] }),
        'W' => Some(Glyph { rows: [0b101, 0b101, 0b101, 0b111, 0b101] }),
        'X' => Some(Glyph { rows: [0b101, 0b101, 0b010, 0b101, 0b101] }),
        'Y' => Some(Glyph { rows: [0b101, 0b101, 0b010, 0b010, 0b010] }),
        'Z' => Some(Glyph { rows: [0b111, 0b001, 0b010, 0b100, 0b111] }),
        ':' => Some(Glyph { rows: [0b000, 0b010, 0b000, 0b010, 0b000] }),
        '/' => Some(Glyph { rows: [0b001, 0b001, 0b010, 0b100, 0b100] }),
        ' ' => Some(Glyph { rows: [0b000, 0b000, 0b000, 0b000, 0b000] }),
        _ => None,
    }
}

/// The glyph drawn for `c`, or `None` when the font has none.
pub fn get_glyph(c: char) -> (r: Option<Glyph>)
    ensures
        r == glyph_for(c),
{
    match c {
        '0' => Some(Glyph { rows: [0b111, 0b101, 0b101, 0b101, 0b111] }),
        '1' => Some(Glyph { rows: [0b010, 0b110, 0b010, 0b010, 0b111] }),
        '2' => Some(Glyph { rows: [0b111, 0b001, 0b111, 0b100, 0b111] }),
        '3' => Some(Glyph { rows: [0b111, 0b001, 0b011, 0b001, 0b111] }),
        '4' => Some(Glyph { rows: [0b101, 0b101, 0b111, 0b001, 0b001] }),
        '5' => Some(Glyph { rows: [0b111, 0b100, 0b111, 0b001, 0b111] }),
        '6' => Some(Glyph { rows: [0b111, 0b100, 0b111, 0b101, 0b111] }),
        '7' => Some(Glyph { rows: [0b111, 0b001, 0b010, 0b100, 0b100] }),
        '8' => Some(Glyph { rows: [0b111, 0b101, 0b111, 0b101, 0b111] }),
        '9' => Some(Glyph { rows: [0b111, 0b101, 0b111, 0b001, 0b001] }),
        'A' => Some(Glyph { rows: [0b010, 0b101, 0b111, 0b101, 0b101] }),
        'B' => Some(Glyph { rows: [0b110, 0b101, 0b110, 0b101, 0b110] }),
        'C' => Some(Glyph { rows: [0b111, 0b100, 0b100, 0b100, 0b111] }),
        'D' => Some(Glyph { rows: [0b110, 0b101, 0b101, 0b101, 0b110] }),
        'E' => Some(Glyph { rows: [0b111, 0b100, 0b110, 0b100, 0b111] }),
        'F' => Some(Glyph { rows: [0b111, 0b100, 0b110, 0b100, 0b100] }),
        'G' => Some(Glyph { rows: [0b111, 0b100, 0b101, 0b101, 0b111] }),
        'H' => Some(Glyph { rows: [0b101, 0b101, 0b111, 0b101, 0b101] }),
        'I' => Some(Glyph { rows: [0b111, 0b010, 0b010, 0b010, 0b111] }),
        'J' => Some(Glyph { rows: [0b001, 0b001, 0b001, 0b101, 0b111] }),
        'K' => Some(Glyph { rows: [0b101, 0b110, 0b100, 0b110, 0b101] }),
        'L' => Some(Glyph { rows: [0b100, 0b100, 0b100, 0b100, 0b111] }),
        'M' => Some(Glyph { rows: [0b101, 0b111, 0b101, 0b101, 0b101] }),
        'N' => Some(Glyph { rows: [0b110, 0b101, 0b101, 0b101, 0b101] }),
        'O' => Some(Glyph { rows: [0b111, 0b101, 0b101, 0b101, 0b111] }),
        'P' => Some(Glyph { rows: [0b111, 0b101, 0b111, 0b100, 0b100] }),
        'Q' => Some(Glyph { rows: [0b111, 0b101, 0b101, 0b111, 0b001] }),
        'R' => Some(Glyph { rows: [0b111, 0b101, 0b110, 0b101, 0b101] }),
        'S' => Some(Glyph { rows: [0b111, 0b100, 0b111, 0b001, 0b111] }),
        'T' => Some(Glyph { rows: [0b111, 0b010, 0b010, 0b010, 0b010] }),
        'U' => Some(Glyph { rows: [0b101, 0b101, 0b101, 0b101, 0b111] }),
        'V' => Some(Glyph { rows: [0b101, 0b101, 0b101, 0b101, 0b010] }),
        'W' => Some(Glyph { rows: [0b101, 0b101, 0b101, 0b111, 0b101] }),
        'X' => Some(Glyph { rows: [0b101, 0b101, 0b010, 0b101, 0b101] }),
        'Y' => Some(Glyph { rows: [0b101, 0b101, 0b010, 0b010, 0b010] }),
        'Z' => Some(Glyph { rows: [0b111, 0b001, 0b010, 0b100, 0b111] }),
        ':' => Some(Glyph { rows: [0b000, 0b010, 0b000, 0b010, 0b000] }),
        '/' => Some(Glyph { rows: [0b001, 0b001, 0b010, 0b100, 0b100] }),
        ' ' => Some(Glyph { rows: [0b000, 0b000, 0b000, 0b000, 0b000] }),
        _ => None,
    }
}

} // verus!
