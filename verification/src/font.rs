//! The built-in 8x8 bitmap font: a restricted printable glyph set.
//! Unknown characters render as a blank glyph.

use vstd::prelude::*;

verus! {

/// The glyph rows of a character: bit `7 - col` of row `row` is set
/// where the glyph covers the cell.  Characters outside the built-in
/// set map to the blank glyph.
pub open spec fn font_glyph(ch: u8) -> Seq<u8> {
    if ch == 32 {  // ' '
        seq![0x00, 0x00, 0x00, 0x00, 0x00, 0x00, 0x00, 0x00]
    } else if ch == 48 {  // '0'
        seq![0x3C, 0x66, 0x6E, 0x76, 0x66, 0x66, 0x3C, 0x00]
    } else if ch == 49 {  // '1'
        seq![0x18, 0x18, 0x38, 0x18, 0x18, 0x18, 0x7E, 0x00]
    } else if ch == 50 {  // '2'
        seq![0x3C, 0x66, 0x06, 0x0C, 0x30, 0x60, 0x7E, 0x00]
    } else if ch == 51 {  // '3'
        seq![0x3C, 0x66, 0x06, 0x1C, 0x06, 0x66, 0x3C, 0x00]
    } else if ch == 52 {  // '4'
        seq![0x06, 0x0E, 0x1E, 0x66, 0x7F, 0x06, 0x06, 0x00]
    } else if ch == 53 {  // '5'
        seq![0x7E, 0x60, 0x7C, 0x06, 0x06, 0x66, 0x3C, 0x00]
    } else if ch == 54 {  // '6'
        seq![0x3C, 0x66, 0x60, 0x7C, 0x66, 0x66, 0x3C, 0x00]
    } else if ch == 55 {  // '7'
        seq![0x7E, 0x66, 0x0C, 0x18, 0x18, 0x18, 0x18, 0x00]
    } else if ch == 56 {  // '8'
        seq![0x3C, 0x66, 0x66, 0x3C, 0x66, 0x66, 0x3C, 0x00]
    } else if ch == 57 {  // '9'
        seq![0x3C, 0x66, 0x66, 0x3E, 0x06, 0x66, 0x3C, 0x00]
    } else if ch == 65 {  // 'A'
        seq![0x3C, 0x66, 0x66, 0x7E, 0x66, 0x66, 0x66, 0x00]
    } else if ch == 66 {  // 'B'
        seq![0x7C, 0x66, 0x66, 0x7C, 0x66, 0x66, 0x7C, 0x00]
    } else if ch == 67 {  // 'C'
        seq![0x3C, 0x66, 0x60, 0x60, 0x60, 0x66, 0x3C, 0x00]
    } else if ch == 68 {  // 'D'
        seq![0x7C, 0x66, 0x66, 0x66, 0x66, 0x66, 0x7C, 0x00]
    } else if ch == 69 {  // 'E'
        seq![0x7E, 0x60, 0x60, 0x7C, 0x60, 0x60, 0x7E, 0x00]
    } else if ch == 70 {  // 'F'
        seq![0x7E, 0x60, 0x60, 0x7C, 0x60, 0x60, 0x60, 0x00]
    } else if ch == 71 {  // 'G'
        seq![0x3C, 0x66, 0x60, 0x6E, 0x66, 0x66, 0x3C, 0x00]
    } else if ch == 72 {  // 'H'
        seq![0x66, 0x66, 0x66, 0x7E, 0x66, 0x66, 0x66, 0x00]
    } else if ch == 73 {  // 'I'
        seq![0x3C, 0x18, 0x18, 0x18, 0x18, 0x18, 0x3C, 0x00]
    } else if ch == 74 {  // 'J'
        seq![0x1E, 0x0C, 0x0C, 0x0C, 0x0C, 0x6C, 0x38, 0x00]
    } else if ch == 75 {  // 'K'
        seq![0x66, 0x6C, 0x78, 0x70, 0x78, 0x6C, 0x66, 0x00]
    } else if ch == 76 {  // 'L'
        seq![0x60, 0x60, 0x60, 0x60, 0x60, 0x60, 0x7E, 0x00]
    } else if ch == 77 {  // 'M'
        seq![0x63, 0x77, 0x7F, 0x6B, 0x63, 0x63, 0x63, 0x00]
    } else if ch == 78 {  // 'N'
        seq![0x66, 0x76, 0x7E, 0x7E, 0x6E, 0x66, 0x66, 0x00]
    } else if ch == 79 {  // 'O'
        seq![0x3C, 0x66, 0x66, 0x66, 0x66, 0x66, 0x3C, 0x00]
    } else if ch == 80 {  // 'P'
        seq![0x7C, 0x66, 0x66, 0x7C, 0x60, 0x60, 0x60, 0x00]
    } else if ch == 81 {  // 'Q'
        seq![0x3C, 0x66, 0x66, 0x66, 0x66, 0x3C, 0x0E, 0x00]
    } else if ch == 82 {  // 'R'
        seq![0x7C, 0x66, 0x66, 0x7C, 0x78, 0x6C, 0x66, 0x00]
    } else if ch == 83 {  // 'S'
        seq![0x3C, 0x66, 0x60, 0x3C, 0x06, 0x66, 0x3C, 0x00]
    } else if ch == 84 {  // 'T'
        seq![0x7E, 0x18, 0x18, 0x18, 0x18, 0x18, 0x18, 0x00]
    } else if ch == 85 {  // 'U'
        seq![0x66, 0x66, 0x66, 0x66, 0x66, 0x66, 0x3C, 0x00]
    } else if ch == 86 {  // 'V'
        seq![0x66, 0x66, 0x66, 0x66, 0x66, 0x3C, 0x18, 0x00]
    } else if ch == 87 {  // 'W'
        seq![0x63, 0x63, 0x63, 0x6B, 0x7F, 0x77, 0x63, 0x00]
    } else if ch == 88 {  // 'X'
        seq![0x66, 0x66, 0x3C, 0x18, 0x3C, 0x66, 0x66, 0x00]
    } else if ch == 89 {  // 'Y'
        seq![0x66, 0x66, 0x66, 0x3C, 0x18, 0x18, 0x18, 0x00]
    } else if ch == 90 {  // 'Z'
        seq![0x7E, 0x06, 0x0C, 0x18, 0x30, 0x60, 0x7E, 0x00]
    } else if ch == 97 {  // 'a'
        seq![0x00, 0x00, 0x3C, 0x06, 0x3E, 0x66, 0x3E, 0x00]
    } else if ch == 98 {  // 'b'
        seq![0x60, 0x60, 0x7C, 0x66, 0x66, 0x66, 0x7C, 0x00]
    } else if ch == 99 {  // 'c'
        seq![0x00, 0x00, 0x3C, 0x60, 0x60, 0x60, 0x3C, 0x00]
    } else if ch == 100 {  // 'd'
        seq![0x06, 0x06, 0x3E, 0x66, 0x66, 0x66, 0x3E, 0x00]
    } else if ch == 101 {  // 'e'
        seq![0x00, 0x00, 0x3C, 0x66, 0x7E, 0x60, 0x3C, 0x00]
    } else if ch == 102 {  // 'f'
        seq![0x1C, 0x36, 0x30, 0x7C, 0x30, 0x30, 0x30, 0x00]
    } else if ch == 103 {  // 'g'
        seq![0x00, 0x00, 0x3E, 0x66, 0x66, 0x3E, 0x06, 0x7C]
    } else if ch == 104 {  // 'h'
        seq![0x60, 0x60, 0x7C, 0x66, 0x66, 0x66, 0x66, 0x00]
    } else if ch == 105 {  // 'i'
        seq![0x18, 0x00, 0x38, 0x18, 0x18, 0x18, 0x3C, 0x00]
    } else if ch == 106 {  // 'j'
        seq![0x06, 0x00, 0x0E, 0x06, 0x06, 0x06, 0x66, 0x3C]
    } else if ch == 107 {  // 'k'
        seq![0x60, 0x60, 0x66, 0x6C, 0x78, 0x6C, 0x66, 0x00]
    } else if ch == 108 {  // 'l'
        seq![0x38, 0x18, 0x18, 0x18, 0x18, 0x18, 0x3C, 0x00]
    } else if ch == 109 {  // 'm'
        seq![0x00, 0x00, 0x66, 0x7F, 0x7F, 0x6B, 0x63, 0x00]
    } else if ch == 110 {  // 'n'
        seq![0x00, 0x00, 0x7C, 0x66, 0x66, 0x66, 0x66, 0x00]
    } else if ch == 111 {  // 'o'
        seq![0x00, 0x00, 0x3C, 0x66, 0x66, 0x66, 0x3C, 0x00]
    } else if ch == 112 {  // 'p'
        seq![0x00, 0x00, 0x7C, 0x66, 0x66, 0x7C, 0x60, 0x60]
    } else if ch == 113 {  // 'q'
        seq![0x00, 0x00, 0x3E, 0x66, 0x66, 0x3E, 0x06, 0x06]
    } else if ch == 114 {  // 'r'
        seq![0x00, 0x00, 0x7C, 0x66, 0x60, 0x60, 0x60, 0x00]
    } else if ch == 115 {  // 's'
        seq![0x00, 0x00, 0x3E, 0x60, 0x3C, 0x06, 0x7C, 0x00]
    } else if ch == 116 {  // 't'
        seq![0x18, 0x18, 0x7E, 0x18, 0x18, 0x18, 0x0E, 0x00]
    } else if ch == 117 {  // 'u'
        seq![0x00, 0x00, 0x66, 0x66, 0x66, 0x66, 0x3E, 0x00]
    } else if ch == 118 {  // 'v'
        seq![0x00, 0x00, 0x66, 0x66, 0x66, 0x3C, 0x18, 0x00]
    } else if ch == 119 {  // 'w'
        seq![0x00, 0x00, 0x63, 0x6B, 0x7F, 0x3E, 0x36, 0x00]
    } else if ch == 120 {  // 'x'
        seq![0x00, 0x00, 0x66, 0x3C, 0x18, 0x3C, 0x66, 0x00]
    } else if ch == 121 {  // 'y'
        seq![0x00, 0x00, 0x66, 0x66, 0x66, 0x3E, 0x0C, 0x78]
    } else if ch == 122 {  // 'z'
        seq![0x00, 0x00, 0x7E, 0x0C, 0x18, 0x30, 0x7E, 0x00]
    } else if ch == 33 {  // '!'
        seq![0x18, 0x18, 0x18, 0x18, 0x00, 0x18, 0x18, 0x00]
    } else if ch == 58 {  // ':'
        seq![0x00, 0x00, 0x18, 0x00, 0x00, 0x18, 0x00, 0x00]
    } else if ch == 40 {  // '('
        seq![0x0C, 0x18, 0x30, 0x30, 0x30, 0x18, 0x0C, 0x00]
    } else if ch == 41 {  // ')'
        seq![0x30, 0x18, 0x0C, 0x0C, 0x0C, 0x18, 0x30, 0x00]
    } else if ch == 46 {  // '.'
        seq![0x00, 0x00, 0x00, 0x00, 0x00, 0x18, 0x18, 0x00]
    } else if ch == 44 {  // ','
        seq![0x00, 0x00, 0x00, 0x00, 0x00, 0x18, 0x30, 0x00]
    } else if ch == 45 {  // '-'
        seq![0x00, 0x00, 0x00, 0x7E, 0x00, 0x00, 0x00, 0x00]
    } else if ch == 61 {  // '='
        seq![0x00, 0x00, 0x7E, 0x00, 0x7E, 0x00, 0x00, 0x00]
    } else if ch == 43 {  // '+'
        seq![0x00, 0x18, 0x18, 0x7E, 0x18, 0x18, 0x00, 0x00]
    } else if ch == 47 {  // '/'
        seq![0x00, 0x06, 0x0C, 0x18, 0x30, 0x60, 0x00, 0x00]
    } else if ch == 92 {  // '\\'
        seq![0x00, 0x60, 0x30, 0x18, 0x0C, 0x06, 0x00, 0x00]
    } else if ch == 37 {  // '%'
        seq![0x00, 0x46, 0x66, 0x30, 0x18, 0xCC, 0xC4, 0x00]
    } else {
        seq![0x00u8, 0x00, 0x00, 0x00, 0x00, 0x00, 0x00, 0x00]
    }
}

/// The glyph covers the cell `(col, row)`.
pub open spec fn glyph_lit(g: Seq<u8>, col: int, row: int) -> bool {
    &&& 0 <= col < 8
    &&& 0 <= row < 8
    &&& g.len() == 8
    &&& (g[row] >> ((7 - col) as u8)) & 1u8 == 1u8
}

/// Looks up the 8x8 glyph for a character.
#[verifier::rlimit(100)]
pub fn get_font_glyph(ch: u8) -> (r: [u8; 8])
    ensures
        r@ == font_glyph(ch),
{
    let g: [u8; 8] = match ch {
        32 => [0x00, 0x00, 0x00, 0x00, 0x00, 0x00, 0x00, 0x00],  // ' '
        48 => [0x3C, 0x66, 0x6E, 0x76, 0x66, 0x66, 0x3C, 0x00],  // '0'
        49 => [0x18, 0x18, 0x38, 0x18, 0x18, 0x18, 0x7E, 0x00],  // '1'
        50 => [0x3C, 0x66, 0x06, 0x0C, 0x30, 0x60, 0x7E, 0x00],  // '2'
        51 => [0x3C, 0x66, 0x06, 0x1C, 0x06, 0x66, 0x3C, 0x00],  // '3'
        52 => [0x06, 0x0E, 0x1E, 0x66, 0x7F, 0x06, 0x06, 0x00],  // '4'
        53 => [0x7E, 0x60, 0x7C, 0x06, 0x06, 0x66, 0x3C, 0x00],  // '5'
        54 => [0x3C, 0x66, 0x60, 0x7C, 0x66, 0x66, 0x3C, 0x00],  // '6'
        55 => [0x7E, 0x66, 0x0C, 0x18, 0x18, 0x18, 0x18, 0x00],  // '7'
        56 => [0x3C, 0x66, 0x66, 0x3C, 0x66, 0x66, 0x3C, 0x00],  // '8'
        57 => [0x3C, 0x66, 0x66, 0x3E, 0x06, 0x66, 0x3C, 0x00],  // '9'
        65 => [0x3C, 0x66, 0x66, 0x7E, 0x66, 0x66, 0x66, 0x00],  // 'A'
        66 => [0x7C, 0x66, 0x66, 0x7C, 0x66, 0x66, 0x7C, 0x00],  // 'B'
        67 => [0x3C, 0x66, 0x60, 0x60, 0x60, 0x66, 0x3C, 0x00],  // 'C'
        68 => [0x7C, 0x66, 0x66, 0x66, 0x66, 0x66, 0x7C, 0x00],  // 'D'
        69 => [0x7E, 0x60, 0x60, 0x7C, 0x60, 0x60, 0x7E, 0x00],  // 'E'
        70 => [0x7E, 0x60, 0x60, 0x7C, 0x60, 0x60, 0x60, 0x00],  // 'F'
        71 => [0x3C, 0x66, 0x60, 0x6E, 0x66, 0x66, 0x3C, 0x00],  // 'G'
        72 => [0x66, 0x66, 0x66, 0x7E, 0x66, 0x66, 0x66, 0x00],  // 'H'
        73 => [0x3C, 0x18, 0x18, 0x18, 0x18, 0x18, 0x3C, 0x00],  // 'I'
        74 => [0x1E, 0x0C, 0x0C, 0x0C, 0x0C, 0x6C, 0x38, 0x00],  // 'J'
        75 => [0x66, 0x6C, 0x78, 0x70, 0x78, 0x6C, 0x66, 0x00],  // 'K'
        76 => [0x60, 0x60, 0x60, 0x60, 0x60, 0x60, 0x7E, 0x00],  // 'L'
        77 => [0x63, 0x77, 0x7F, 0x6B, 0x63, 0x63, 0x63, 0x00],  // 'M'
        78 => [0x66, 0x76, 0x7E, 0x7E, 0x6E, 0x66, 0x66, 0x00],  // 'N'
        79 => [0x3C, 0x66, 0x66, 0x66, 0x66, 0x66, 0x3C, 0x00],  // 'O'
        80 => [0x7C, 0x66, 0x66, 0x7C, 0x60, 0x60, 0x60, 0x00],  // 'P'
        81 => [0x3C, 0x66, 0x66, 0x66, 0x66, 0x3C, 0x0E, 0x00],  // 'Q'
        82 => [0x7C, 0x66, 0x66, 0x7C, 0x78, 0x6C, 0x66, 0x00],  // 'R'
        83 => [0x3C, 0x66, 0x60, 0x3C, 0x06, 0x66, 0x3C, 0x00],  // 'S'
        84 => [0x7E, 0x18, 0x18, 0x18, 0x18, 0x18, 0x18, 0x00],  // 'T'
        85 => [0x66, 0x66, 0x66, 0x66, 0x66, 0x66, 0x3C, 0x00],  // 'U'
        86 => [0x66, 0x66, 0x66, 0x66, 0x66, 0x3C, 0x18, 0x00],  // 'V'
        87 => [0x63, 0x63, 0x63, 0x6B, 0x7F, 0x77, 0x63, 0x00],  // 'W'
        88 => [0x66, 0x66, 0x3C, 0x18, 0x3C, 0x66, 0x66, 0x00],  // 'X'
        89 => [0x66, 0x66, 0x66, 0x3C, 0x18, 0x18, 0x18, 0x00],  // 'Y'
        90 => [0x7E, 0x06, 0x0C, 0x18, 0x30, 0x60, 0x7E, 0x00],  // 'Z'
        97 => [0x00, 0x00, 0x3C, 0x06, 0x3E, 0x66, 0x3E, 0x00],  // 'a'
        98 => [0x60, 0x60, 0x7C, 0x66, 0x66, 0x66, 0x7C, 0x00],  // 'b'
        99 => [0x00, 0x00, 0x3C, 0x60, 0x60, 0x60, 0x3C, 0x00],  // 'c'
        100 => [0x06, 0x06, 0x3E, 0x66, 0x66, 0x66, 0x3E, 0x00],  // 'd'
        101 => [0x00, 0x00, 0x3C, 0x66, 0x7E, 0x60, 0x3C, 0x00],  // 'e'
        102 => [0x1C, 0x36, 0x30, 0x7C, 0x30, 0x30, 0x30, 0x00],  // 'f'
        103 => [0x00, 0x00, 0x3E, 0x66, 0x66, 0x3E, 0x06, 0x7C],  // 'g'
        104 => [0x60, 0x60, 0x7C, 0x66, 0x66, 0x66, 0x66, 0x00],  // 'h'
        105 => [0x18, 0x00, 0x38, 0x18, 0x18, 0x18, 0x3C, 0x00],  // 'i'
        106 => [0x06, 0x00, 0x0E, 0x06, 0x06, 0x06, 0x66, 0x3C],  // 'j'
        107 => [0x60, 0x60, 0x66, 0x6C, 0x78, 0x6C, 0x66, 0x00],  // 'k'
        108 => [0x38, 0x18, 0x18, 0x18, 0x18, 0x18, 0x3C, 0x00],  // 'l'
        109 => [0x00, 0x00, 0x66, 0x7F, 0x7F, 0x6B, 0x63, 0x00],  // 'm'
        110 => [0x00, 0x00, 0x7C, 0x66, 0x66, 0x66, 0x66, 0x00],  // 'n'
        111 => [0x00, 0x00, 0x3C, 0x66, 0x66, 0x66, 0x3C, 0x00],  // 'o'
        112 => [0x00, 0x00, 0x7C, 0x66, 0x66, 0x7C, 0x60, 0x60],  // 'p'
        113 => [0x00, 0x00, 0x3E, 0x66, 0x66, 0x3E, 0x06, 0x06],  // 'q'
        114 => [0x00, 0x00, 0x7C, 0x66, 0x60, 0x60, 0x60, 0x00],  // 'r'
        115 => [0x00, 0x00, 0x3E, 0x60, 0x3C, 0x06, 0x7C, 0x00],  // 's'
        116 => [0x18, 0x18, 0x7E, 0x18, 0x18, 0x18, 0x0E, 0x00],  // 't'
        117 => [0x00, 0x00, 0x66, 0x66, 0x66, 0x66, 0x3E, 0x00],  // 'u'
        118 => [0x00, 0x00, 0x66, 0x66, 0x66, 0x3C, 0x18, 0x00],  // 'v'
        119 => [0x00, 0x00, 0x63, 0x6B, 0x7F, 0x3E, 0x36, 0x00],  // 'w'
        120 => [0x00, 0x00, 0x66, 0x3C, 0x18, 0x3C, 0x66, 0x00],  // 'x'
        121 => [0x00, 0x00, 0x66, 0x66, 0x66, 0x3E, 0x0C, 0x78],  // 'y'
        122 => [0x00, 0x00, 0x7E, 0x0C, 0x18, 0x30, 0x7E, 0x00],  // 'z'
        33 => [0x18, 0x18, 0x18, 0x18, 0x00, 0x18, 0x18, 0x00],  // '!'
        58 => [0x00, 0x00, 0x18, 0x00, 0x00, 0x18, 0x00, 0x00],  // ':'
        40 => [0x0C, 0x18, 0x30, 0x30, 0x30, 0x18, 0x0C, 0x00],  // '('
        41 => [0x30, 0x18, 0x0C, 0x0C, 0x0C, 0x18, 0x30, 0x00],  // ')'
        46 => [0x00, 0x00, 0x00, 0x00, 0x00, 0x18, 0x18, 0x00],  // '.'
        44 => [0x00, 0x00, 0x00, 0x00, 0x00, 0x18, 0x30, 0x00],  // ','
        45 => [0x00, 0x00, 0x00, 0x7E, 0x00, 0x00, 0x00, 0x00],  // '-'
        61 => [0x00, 0x00, 0x7E, 0x00, 0x7E, 0x00, 0x00, 0x00],  // '='
        43 => [0x00, 0x18, 0x18, 0x7E, 0x18, 0x18, 0x00, 0x00],  // '+'
        47 => [0x00, 0x06, 0x0C, 0x18, 0x30, 0x60, 0x00, 0x00],  // '/'
        92 => [0x00, 0x60, 0x30, 0x18, 0x0C, 0x06, 0x00, 0x00],  // '\\'
        37 => [0x00, 0x46, 0x66, 0x30, 0x18, 0xCC, 0xC4, 0x00],  // '%'
        _ => [0x00, 0x00, 0x00, 0x00, 0x00, 0x00, 0x00, 0x00],
    };
    proof {
        assert(g@ =~= font_glyph(ch));
    }
    g
}

} // verus!
