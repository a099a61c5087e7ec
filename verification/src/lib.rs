//! A per-core load indicator for a fixed character grid.
//!
//! Each processor core drives a one-bit blink signal derived from its load
//! fraction through a wrapping fixed-point accumulator. The library computes,
//! analytically, the number of frames until any core's signal next flips (so a
//! host can sleep exactly that long), and renders the signals either one per
//! cell or bit-packed into dense braille glyphs.
use vstd::prelude::*;

pub mod engine;
pub mod lamp;
pub mod predict;
pub mod render;
pub mod slist;
pub mod sysinfo;

verus! {

/// Code point of the blank glyph, the base of the 256-glyph braille block.
pub const BRAILLE_BLANK: u32 = 0x2800;

/// The fixed dot-position remap from our fragment bit numbering to the
/// braille block's standardized dot numbering.
///
/// Our fragment numbers the dots row-major:   The standard numbers them:
///
/// ```text
///             0  1                                       0  3
///             2  3                                       1  4
///             4  5                                       2  5
///             6  7                                       6  7
/// ```
///
/// Bits 0, 5, 6 and 7 keep their positions; bits 1, 2, 3 and 4 move to
/// positions 3, 1, 4 and 2 respectively.
pub open spec fn braille_offset(b: u8) -> u8 {
    (b & 0xe1) | ((b & 0x02) << 2) | ((b & 0x04) >> 1) | ((b & 0x08) << 1) | ((b & 0x10) >> 2)
}

/// Relies on `char::from_u32` (std): returns `Some` exactly on Unicode scalar
/// values (code points outside the surrogate range `0xD800..=0xDFFF` and at
/// most `0x10FFFF`), and the returned `char` is that code point.
pub assume_specification[ char::from_u32 ](i: u32) -> (r: Option<char>)
    ensures
        r is Some <==> (i < 0xD800 || (0xE000 <= i && i <= 0x10FFFF)),
        r is Some ==> r->0 as u32 == i,
;

/// Encodes eight indicator bits into one glyph of the braille block: the
/// glyph whose dot pattern, under the standardized dot numbering, shows
/// exactly the set bits of `bitmap` under our fragment numbering.
pub fn bitmap_to_braille(bitmap: u8) -> (c: char)
    ensures
        c as u32 == BRAILLE_BLANK + braille_offset(bitmap),
{
    let b = bitmap;
    let uni: u8 = (b & 0xe1) | ((b & 0x02) << 2) | ((b & 0x04) >> 1) | ((b & 0x08) << 1)
        | ((b & 0x10) >> 2);
    let code: u32 = BRAILLE_BLANK + uni as u32;
    char::from_u32(code).unwrap()
}

/// The remap is injective, so the byte-to-glyph encoding maps the 256 input
/// bytes onto 256 distinct glyph code points.
pub proof fn lemma_braille_offset_injective(a: u8, b: u8)
    ensures
        braille_offset(a) == braille_offset(b) ==> a == b,
{
    assert((a & 0xe1) | ((a & 0x02) << 2) | ((a & 0x04) >> 1) | ((a & 0x08) << 1) | ((a & 0x10)
        >> 2) == (b & 0xe1) | ((b & 0x02) << 2) | ((b & 0x04) >> 1) | ((b & 0x08) << 1) | ((b
        & 0x10) >> 2) ==> a == b) by (bit_vector);
}

/// The all-clear byte maps to the blank glyph and the all-set byte to the
/// fully filled glyph.
pub proof fn lemma_braille_offset_endpoints()
    ensures
        braille_offset(0x00) == 0x00,
        braille_offset(0xff) == 0xff,
{
    assert((0x00u8 & 0xe1) | ((0x00u8 & 0x02) << 2) | ((0x00u8 & 0x04) >> 1) | ((0x00u8 & 0x08)
        << 1) | ((0x00u8 & 0x10) >> 2) == 0x00u8) by (bit_vector);
    assert((0xffu8 & 0xe1) | ((0xffu8 & 0x02) << 2) | ((0xffu8 & 0x04) >> 1) | ((0xffu8 & 0x08)
        << 1) | ((0xffu8 & 0x10) >> 2) == 0xffu8) by (bit_vector);
}

} // verus!
