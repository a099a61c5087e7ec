//! Glyph renderer.
//!
//! Maps the ordered per-core indicator states onto a character grid. When the
//! grid has at least one cell per core, each core gets its own cell (sparse
//! mode). Otherwise consecutive cores are grouped, each group is on when any
//! member is on, and eight group bits are packed into one braille glyph per
//! cell (dense mode).
use vstd::prelude::*;
use crate::bitmap_to_braille;
use crate::braille_offset;
use crate::predict::ceil_div;
use crate::predict::div_ceil;
use vstd::arithmetic::div_mod::lemma_fundamental_div_mod;

verus! {

/// Whether the group of `len` consecutive indicators starting at `start` has
/// any member on; members beyond the end of the sequence count as off.
pub open spec fn group_on(lits: Seq<bool>, start: int, len: int) -> bool {
    exists|i: int| start <= i < start + len && 0 <= i < lits.len() && lits[i]
}

/// Two to the power `b`, for the place value of bit `b`.
pub open spec fn bit_value(b: int) -> int
    decreases b,
{
    if b <= 0 {
        1
    } else {
        2 * bit_value(b - 1)
    }
}

/// The low `nbits` bits of the byte packed for cell `cell`: bit `b` of the
/// byte is on when group `cell*8 + b` is on.
pub open spec fn cell_byte_upto(lits: Seq<bool>, cell: int, group_len: int, nbits: int) -> int
    decreases nbits,
{
    if nbits <= 0 {
        0
    } else {
        cell_byte_upto(lits, cell, group_len, nbits - 1) + (if group_on(
            lits,
            (cell * 8 + nbits - 1) * group_len,
            group_len,
        ) {
            bit_value(nbits - 1)
        } else {
            0
        })
    }
}

/// The byte packed for cell `cell` in dense mode.
pub open spec fn cell_byte(lits: Seq<bool>, cell: int, group_len: int) -> int {
    cell_byte_upto(lits, cell, group_len, 8)
}

/// The code point shown in cell `idx` of a grid with `area` cells: in sparse
/// mode (area at least one cell per core) a bullet for an indicator that is
/// on and a blank otherwise; in dense mode the braille glyph of the cell's
/// packed byte, with the groups sized so that every core lands in some cell.
pub open spec fn cell_code(lits: Seq<bool>, area: int, idx: int) -> int {
    if area >= lits.len() {
        if 0 <= idx < lits.len() && lits[idx] {
            0x2022
        } else {
            0x20
        }
    } else {
        0x2800 + braille_offset(cell_byte(lits, idx, ceil_div(lits.len() as int, area * 8)) as u8)
    }
}

/// Relies on `String::push` (std): appends exactly the given character.
pub assume_specification[ String::push ](s: &mut String, c: char)
    ensures
        final(s)@ == old(s)@.push(c),
;

/// Whether the group of `group_len` indicators starting at `start` has any
/// member on.
fn group_is_on(lits: &Vec<bool>, start: usize, group_len: usize) -> (r: bool)
    requires
        start + group_len <= usize::MAX,
    ensures
        r == group_on(lits@, start as int, group_len as int),
{
    let mut g: usize = 0;
    while g < group_len
        invariant
            g <= group_len,
            start + group_len <= usize::MAX,
            forall|i: int| start <= i < start + g && 0 <= i < lits@.len() ==> !lits@[i],
        decreases group_len - g,
    {
        let idx = start + g;
        if idx < lits.len() && lits[idx] {
            return true;
        }
        g += 1;
    }
    false
}

/// The byte packed for cell `cell` in dense mode with groups of `group_len`.
fn pack_cell_byte(lits: &Vec<bool>, cell: usize, group_len: usize) -> (b: u8)
    requires
        1 <= group_len,
        (cell * 8 + 8) * group_len <= usize::MAX,
    ensures
        b == cell_byte(lits@, cell as int, group_len as int),
{
    let mut acc: u16 = 0;
    let mut bitv: u16 = 1;
    let mut nb: usize = 0;
    while nb < 8
        invariant
            nb <= 8,
            1 <= group_len,
            (cell * 8 + 8) * group_len <= usize::MAX,
            bitv == bit_value(nb as int),
            acc == cell_byte_upto(lits@, cell as int, group_len as int, nb as int),
            acc < bitv <= 256,
        decreases 8 - nb,
    {
        proof {
            reveal_with_fuel(bit_value, 10);
            assert(cell * 8 + nb <= (cell * 8 + nb) * group_len && (cell * 8 + nb) * group_len
                + group_len <= (cell * 8 + 8) * group_len) by (nonlinear_arith)
                requires
                    nb < 8,
                    1 <= group_len,
                    0 <= cell,
            ;
        }
        let start = (cell * 8 + nb) * group_len;
        if group_is_on(lits, start, group_len) {
            acc += bitv;
        }
        nb += 1;
        bitv = bitv * 2;
    }
    acc as u8
}

proof fn lemma_pos_mono(r0: int, c0: int, r: int, cols: int)
    requires
        0 <= r0 < r,
        0 <= c0 <= cols,
    ensures
        0 <= r0 * (cols + 1) + c0 < r * (cols + 1),
{
    assert(0 <= r0 * (cols + 1) + c0 < r * (cols + 1)) by (nonlinear_arith)
        requires
            0 <= r0 < r,
            0 <= c0 <= cols,
    ;
}

/// Renders the indicator states onto a `rows x cols` grid: rows of cells
/// separated by newlines, with no trailing newline. Sparse mode is chosen
/// exactly when the grid has at least as many cells as there are cores.
pub fn render_grid(lits: &Vec<bool>, rows: usize, cols: usize) -> (out: String)
    requires
        1 <= rows * cols,
        rows <= usize::MAX / 2,
        cols <= usize::MAX / 2,
        lits@.len() + rows * cols * 8 <= usize::MAX,
    ensures
        out@.len() == rows * (cols + 1) - 1,
        forall|r: int, c: int|
            0 <= r < rows && 0 <= c < cols ==> (#[trigger] out@[r * (cols + 1) + c]) as u32
                == cell_code(lits@, rows * cols, r * cols + c),
        forall|r: int| 0 <= r < rows - 1 ==> #[trigger] out@[r * (cols + 1) + cols] == '\n',
{
    proof {
        assert(rows >= 1 && cols >= 1) by (nonlinear_arith)
            requires
                1 <= rows * cols,
        ;
    }
    let area = rows * cols;
    let sparse = area >= lits.len();
    let ghost n = lits@.len() as int;
    let group_len: usize = if sparse {
        1
    } else {
        div_ceil(lits.len() as u64, (area * 8) as u64) as usize
    };
    proof {
        if !sparse {
            let a8 = area * 8 as int;
            assert(1 <= group_len <= n);
            lemma_fundamental_div_mod(n + a8 - 1, a8);
            assert(group_len * a8 == a8 * group_len) by (nonlinear_arith);
            assert(a8 * group_len <= n + a8 - 1);
        }
    }
    let mut out = String::new();
    let mut r: usize = 0;
    while r < rows
        invariant
            r <= rows,
            area == rows * cols,
            1 <= area,
            lits@.len() + area * 8 <= usize::MAX,
            rows <= usize::MAX / 2,
            cols <= usize::MAX / 2,
            sparse == (area >= lits@.len()),
            sparse ==> group_len == 1,
            !sparse ==> group_len == ceil_div(lits@.len() as int, area * 8) && 1 <= group_len
                <= lits@.len() && (area * 8) * group_len <= lits@.len() + area * 8 - 1,
            out@.len() == r * (cols + 1) - (if r > 0 {
                1int
            } else {
                0int
            }),
            forall|r0: int, c0: int|
                0 <= r0 < r && 0 <= c0 < cols ==> (#[trigger] out@[r0 * (cols + 1) + c0]) as u32
                    == cell_code(lits@, area as int, r0 * cols + c0),
            forall|r0: int| 0 <= r0 < r - 1 ==> #[trigger] out@[r0 * (cols + 1) + cols] == '\n',
        decreases rows - r,
    {
        if r > 0 {
            let ghost prev = out@;
            out.push('\n');
            proof {
                assert((r - 1) * (cols + 1) + cols == r * (cols + 1) - 1) by (nonlinear_arith);
                assert forall|r0: int, c0: int| 0 <= r0 < r && 0 <= c0 < cols implies (
                #[trigger] out@[r0 * (cols + 1) + c0]) == prev[r0 * (cols + 1) + c0] by {
                    lemma_pos_mono(r0, c0 + 1, r as int, cols as int);
                }
                assert forall|r0: int| 0 <= r0 < r - 1 implies #[trigger] out@[r0 * (cols + 1)
                    + cols] == prev[r0 * (cols + 1) + cols] by {
                    lemma_pos_mono(r0, cols as int, r as int - 1, cols as int);
                }
            }
        }
        let mut c: usize = 0;
        while c < cols
            invariant
                c <= cols,
                r < rows,
                area == rows * cols,
                1 <= area,
                lits@.len() + area * 8 <= usize::MAX,
                rows <= usize::MAX / 2,
                cols <= usize::MAX / 2,
                sparse == (area >= lits@.len()),
                sparse ==> group_len == 1,
                !sparse ==> group_len == ceil_div(lits@.len() as int, area * 8) && 1 <= group_len
                    <= lits@.len() && (area * 8) * group_len <= lits@.len() + area * 8 - 1,
                out@.len() == r * (cols + 1) + c,
                forall|r0: int, c0: int|
                    0 <= r0 < r && 0 <= c0 < cols ==> (#[trigger] out@[r0 * (cols + 1) + c0])
                        as u32 == cell_code(lits@, area as int, r0 * cols + c0),
                forall|c0: int|
                    0 <= c0 < c ==> (#[trigger] out@[r * (cols + 1) + c0]) as u32 == cell_code(
                        lits@,
                        area as int,
                        r * cols + c0,
                    ),
                forall|r0: int| 0 <= r0 < r ==> #[trigger] out@[r0 * (cols + 1) + cols] == '\n',
            decreases cols - c,
        {
            proof {
                assert(r * cols + c < rows * cols && r * cols + c <= usize::MAX) by (
                nonlinear_arith)
                    requires
                        0 <= r < rows,
                        0 <= c < cols,
                        rows * cols <= usize::MAX,
                ;
            }
            let idx = r * cols + c;
            let ch: char = if sparse {
                if idx < lits.len() && lits[idx] {
                    '\u{2022}'
                } else {
                    ' '
                }
            } else {
                proof {
                    assert((idx * 8 + 8) * group_len <= (area * 8) * group_len) by (
                    nonlinear_arith)
                        requires
                            0 <= idx < area,
                            1 <= group_len,
                    ;
                }
                let byte = pack_cell_byte(lits, idx, group_len);
                bitmap_to_braille(byte)
            };
            let ghost prev = out@;
            out.push(ch);
            proof {
                assert forall|r0: int, c0: int| 0 <= r0 < r && 0 <= c0 < cols implies (
                #[trigger] out@[r0 * (cols + 1) + c0]) == prev[r0 * (cols + 1) + c0] by {
                    lemma_pos_mono(r0, c0, r as int, cols as int);
                }
                assert forall|r0: int| 0 <= r0 < r implies #[trigger] out@[r0 * (cols + 1) + cols]
                    == prev[r0 * (cols + 1) + cols] by {
                    lemma_pos_mono(r0, cols as int, r as int, cols as int);
                }
            }
            c += 1;
        }
        proof {
            assert((r + 1) * (cols + 1) - 1 == r * (cols + 1) + cols) by (nonlinear_arith);
        }
        r += 1;
    }
    out
}

} // verus!
