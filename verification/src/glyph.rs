//! Rendering one 8x8 bitmap into a cell of the surface.
//!
//! Every bit of the bitmap becomes a block of `scale(cell_w)` by
//! `scale(cell_h)` pixels. A set bit is drawn in the foreground colour. A
//! clear bit is drawn in the background colour, or left alone where the
//! background is transparent.

use vstd::prelude::*;
use vstd::arithmetic::div_mod::lemma_fundamental_div_mod;
use vstd::arithmetic::div_mod::lemma_fundamental_div_mod_converse;
use vstd::arithmetic::div_mod::lemma_mod_bound;
use crate::canvas::over;
use crate::canvas::rect;
use crate::canvas::SurfaceView;
use crate::color::Rgb;
use crate::font::glyph_bits;
use crate::font::glyph_rows;
use crate::surface::Surface;

verus! {

/// The side of the block that one bit is drawn as: an eighth of the cell,
/// rounded down, and never less than one pixel.
pub open spec fn scale(cell: int) -> int {
    if cell / 8 >= 1 {
        cell / 8
    } else {
        1
    }
}

/// Whether the bit of column `col` is set in a bitmap row.
pub open spec fn bit_on(bits: u8, col: u32) -> bool {
    (bits >> col) & 1 != 0
}

/// The colour that a bit is drawn in, if it is drawn.
pub open spec fn bit_colour(on: bool, fg: Rgb, bg: Option<Rgb>) -> Option<Rgb> {
    if on {
        Some(fg)
    } else {
        bg
    }
}

/// The ink of the blocks of a glyph that come before block `(row, col)`, rows
/// from the top and, within a row, columns from the left. The glyph's top
/// left pixel is `(x, y)`.
pub open spec fn glyph_ink_upto(
    bits: Seq<u8>,
    x: int,
    y: int,
    cell_w: int,
    cell_h: int,
    fg: Rgb,
    bg: Option<Rgb>,
    row: int,
    col: int,
) -> spec_fn(int, int) -> Option<Rgb> {
    |px: int, py: int|
        {
            let sx = scale(cell_w);
            let sy = scale(cell_h);
            let r = (py - y) / sy;
            let c = (px - x) / sx;
            if x <= px < x + 8 * sx && y <= py < y + 8 * sy && (r < row || (r == row && c < col)) {
                bit_colour(bit_on(bits[r], c as u32), fg, bg)
            } else {
                None
            }
        }
}

/// The ink of a whole glyph: inside the 8 by 8 blocks, the colour of the bit
/// that the pixel's block stands for.
pub open spec fn glyph_ink(
    bits: Seq<u8>,
    x: int,
    y: int,
    cell_w: int,
    cell_h: int,
    fg: Rgb,
    bg: Option<Rgb>,
) -> spec_fn(int, int) -> Option<Rgb> {
    |px: int, py: int|
        {
            let sx = scale(cell_w);
            let sy = scale(cell_h);
            if x <= px < x + 8 * sx && y <= py < y + 8 * sy {
                bit_colour(bit_on(bits[(py - y) / sy], ((px - x) / sx) as u32), fg, bg)
            } else {
                None
            }
        }
}

impl SurfaceView {
    /// The surface after drawing the bitmap `bits` with its top left pixel at
    /// `(x, y)`.
    pub open spec fn draw_glyph(
        self,
        bits: Seq<u8>,
        x: int,
        y: int,
        cell_w: int,
        cell_h: int,
        fg: Rgb,
        bg: Option<Rgb>,
    ) -> SurfaceView {
        self.paint(glyph_ink(bits, x, y, cell_w, cell_h, fg, bg))
    }
}

/// A distance `a` lies in block `q` of side `d` exactly when `a / d` is `q`.
pub proof fn lemma_block_index(a: int, d: int, q: int)
    requires
        d >= 1,
    ensures
        (q * d <= a < (q + 1) * d) <==> a / d == q,
{
    lemma_fundamental_div_mod(a, d);
    lemma_mod_bound(a, d);
    if q * d <= a < (q + 1) * d {
        assert((q + 1) * d == q * d + d) by (nonlinear_arith);
        lemma_fundamental_div_mod_converse(a, d, q, a - q * d);
    } else if a / d == q {
        assert((q + 1) * d == q * d + d) by (nonlinear_arith);
        assert(d * q == q * d) by (nonlinear_arith);
    }
}

/// The blocks before block `(row, col + 1)` are the blocks before block
/// `(row, col)` and block `(row, col)` itself.
proof fn lemma_glyph_step(
    s: SurfaceView,
    bits: Seq<u8>,
    x: int,
    y: int,
    cell_w: int,
    cell_h: int,
    fg: Rgb,
    bg: Option<Rgb>,
    row: int,
    col: int,
)
    requires
        0 <= row < 8,
        0 <= col < 8,
    ensures
        bit_colour(bit_on(bits[row], col as u32), fg, bg) matches Some(c) ==> s.paint(
            glyph_ink_upto(bits, x, y, cell_w, cell_h, fg, bg, row, col),
        ).fill_rect(
            x + col * scale(cell_w),
            y + row * scale(cell_h),
            scale(cell_w),
            scale(cell_h),
            c,
        ) == s.paint(glyph_ink_upto(bits, x, y, cell_w, cell_h, fg, bg, row, col + 1)),
        bit_colour(bit_on(bits[row], col as u32), fg, bg) is None ==> s.paint(
            glyph_ink_upto(bits, x, y, cell_w, cell_h, fg, bg, row, col),
        ) == s.paint(glyph_ink_upto(bits, x, y, cell_w, cell_h, fg, bg, row, col + 1)),
{
    let sx = scale(cell_w);
    let sy = scale(cell_h);
    let done = glyph_ink_upto(bits, x, y, cell_w, cell_h, fg, bg, row, col);
    let next = glyph_ink_upto(bits, x, y, cell_w, cell_h, fg, bg, row, col + 1);
    let colour = bit_colour(bit_on(bits[row], col as u32), fg, bg);
    let block = match colour {
        Some(c) => rect(x + col * sx, y + row * sy, sx, sy, c),
        None => |px: int, py: int| None,
    };
    assert forall|px: int, py: int| #[trigger] over(block, done)(px, py) == next(px, py) by {
        lemma_block_index(px - x, sx, col);
        lemma_block_index(py - y, sy, row);
        assert((col + 1) * sx <= 8 * sx && 0 <= col * sx && (col + 1) * sx == col * sx + sx)
            by (nonlinear_arith)
            requires
                0 <= col < 8,
                sx >= 1,
        ;
        assert((row + 1) * sy <= 8 * sy && 0 <= row * sy && (row + 1) * sy == row * sy + sy)
            by (nonlinear_arith)
            requires
                0 <= row < 8,
                sy >= 1,
        ;
    }
    s.lemma_paint_same(over(block, done), next);
    s.lemma_paint_over(done, block);
    if colour is None {
        s.paint(done).lemma_paint_nothing(block);
    }
}

/// Past the last column of a row of blocks the next row begins.
proof fn lemma_glyph_row_done(
    s: SurfaceView,
    bits: Seq<u8>,
    x: int,
    y: int,
    cell_w: int,
    cell_h: int,
    fg: Rgb,
    bg: Option<Rgb>,
    row: int,
)
    ensures
        s.paint(glyph_ink_upto(bits, x, y, cell_w, cell_h, fg, bg, row, 8)) == s.paint(
            glyph_ink_upto(bits, x, y, cell_w, cell_h, fg, bg, row + 1, 0),
        ),
{
    let sx = scale(cell_w);
    let a = glyph_ink_upto(bits, x, y, cell_w, cell_h, fg, bg, row, 8);
    let b = glyph_ink_upto(bits, x, y, cell_w, cell_h, fg, bg, row + 1, 0);
    assert forall|px: int, py: int| #[trigger] a(px, py) == b(px, py) by {
        let c = (px - x) / sx;
        lemma_block_index(px - x, sx, c);
        if x <= px < x + 8 * sx {
            assert(0 <= c < 8) by (nonlinear_arith)
                requires
                    c * sx <= px - x < (c + 1) * sx,
                    0 <= px - x < 8 * sx,
                    sx >= 1,
            ;
        }
    }
    s.lemma_paint_same(a, b);
}

/// Before the first block nothing is drawn, and after the last row of blocks
/// the whole glyph is.
proof fn lemma_glyph_ends(
    s: SurfaceView,
    bits: Seq<u8>,
    x: int,
    y: int,
    cell_w: int,
    cell_h: int,
    fg: Rgb,
    bg: Option<Rgb>,
)
    ensures
        s.paint(glyph_ink_upto(bits, x, y, cell_w, cell_h, fg, bg, 0, 0)) == s,
        s.paint(glyph_ink_upto(bits, x, y, cell_w, cell_h, fg, bg, 8, 0)) == s.draw_glyph(
            bits,
            x,
            y,
            cell_w,
            cell_h,
            fg,
            bg,
        ),
{
    let sy = scale(cell_h);
    let none = glyph_ink_upto(bits, x, y, cell_w, cell_h, fg, bg, 0, 0);
    let all = glyph_ink_upto(bits, x, y, cell_w, cell_h, fg, bg, 8, 0);
    let whole = glyph_ink(bits, x, y, cell_w, cell_h, fg, bg);
    assert forall|px: int, py: int| #[trigger] none(px, py) is None by {
        let r = (py - y) / sy;
        lemma_block_index(py - y, sy, r);
        if y <= py < y + 8 * sy {
            assert(0 <= r) by (nonlinear_arith)
                requires
                    py - y < (r + 1) * sy,
                    0 <= py - y,
                    sy >= 1,
            ;
        }
    }
    assert forall|px: int, py: int| #[trigger] all(px, py) == whole(px, py) by {
        let r = (py - y) / sy;
        lemma_block_index(py - y, sy, r);
        if y <= py < y + 8 * sy {
            assert(0 <= r < 8) by (nonlinear_arith)
                requires
                    r * sy <= py - y < (r + 1) * sy,
                    0 <= py - y < 8 * sy,
                    sy >= 1,
            ;
        }
    }
    s.lemma_paint_nothing(none);
    s.lemma_paint_same(all, whole);
}

/// Draws the bitmap `rows` with its top left pixel at `(x, y)`, each bit as
/// a block of the scale that the cell size gives. What falls outside the
/// surface is left out.
pub fn draw_glyph_rows(
    surface: &mut Surface,
    rows: &[u8; 8],
    x: u32,
    y: u32,
    cell_w: u32,
    cell_h: u32,
    fg: Rgb,
    bg: Option<Rgb>,
)
    requires
        old(surface).wf(),
    ensures
        final(surface)@ == old(surface)@.draw_glyph(
            rows@,
            x as int,
            y as int,
            cell_w as int,
            cell_h as int,
            fg,
            bg,
        ),
        final(surface).wf(),
{
    let ghost before = surface@;
    let sx: u32 = if cell_w / 8 >= 1 {
        cell_w / 8
    } else {
        1
    };
    let sy: u32 = if cell_h / 8 >= 1 {
        cell_h / 8
    } else {
        1
    };
    proof {
        lemma_glyph_ends(before, rows@, x as int, y as int, cell_w as int, cell_h as int, fg, bg);
    }
    let mut row: u32 = 0;
    while row < 8
        invariant
            row <= 8,
            surface.wf(),
            sx == scale(cell_w as int),
            sy == scale(cell_h as int),
            surface@ == before.paint(
                glyph_ink_upto(
                    rows@,
                    x as int,
                    y as int,
                    cell_w as int,
                    cell_h as int,
                    fg,
                    bg,
                    row as int,
                    0,
                ),
            ),
        decreases 8 - row,
    {
        let bits = rows[row as usize];
        let mut col: u32 = 0;
        while col < 8
            invariant
                col <= 8,
                row < 8,
                surface.wf(),
                sx == scale(cell_w as int),
                sy == scale(cell_h as int),
                bits == rows@[row as int],
                surface@ == before.paint(
                    glyph_ink_upto(
                        rows@,
                        x as int,
                        y as int,
                        cell_w as int,
                        cell_h as int,
                        fg,
                        bg,
                        row as int,
                        col as int,
                    ),
                ),
            decreases 8 - col,
        {
            let on = (bits >> col) & 1 != 0;
            assert(col * sx <= 8 * u32::MAX && row * sy <= 8 * u32::MAX) by (nonlinear_arith)
                requires
                    col < 8,
                    row < 8,
                    sx <= u32::MAX,
                    sy <= u32::MAX,
            ;
            let px: u64 = x as u64 + col as u64 * sx as u64;
            let py: u64 = y as u64 + row as u64 * sy as u64;
            let colour = if on {
                Some(fg)
            } else {
                bg
            };
            proof {
                lemma_glyph_step(
                    before,
                    rows@,
                    x as int,
                    y as int,
                    cell_w as int,
                    cell_h as int,
                    fg,
                    bg,
                    row as int,
                    col as int,
                );
            }
            match colour {
                Some(c) => {
                    if px <= u32::MAX as u64 && py <= u32::MAX as u64 {
                        surface.fill_rect(px as u32, py as u32, sx, sy, c);
                    } else {
                        proof {
                            surface@.lemma_paint_nothing(
                                rect(px as int, py as int, sx as int, sy as int, c),
                            );
                        }
                    }
                },
                None => {},
            }
            col += 1;
        }
        proof {
            lemma_glyph_row_done(
                before,
                rows@,
                x as int,
                y as int,
                cell_w as int,
                cell_h as int,
                fg,
                bg,
                row as int,
            );
        }
        row += 1;
    }
}

/// Draws the glyph of character `ch` with its top left pixel at `(x, y)`.
pub fn draw_glyph(
    surface: &mut Surface,
    ch: char,
    x: u32,
    y: u32,
    cell_w: u32,
    cell_h: u32,
    fg: Rgb,
    bg: Option<Rgb>,
)
    requires
        old(surface).wf(),
    ensures
        final(surface)@ == old(surface)@.draw_glyph(
            glyph_bits(ch),
            x as int,
            y as int,
            cell_w as int,
            cell_h as int,
            fg,
            bg,
        ),
        final(surface).wf(),
{
    let rows = glyph_rows(ch);
    draw_glyph_rows(surface, &rows, x, y, cell_w, cell_h, fg, bg);
}

} // verus!
