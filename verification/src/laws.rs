//! What holds of every surface and of every console.
//!
//! Each function here is a theorem about the models in `canvas`, `glyph` and
//! `console`, which are the models that the contracts of the executable
//! functions are stated over.

use vstd::prelude::*;
use vstd::arithmetic::div_mod::lemma_fundamental_div_mod;
use vstd::arithmetic::div_mod::lemma_mod_bound;
use crate::canvas::rect;
use crate::canvas::SurfaceView;
use crate::color::Rgb;
use crate::console::printable;
use crate::console::ConsoleView;
use crate::font::glyph_bits;
use crate::glyph::bit_colour;
use crate::glyph::bit_on;
use crate::glyph::glyph_ink;
use crate::glyph::lemma_block_index;
use crate::glyph::scale;

verus! {

/// Every row of the bitmap has all its eight bits set.
pub open spec fn all_ones(bits: Seq<u8>) -> bool {
    forall|r: int| 0 <= r < 8 ==> #[trigger] bits[r] == 0xFFu8
}

/// Every row of the bitmap has all its eight bits clear.
pub open spec fn all_zeros(bits: Seq<u8>) -> bool {
    forall|r: int| 0 <= r < 8 ==> #[trigger] bits[r] == 0u8
}

/// Whether pixel `(px, py)` lies in the 8 by 8 blocks of a glyph whose top
/// left pixel is `(x, y)`.
pub open spec fn in_glyph(x: int, y: int, cell_w: int, cell_h: int, px: int, py: int) -> bool {
    x <= px < x + 8 * scale(cell_w) && y <= py < y + 8 * scale(cell_h)
}

/// After clearing to colour `c`, every visible pixel reads back as `c` in the
/// layout of the surface: the channels in the order of the format, or the
/// grey level on a single-channel surface.
pub proof fn law_clear_reads_back(s: SurfaceView, c: Rgb, x: int, y: int)
    requires
        s.wf(),
        s.info.contains(x, y),
    ensures
        s.clear(c).pixel(x, y) == s.info.encode(c),
        s.clear(c).wf(),
{
    s.lemma_paint_pixel(rect(0, 0, s.info.width as int, s.info.height as int, c), x, y);
}

/// After filling a rectangle, a visible pixel inside it reads back as the
/// fill colour and a visible pixel outside it as what it held before.
pub proof fn law_fill_rect_pixel(
    s: SurfaceView,
    x: int,
    y: int,
    w: int,
    h: int,
    c: Rgb,
    px: int,
    py: int,
)
    requires
        s.wf(),
        s.info.contains(px, py),
    ensures
        s.fill_rect(x, y, w, h, c).pixel(px, py) == if x <= px < x + w && y <= py < y + h {
            s.info.encode(c)
        } else {
            s.pixel(px, py)
        },
{
    s.lemma_paint_pixel(rect(x, y, w, h, c), px, py);
}

/// After drawing a glyph, a visible pixel inside its blocks reads back as the
/// foreground colour where its bit is set and as the background colour where
/// its bit is clear, and holds what it held before where the bit is clear and
/// the background transparent. A visible pixel outside the blocks holds what
/// it held before.
pub proof fn law_glyph_pixel(
    s: SurfaceView,
    bits: Seq<u8>,
    x: int,
    y: int,
    cell_w: int,
    cell_h: int,
    fg: Rgb,
    bg: Option<Rgb>,
    px: int,
    py: int,
)
    requires
        s.wf(),
        s.info.contains(px, py),
    ensures
        s.draw_glyph(bits, x, y, cell_w, cell_h, fg, bg).pixel(px, py) == if in_glyph(
            x,
            y,
            cell_w,
            cell_h,
            px,
            py,
        ) {
            match bit_colour(
                bit_on(bits[(py - y) / scale(cell_h)], ((px - x) / scale(cell_w)) as u32),
                fg,
                bg,
            ) {
                Some(c) => s.info.encode(c),
                None => s.pixel(px, py),
            }
        } else {
            s.pixel(px, py)
        },
{
    s.lemma_paint_pixel(glyph_ink(bits, x, y, cell_w, cell_h, fg, bg), px, py);
}

/// A pixel inside the blocks of a glyph belongs to one of the eight rows and
/// one of the eight columns of blocks.
pub proof fn lemma_glyph_block_range(x: int, y: int, cell_w: int, cell_h: int, px: int, py: int)
    requires
        in_glyph(x, y, cell_w, cell_h, px, py),
    ensures
        0 <= (px - x) / scale(cell_w) < 8,
        0 <= (py - y) / scale(cell_h) < 8,
{
    let sx = scale(cell_w);
    let sy = scale(cell_h);
    let c = (px - x) / sx;
    let r = (py - y) / sy;
    lemma_block_index(px - x, sx, c);
    lemma_block_index(py - y, sy, r);
    assert(0 <= c < 8) by (nonlinear_arith)
        requires
            c * sx <= px - x < (c + 1) * sx,
            0 <= px - x < 8 * sx,
            sx >= 1,
    ;
    assert(0 <= r < 8) by (nonlinear_arith)
        requires
            r * sy <= py - y < (r + 1) * sy,
            0 <= py - y < 8 * sy,
            sy >= 1,
    ;
}

/// Every bit of a row of eight set bits is set, and every bit of a row of
/// eight clear bits is clear.
pub proof fn lemma_full_and_empty_rows(col: u32)
    requires
        col < 8,
    ensures
        bit_on(0xFFu8, col),
        !bit_on(0u8, col),
{
    assert((0xFFu8 >> col) & 1 != 0) by (bit_vector)
        requires
            col < 8,
    ;
    assert((0u8 >> col) & 1 == 0) by (bit_vector);
}

/// After drawing a bitmap of all ones, every visible pixel inside the blocks
/// of the glyph reads back as the foreground colour.
pub proof fn law_solid_glyph_is_foreground(
    s: SurfaceView,
    bits: Seq<u8>,
    x: int,
    y: int,
    cell_w: int,
    cell_h: int,
    fg: Rgb,
    bg: Option<Rgb>,
    px: int,
    py: int,
)
    requires
        s.wf(),
        s.info.contains(px, py),
        all_ones(bits),
        in_glyph(x, y, cell_w, cell_h, px, py),
    ensures
        s.draw_glyph(bits, x, y, cell_w, cell_h, fg, bg).pixel(px, py) == s.info.encode(fg),
{
    law_glyph_pixel(s, bits, x, y, cell_w, cell_h, fg, bg, px, py);
    lemma_glyph_block_range(x, y, cell_w, cell_h, px, py);
    lemma_full_and_empty_rows(((px - x) / scale(cell_w)) as u32);
}

/// After drawing a bitmap of all zeros, every visible pixel inside the blocks
/// of the glyph reads back as the background colour, or, where the background
/// is transparent, holds what it held before.
pub proof fn law_blank_glyph_is_background(
    s: SurfaceView,
    bits: Seq<u8>,
    x: int,
    y: int,
    cell_w: int,
    cell_h: int,
    fg: Rgb,
    bg: Option<Rgb>,
    px: int,
    py: int,
)
    requires
        s.wf(),
        s.info.contains(px, py),
        all_zeros(bits),
        in_glyph(x, y, cell_w, cell_h, px, py),
    ensures
        s.draw_glyph(bits, x, y, cell_w, cell_h, fg, bg).pixel(px, py) == match bg {
            Some(c) => s.info.encode(c),
            None => s.pixel(px, py),
        },
{
    law_glyph_pixel(s, bits, x, y, cell_w, cell_h, fg, bg, px, py);
    lemma_glyph_block_range(x, y, cell_w, cell_h, px, py);
    lemma_full_and_empty_rows(((px - x) / scale(cell_w)) as u32);
}

/// After scrolling up by `dy` pixel rows, a visible pixel above the last `dy`
/// rows holds what the pixel `dy` rows below it held before, and a visible
/// pixel in the last `dy` rows reads back as the fill colour.
pub proof fn law_scroll_up_pixel(s: SurfaceView, dy: int, bg: Rgb, x: int, y: int)
    requires
        s.wf(),
        0 < dy <= s.info.height,
        s.info.contains(x, y),
    ensures
        s.scroll_up(dy, bg).pixel(x, y) == if y < s.info.height - dy {
            s.pixel(x, y + dy)
        } else {
            s.info.encode(bg)
        },
        s.scroll_up(dy, bg).wf(),
{
    let info = s.info;
    let shifted = s.shift_up(dy);
    let fill = rect(0, info.height - dy, info.width as int, dy, bg);
    shifted.lemma_paint_pixel(fill, x, y);
    if y < info.height - dy {
        let n = info.pixel_len();
        let off = info.offset(x, y);
        let moved = (info.height - dy) * info.row_len();
        let step = dy * info.row_len();
        info.lemma_pixel_len_bound();
        info.lemma_offset_in_rows(x, y);
        info.lemma_offset_rows_down(x, y, dy);
        info.lemma_offset_in_rows(x, y + dy);
        assert(off + info.bytes_per_pixel <= moved) by (nonlinear_arith)
            requires
                off == (y * info.stride + x) * info.bytes_per_pixel,
                moved == (info.height - dy) * (info.stride * info.bytes_per_pixel),
                0 <= x < info.stride,
                0 <= y < info.height - dy,
                0 <= info.bytes_per_pixel,
        ;
        assert(shifted.pixel(x, y) =~= s.pixel(x, y + dy));
    }
}

/// Where the cursor is after one character. The cursor row is in the grid
/// exactly when the grid has a row and either the row was in the grid before
/// or the character broke the line. The cursor column is in the grid exactly
/// when the grid has a column and the character was not drawn in the last
/// column of its row.
pub proof fn law_put_char_cursor(c: ConsoleView, ch: char)
    requires
        c.wf(),
        c.is_init(),
    ensures
        c.put_char(ch).wf(),
        c.put_char(ch).is_init(),
        c.put_char(ch).cols() == c.cols(),
        c.put_char(ch).rows() == c.rows(),
        c.put_char(ch).cy < c.rows() <==> c.rows() >= 1 && (c.cy < c.rows() || c.breaks_line(ch)),
        c.put_char(ch).cx < c.cols() <==> c.cols() >= 1 && (!printable(ch) || c.wrapped().cx + 1
            < c.cols()),
        c.put_char(ch).cx <= c.cols() <==> c.cols() >= 1 || !printable(ch),
{
    c.lemma_put_char_frame(ch);
    c.lemma_newline_frame();
}

/// A cursor that stands in a row of the grid, and no further right than
/// just behind the last column, still does so after any sequence of
/// characters.
pub proof fn law_cursor_stays_by_grid(c: ConsoleView, chars: Seq<char>)
    requires
        c.wf(),
        c.is_init(),
        c.cols() >= 1,
        c.cx <= c.cols(),
        c.cy < c.rows(),
    ensures
        c.put_chars(chars).cx <= c.cols(),
        c.put_chars(chars).cy < c.rows(),
    decreases chars.len(),
{
    if chars.len() > 0 {
        let before = c.put_chars(chars.drop_last());
        law_cursor_stays_by_grid(c, chars.drop_last());
        c.lemma_put_chars_frame(chars.drop_last());
        law_put_char_cursor(before, chars.last());
    }
}

/// After a sequence of at least one character the cursor is in the grid,
/// `cx < cols` and `cy < rows`, exactly when the grid has a column and a row,
/// the last character was not drawn in the last column of its row, and the
/// cursor row was in the grid to begin with or a line was broken on the way.
pub proof fn law_cursor_in_grid(c: ConsoleView, chars: Seq<char>)
    requires
        c.wf(),
        c.is_init(),
        chars.len() >= 1,
    ensures
        (c.put_chars(chars).cx < c.cols() && c.put_chars(chars).cy < c.rows()) <==> {
            &&& c.cols() >= 1
            &&& c.rows() >= 1
            &&& printable(chars.last()) ==> c.put_chars(chars.drop_last()).wrapped().cx + 1
                < c.cols()
            &&& c.cy < c.rows() || c.breaks_any(chars)
        },
{
    let before = c.put_chars(chars.drop_last());
    lemma_cursor_row_in_grid(c, chars);
    c.lemma_put_chars_frame(chars.drop_last());
    law_put_char_cursor(before, chars.last());
}

/// After a sequence of characters the cursor row is in the grid exactly when
/// the grid has a row and the cursor row was in the grid to begin with or a
/// line was broken on the way.
pub proof fn lemma_cursor_row_in_grid(c: ConsoleView, chars: Seq<char>)
    requires
        c.wf(),
        c.is_init(),
    ensures
        c.put_chars(chars).cy < c.rows() <==> c.rows() >= 1 && (c.cy < c.rows() || c.breaks_any(
            chars,
        )),
    decreases chars.len(),
{
    if chars.len() > 0 {
        let before = c.put_chars(chars.drop_last());
        lemma_cursor_row_in_grid(c, chars.drop_last());
        c.lemma_put_chars_frame(chars.drop_last());
        law_put_char_cursor(before, chars.last());
    }
}

/// Glyphs that fit in the rest of the row are drawn without a line break:
/// the cursor moves right by their number and stays in its row.
pub proof fn lemma_glyphs_fill_row(c: ConsoleView, chars: Seq<char>)
    requires
        c.wf(),
        c.is_init(),
        c.cx + chars.len() <= c.cols(),
        forall|i: int| 0 <= i < chars.len() ==> printable(#[trigger] chars[i]),
    ensures
        c.put_chars(chars).cx == c.cx + chars.len(),
        c.put_chars(chars).cy == c.cy,
    decreases chars.len(),
{
    if chars.len() > 0 {
        lemma_glyphs_fill_row(c, chars.drop_last());
        c.lemma_put_chars_frame(chars.drop_last());
    }
}

/// A glyph written behind a full row lands where it would land after an
/// explicit line feed: once the glyphs before it have filled the row to its
/// last column, writing the character alone and writing a line feed and then
/// the character give the same console, with the glyph in column 0 of the
/// same row.
pub proof fn law_full_row_wraps_like_line_feed(c: ConsoleView, chars: Seq<char>, extra: char)
    requires
        c.wf(),
        c.is_init(),
        c.cols() >= 1,
        c.cx + chars.len() == c.cols(),
        forall|i: int| 0 <= i < chars.len() ==> printable(#[trigger] chars[i]),
        printable(extra),
    ensures
        c.put_chars(chars).cx == c.cols(),
        c.put_chars(chars).cy == c.cy,
        c.put_chars(chars).glyph_cell() == c.put_chars(chars).put_char('\n').glyph_cell(),
        c.put_chars(chars).glyph_cell().0 == 0,
        c.put_chars(chars).put_char(extra) == c.put_chars(chars).put_char('\n').put_char(extra),
{
    let full = c.put_chars(chars);
    lemma_glyphs_fill_row(c, chars);
    c.lemma_put_chars_frame(chars);
    full.lemma_newline_frame();
}

/// Scrolling by one line moves every cell row of the grid but the first up
/// by one: a visible pixel above the last cell row holds what the pixel one
/// cell below it held before. Where the rows of the grid take up the whole
/// height, the last cell row is filled with the background colour, or with
/// black where the background is transparent: a visible pixel in it reads
/// back as the fill colour. The cursor stays.
pub proof fn law_scroll_one_line(c: ConsoleView, x: int, y: int)
    requires
        c.wf(),
        c.is_init(),
        c.rows() >= 1,
        c.surface.unwrap().info.contains(x, y),
    ensures
        y < (c.rows() - 1) * c.cell_h ==> c.scroll_up(1).surface.unwrap().pixel(x, y)
            == c.surface.unwrap().pixel(x, y + c.cell_h),
        c.surface.unwrap().info.height == c.rows() * c.cell_h && (c.rows() - 1) * c.cell_h <= y
            ==> c.scroll_up(1).surface.unwrap().pixel(x, y) == c.surface.unwrap().info.encode(
            c.fill_colour(),
        ),
        c.scroll_up(1).cx == c.cx,
        c.scroll_up(1).cy == c.cy,
{
    let s = c.surface.unwrap();
    let rows = c.rows() as int;
    let height = s.info.height as int;
    let cell_h = c.cell_h as int;
    assert((rows - 1) * cell_h == rows * cell_h - cell_h) by (nonlinear_arith);
    assert(rows * cell_h <= height) by {
        lemma_fundamental_div_mod(height, cell_h);
        lemma_mod_bound(height, cell_h);
        assert(cell_h * (height / cell_h) == (height / cell_h) * cell_h) by (nonlinear_arith);
    }
    assert(cell_h <= rows * cell_h) by (nonlinear_arith)
        requires
            rows >= 1,
            cell_h >= 0,
    ;
    law_scroll_up_pixel(s, cell_h, c.fill_colour(), x, y);
}

/// After clearing a console to colour `c`, every visible pixel reads back as
/// `c` in the layout of the surface, and the cursor is at the origin.
pub proof fn law_console_clear(c: ConsoleView, colour: Rgb, x: int, y: int)
    requires
        c.wf(),
        c.is_init(),
        c.surface.unwrap().info.contains(x, y),
    ensures
        c.clear(colour).surface.unwrap().pixel(x, y) == c.surface.unwrap().info.encode(colour),
        c.clear(colour).cx == 0,
        c.clear(colour).cy == 0,
{
    law_clear_reads_back(c.surface.unwrap(), colour, x, y);
}

/// With cells whose sides are multiples of eight, a glyph covers its cell:
/// after writing a bitmap of all ones, every visible pixel of the glyph's
/// cell reads back as the foreground colour; after writing a bitmap of all
/// zeros, it reads back as the background colour, or, where the background
/// is transparent, holds what it held when the glyph was about to be drawn.
pub proof fn law_glyph_fills_cell(c: ConsoleView, bits: Seq<u8>, px: int, py: int)
    requires
        c.wf(),
        c.is_init(),
        c.cell_w % 8 == 0,
        c.cell_h % 8 == 0,
        c.surface.unwrap().info.contains(px, py),
        c.glyph_cell().0 * c.cell_w <= px < (c.glyph_cell().0 + 1) * c.cell_w,
        c.glyph_cell().1 * c.cell_h <= py < (c.glyph_cell().1 + 1) * c.cell_h,
    ensures
        all_ones(bits) ==> c.put_glyph(bits).surface.unwrap().pixel(px, py)
            == c.surface.unwrap().info.encode(c.fg),
        all_zeros(bits) ==> c.put_glyph(bits).surface.unwrap().pixel(px, py) == match c.bg {
            Some(b) => c.surface.unwrap().info.encode(b),
            None => c.wrapped().surface.unwrap().pixel(px, py),
        },
{
    let at = c.wrapped();
    c.lemma_newline_frame();
    let s = at.surface.unwrap();
    let x = (at.cx * at.cell_w) as int;
    let y = (at.cy * at.cell_h) as int;
    let w = at.cell_w as int;
    let h = at.cell_h as int;
    assert((at.cx + 1) * at.cell_w == at.cx * at.cell_w + at.cell_w) by (nonlinear_arith);
    assert((at.cy + 1) * at.cell_h == at.cy * at.cell_h + at.cell_h) by (nonlinear_arith);
    assert(8 * scale(w) == w && 8 * scale(h) == h);
    if all_ones(bits) {
        law_solid_glyph_is_foreground(s, bits, x, y, w, h, at.fg, at.bg, px, py);
    }
    if all_zeros(bits) {
        law_blank_glyph_is_background(s, bits, x, y, w, h, at.fg, at.bg, px, py);
    }
}

/// The same of a character: with cells whose sides are multiples of eight,
/// writing a character whose bitmap is all ones leaves every visible pixel
/// of its cell in the foreground colour, and writing one whose bitmap is all
/// zeros leaves it in the background colour, or, where the background is
/// transparent, as it was when the glyph was about to be drawn.
pub proof fn law_char_fills_cell(c: ConsoleView, ch: char, px: int, py: int)
    requires
        c.wf(),
        c.is_init(),
        printable(ch),
        c.cell_w % 8 == 0,
        c.cell_h % 8 == 0,
        c.surface.unwrap().info.contains(px, py),
        c.glyph_cell().0 * c.cell_w <= px < (c.glyph_cell().0 + 1) * c.cell_w,
        c.glyph_cell().1 * c.cell_h <= py < (c.glyph_cell().1 + 1) * c.cell_h,
    ensures
        all_ones(glyph_bits(ch)) ==> c.put_char(ch).surface.unwrap().pixel(px, py)
            == c.surface.unwrap().info.encode(c.fg),
        all_zeros(glyph_bits(ch)) ==> c.put_char(ch).surface.unwrap().pixel(px, py) == match c.bg {
            Some(b) => c.surface.unwrap().info.encode(b),
            None => c.wrapped().surface.unwrap().pixel(px, py),
        },
{
    law_glyph_fills_cell(c, glyph_bits(ch), px, py);
}

} // verus!
