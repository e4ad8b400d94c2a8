//! The console as a value, and what each operation makes of it.
//!
//! A console is either unbound or bound to a surface. Unbound, every
//! operation that would touch the surface leaves the console as it is. Bound,
//! the surface is divided into a grid of `cols` by `rows` cells, and a cursor
//! says in which cell the next glyph goes.

use vstd::prelude::*;
use crate::canvas::SurfaceView;
use crate::color::Rgb;
use crate::font::glyph_bits;
use crate::glyph::glyph_ink;

verus! {

/// The characters that a sequence of bytes is written as: for each byte the
/// character with that code.
pub open spec fn byte_chars(text: Seq<u8>) -> Seq<char> {
    text.map_values(|b: u8| b as char)
}

/// Whether a character is drawn as a glyph: every character but the line
/// feed and the carriage return.
pub open spec fn printable(ch: char) -> bool {
    ch != '\n' && ch != '\r'
}

/// The state of a console: the bound surface if there is one, the colours,
/// the cursor in cell coordinates, and the size of a cell in pixels.
pub struct ConsoleView {
    pub surface: Option<SurfaceView>,
    pub fg: Rgb,
    /// `None` is the transparent background: clear bits are not drawn.
    pub bg: Option<Rgb>,
    pub cx: nat,
    pub cy: nat,
    pub cell_w: nat,
    pub cell_h: nat,
}

impl ConsoleView {
    /// A cell is at least one pixel wide and high, and a bound surface is
    /// well-formed.
    pub open spec fn wf(self) -> bool {
        &&& self.cell_w >= 1
        &&& self.cell_h >= 1
        &&& self.surface matches Some(s) ==> s.wf()
    }

    /// Whether a surface is bound.
    pub open spec fn is_init(self) -> bool {
        self.surface is Some
    }

    /// The number of whole cells in a row of the grid; none while unbound.
    pub open spec fn cols(self) -> nat {
        match self.surface {
            Some(s) => s.info.width as nat / self.cell_w,
            None => 0,
        }
    }

    /// The number of whole cells in a column of the grid; none while unbound.
    pub open spec fn rows(self) -> nat {
        match self.surface {
            Some(s) => s.info.height as nat / self.cell_h,
            None => 0,
        }
    }

    /// The row that the cursor is pinned to when it would leave the grid: the
    /// last one, or row 0 of a grid without rows.
    pub open spec fn last_row(self) -> nat {
        if self.rows() >= 1 {
            (self.rows() - 1) as nat
        } else {
            0
        }
    }

    /// The colour that rows laid bare by scrolling are filled with: the
    /// background, or black where the background is transparent.
    pub open spec fn fill_colour(self) -> Rgb {
        match self.bg {
            Some(c) => c,
            None => Rgb::black(),
        }
    }

    /// The number of pixel rows that scrolling by `lines` cell rows moves the
    /// picture: `lines` cells, but no more than the height of `s`.
    pub open spec fn scroll_rows(self, s: SurfaceView, lines: nat) -> int {
        if lines * self.cell_h <= s.info.height {
            (lines * self.cell_h) as int
        } else {
            s.info.height as int
        }
    }

    /// The console after scrolling the picture up by `lines` cell rows. The
    /// cursor stays.
    pub open spec fn scroll_up(self, lines: nat) -> ConsoleView {
        match self.surface {
            Some(s) => ConsoleView {
                surface: Some(s.scroll_up(self.scroll_rows(s, lines), self.fill_colour())),
                ..self
            },
            None => self,
        }
    }

    /// The console after a line break: the cursor goes to column 0 of the
    /// next row. Where there is no next row, the picture scrolls up by one
    /// cell row and the cursor stays in the last row.
    pub open spec fn newline(self) -> ConsoleView {
        if !self.is_init() {
            self
        } else if self.cy + 1 >= self.rows() {
            ConsoleView { cx: 0, cy: self.last_row(), ..self.scroll_up(1) }
        } else {
            ConsoleView { cx: 0, cy: self.cy + 1, ..self }
        }
    }

    /// The console after a carriage return: the cursor goes to column 0 of
    /// its row.
    pub open spec fn carriage_return(self) -> ConsoleView {
        if !self.is_init() {
            self
        } else {
            ConsoleView { cx: 0, ..self }
        }
    }

    /// The console as it is when a glyph is about to be drawn: after the line
    /// break that wraps a cursor standing at or behind the end of its row.
    pub open spec fn wrapped(self) -> ConsoleView {
        if self.is_init() && self.cx >= self.cols() {
            self.newline()
        } else {
            self
        }
    }

    /// The cell in which the next glyph is drawn, as column and row.
    pub open spec fn glyph_cell(self) -> (nat, nat) {
        (self.wrapped().cx, self.wrapped().cy)
    }

    /// Whether writing `ch` breaks the line: a line feed does, and so does a
    /// glyph that finds the cursor at or behind the end of its row.
    pub open spec fn breaks_line(self, ch: char) -> bool {
        self.is_init() && (ch == '\n' || (ch != '\r' && self.cx >= self.cols()))
    }

    /// The console after drawing the bitmap `bits` in the cursor's cell,
    /// wrapping first if need be, and moving the cursor one column on.
    pub open spec fn put_glyph(self, bits: Seq<u8>) -> ConsoleView {
        match self.wrapped().surface {
            Some(s) => {
                let at = self.wrapped();
                ConsoleView {
                    surface: Some(
                        s.draw_glyph(
                            bits,
                            (at.cx * at.cell_w) as int,
                            (at.cy * at.cell_h) as int,
                            at.cell_w as int,
                            at.cell_h as int,
                            at.fg,
                            at.bg,
                        ),
                    ),
                    cx: at.cx + 1,
                    ..at
                }
            },
            None => self,
        }
    }

    /// The console after writing the character `ch`: a line feed breaks the
    /// line, a carriage return goes back to column 0, and every other
    /// character is drawn as its glyph.
    pub open spec fn put_char(self, ch: char) -> ConsoleView {
        if ch == '\n' {
            self.newline()
        } else if ch == '\r' {
            self.carriage_return()
        } else {
            self.put_glyph(glyph_bits(ch))
        }
    }

    /// The console after writing the characters of `chars` in order.
    pub open spec fn put_chars(self, chars: Seq<char>) -> ConsoleView
        decreases chars.len(),
    {
        if chars.len() == 0 {
            self
        } else {
            self.put_chars(chars.drop_last()).put_char(chars.last())
        }
    }

    /// Whether writing `chars` breaks a line at some point.
    pub open spec fn breaks_any(self, chars: Seq<char>) -> bool
        decreases chars.len(),
    {
        if chars.len() == 0 {
            false
        } else {
            self.breaks_any(chars.drop_last()) || self.put_chars(chars.drop_last()).breaks_line(
                chars.last(),
            )
        }
    }

    /// The console after writing the bytes of `text` in order, each byte as
    /// the character with that code.
    pub open spec fn write(self, text: Seq<u8>) -> ConsoleView {
        self.put_chars(byte_chars(text))
    }

    /// The console after clearing: every visible pixel is `c` and the cursor
    /// is at the origin.
    pub open spec fn clear(self, c: Rgb) -> ConsoleView {
        match self.surface {
            Some(s) => ConsoleView { surface: Some(s.clear(c)), cx: 0, cy: 0, ..self },
            None => self,
        }
    }

    /// The console after binding `surface`: the surface is cleared to black
    /// and the cursor is at the origin.
    pub open spec fn init(self, surface: SurfaceView) -> ConsoleView {
        (ConsoleView { surface: Some(surface), ..self }).clear(Rgb::black())
    }

    /// Writing to an unbound console changes nothing.
    pub proof fn lemma_put_chars_unbound(self, chars: Seq<char>)
        requires
            !self.is_init(),
        ensures
            self.put_chars(chars) == self,
        decreases chars.len(),
    {
        if chars.len() > 0 {
            self.lemma_put_chars_unbound(chars.drop_last());
        }
    }

    /// Writing one more byte is writing its character after the others.
    pub proof fn lemma_write_step(self, text: Seq<u8>, n: int)
        requires
            0 <= n < text.len(),
        ensures
            self.write(text.take(n + 1)) == self.write(text.take(n)).put_char(text[n] as char),
    {
        assert(byte_chars(text.take(n + 1)).drop_last() =~= byte_chars(text.take(n)));
    }

    /// Scrolling keeps the console bound and well-formed, and changes
    /// nothing but the picture.
    pub proof fn lemma_scroll_up_frame(self, lines: nat)
        ensures
            self.scroll_up(lines).is_init() == self.is_init(),
            self.scroll_up(lines).cols() == self.cols(),
            self.scroll_up(lines).rows() == self.rows(),
            self.wf() ==> self.scroll_up(lines).wf(),
            self.scroll_up(lines) == (ConsoleView {
                surface: self.scroll_up(lines).surface,
                ..self
            }),
    {
        if let Some(s) = self.surface {
            s.lemma_scroll_up_frame(self.scroll_rows(s, lines), self.fill_colour());
        }
    }

    /// A line break keeps the console bound and well-formed and the grid as
    /// it is, and leaves the cursor in column 0.
    pub proof fn lemma_newline_frame(self)
        ensures
            self.newline().is_init() == self.is_init(),
            self.newline().cols() == self.cols(),
            self.newline().rows() == self.rows(),
            self.wf() ==> self.newline().wf(),
            self.is_init() ==> self.newline().cx == 0,
            self.newline().cell_w == self.cell_w,
            self.newline().cell_h == self.cell_h,
            self.newline().fg == self.fg,
            self.newline().bg == self.bg,
    {
        self.lemma_scroll_up_frame(1);
    }

    /// Writing a character keeps the console bound and well-formed and the
    /// grid as it is.
    pub proof fn lemma_put_char_frame(self, ch: char)
        ensures
            self.put_char(ch).is_init() == self.is_init(),
            self.put_char(ch).cols() == self.cols(),
            self.put_char(ch).rows() == self.rows(),
            self.wf() ==> self.put_char(ch).wf(),
    {
        self.lemma_newline_frame();
        if printable(ch) {
            let at = self.wrapped();
            if let Some(s) = at.surface {
                s.lemma_paint_frame(
                    glyph_ink(
                        glyph_bits(ch),
                        (at.cx * at.cell_w) as int,
                        (at.cy * at.cell_h) as int,
                        at.cell_w as int,
                        at.cell_h as int,
                        at.fg,
                        at.bg,
                    ),
                );
            }
        }
    }

    /// Writing characters keeps the console bound and well-formed and the
    /// grid as it is.
    pub proof fn lemma_put_chars_frame(self, chars: Seq<char>)
        ensures
            self.put_chars(chars).is_init() == self.is_init(),
            self.put_chars(chars).cols() == self.cols(),
            self.put_chars(chars).rows() == self.rows(),
            self.wf() ==> self.put_chars(chars).wf(),
        decreases chars.len(),
    {
        if chars.len() > 0 {
            self.lemma_put_chars_frame(chars.drop_last());
            self.put_chars(chars.drop_last()).lemma_put_char_frame(chars.last());
        }
    }
}

} // verus!
