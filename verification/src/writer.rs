//! The text console: a cursor and colours over a surface that it owns.

use vstd::prelude::*;
use vstd::string::StringSliceAdditionalSpecFns;
use crate::color::Rgb;
use crate::console::byte_chars;
use crate::console::ConsoleView;
use crate::font::glyph_rows;
use crate::glyph::draw_glyph_rows;
use crate::glyph::glyph_ink;
use crate::surface::clear_screen;
use crate::surface::Surface;

verus! {

/// The product of two 32-bit numbers, which 64 bits always hold.
fn product(a: u32, b: u32) -> (p: u64)
    ensures
        p == a * b,
{
    assert(a * b <= u32::MAX * u32::MAX) by (nonlinear_arith)
        requires
            a <= u32::MAX,
            b <= u32::MAX,
    ;
    a as u64 * b as u64
}

/// A text console. It starts unbound, and is bound to a surface by `init`.
pub struct TextWriter {
    surface: Option<Surface>,
    fg: Rgb,
    bg: Option<Rgb>,
    cx: u32,
    cy: u32,
    cell_w: u32,
    cell_h: u32,
}

impl View for TextWriter {
    type V = ConsoleView;

    closed spec fn view(&self) -> ConsoleView {
        ConsoleView {
            surface: match self.surface {
                Some(s) => Some(s@),
                None => None,
            },
            fg: self.fg,
            bg: self.bg,
            cx: self.cx as nat,
            cy: self.cy as nat,
            cell_w: self.cell_w as nat,
            cell_h: self.cell_h as nat,
        }
    }
}

impl TextWriter {
    /// A cell is at least one pixel wide and high, and a bound surface is
    /// well-formed.
    pub open spec fn wf(&self) -> bool {
        self@.wf()
    }

    /// The unbound console: white on black, cursor at the origin, cells of
    /// 8 by 8 pixels.
    pub fn uninit() -> (tw: TextWriter)
        ensures
            tw.wf(),
            tw@ == (ConsoleView {
                surface: None,
                fg: Rgb { r: 255, g: 255, b: 255 },
                bg: Some(Rgb::black()),
                cx: 0,
                cy: 0,
                cell_w: 8,
                cell_h: 8,
            }),
    {
        TextWriter {
            surface: None,
            fg: Rgb { r: 255, g: 255, b: 255 },
            bg: Some(Rgb { r: 0, g: 0, b: 0 }),
            cx: 0,
            cy: 0,
            cell_w: 8,
            cell_h: 8,
        }
    }

    /// Whether a surface is bound.
    pub fn is_init(&self) -> (bound: bool)
        ensures
            bound == self@.is_init(),
    {
        self.surface.is_some()
    }

    /// Sets the foreground colour and the background colour; `None` makes the
    /// background transparent.
    pub fn set_colors(&mut self, fg: Rgb, bg: Option<Rgb>)
        ensures
            final(self)@ == (ConsoleView { fg, bg, ..old(self)@ }),
    {
        self.fg = fg;
        self.bg = bg;
    }

    /// Moves the cursor. The cell need not be in the grid: the cursor is
    /// brought back when the next glyph or line break needs it.
    pub fn set_cursor(&mut self, col: u32, row: u32)
        ensures
            final(self)@ == (ConsoleView { cx: col as nat, cy: row as nat, ..old(self)@ }),
    {
        self.cx = col;
        self.cy = row;
    }

    /// Sets the size of a cell in pixels. A size with a zero in it is not a
    /// cell size: it is ignored and the console keeps the size it has.
    pub fn set_cell_size(&mut self, w: u32, h: u32)
        ensures
            w >= 1 && h >= 1 ==> final(self)@ == (ConsoleView {
                cell_w: w as nat,
                cell_h: h as nat,
                ..old(self)@
            }),
            w == 0 || h == 0 ==> final(self)@ == old(self)@,
    {
        if w >= 1 && h >= 1 {
            self.cell_w = w;
            self.cell_h = h;
        }
    }

    /// Scrolls the picture up by `lines` cell rows, at most by the height of
    /// the surface, and fills the rows laid bare with the background colour,
    /// or with black where the background is transparent.
    pub fn scroll_up(&mut self, lines: u32)
        requires
            old(self).wf(),
        ensures
            final(self)@ == old(self)@.scroll_up(lines as nat),
            final(self).wf(),
    {
        let bg = match self.bg {
            Some(c) => c,
            None => Rgb { r: 0, g: 0, b: 0 },
        };
        let cell_h = self.cell_h;
        match &mut self.surface {
            Some(s) => {
                let height = s.info().height as u64;
                let want: u64 = product(lines, cell_h);
                let dy: u32 = if want <= height {
                    want as u32
                } else {
                    height as u32
                };
                s.scroll_up(dy, bg);
            },
            None => {},
        }
    }

    /// The number of whole cells in a row of the grid; 0 while unbound.
    pub fn cols(&self) -> (n: u32)
        requires
            self.wf(),
        ensures
            n == self@.cols(),
    {
        match &self.surface {
            Some(s) => (s.info().width / self.cell_w as usize) as u32,
            None => 0,
        }
    }

    /// The number of whole cells in a column of the grid; 0 while unbound.
    pub fn rows(&self) -> (n: u32)
        requires
            self.wf(),
        ensures
            n == self@.rows(),
    {
        match &self.surface {
            Some(s) => (s.info().height / self.cell_h as usize) as u32,
            None => 0,
        }
    }

    /// The cursor, as column and row.
    pub fn cursor(&self) -> (at: (u32, u32))
        ensures
            at.0 == self@.cx,
            at.1 == self@.cy,
    {
        (self.cx, self.cy)
    }

    /// The bound surface, if there is one.
    pub fn surface(&self) -> (bound: Option<&Surface>)
        ensures
            bound is Some <==> self@.is_init(),
            bound matches Some(s) ==> self@.surface == Some(s@) && (self.wf() ==> s.wf()),
    {
        self.surface.as_ref()
    }

    /// Binds `surface`, clears it to black and puts the cursor at the origin.
    /// A surface bound before is dropped.
    pub fn init(&mut self, surface: Surface)
        requires
            old(self).wf(),
            surface.wf(),
        ensures
            final(self)@ == old(self)@.init(surface@),
            final(self).wf(),
    {
        self.surface = Some(surface);
        self.clear(Rgb { r: 0, g: 0, b: 0 });
    }

    /// Sets every visible pixel to `c` and puts the cursor at the origin.
    /// Nothing happens while unbound.
    pub fn clear(&mut self, c: Rgb)
        requires
            old(self).wf(),
        ensures
            final(self)@ == old(self)@.clear(c),
            final(self).wf(),
    {
        match &mut self.surface {
            Some(s) => {
                clear_screen(s, c);
            },
            None => {
                return;
            },
        }
        self.cx = 0;
        self.cy = 0;
    }

    /// Breaks the line: the cursor goes to column 0 of the next row, and
    /// where there is none the picture scrolls up by one cell row. Nothing
    /// happens while unbound.
    pub fn newline(&mut self)
        requires
            old(self).wf(),
        ensures
            final(self)@ == old(self)@.newline(),
            final(self).wf(),
    {
        if !self.is_init() {
            return;
        }
        let rows = self.rows();
        self.cx = 0;
        if self.cy as u64 + 1 >= rows as u64 {
            self.scroll_up(1);
            self.cy = if rows >= 1 {
                rows - 1
            } else {
                0
            };
        } else {
            self.cy = self.cy + 1;
        }
    }

    /// Draws the bitmap `rows` in the cursor's cell and moves the cursor one
    /// column on. A cursor at or behind the end of its row is first wrapped
    /// to the next line. Nothing happens while unbound.
    pub fn put_glyph(&mut self, rows: &[u8; 8])
        requires
            old(self).wf(),
        ensures
            final(self)@ == old(self)@.put_glyph(rows@),
            final(self).wf(),
    {
        if !self.is_init() {
            return;
        }
        if self.cx >= self.cols() {
            self.newline();
        }
        let x_px = product(self.cx, self.cell_w);
        let y_px = product(self.cy, self.cell_h);
        let cell_w = self.cell_w;
        let cell_h = self.cell_h;
        let fg = self.fg;
        let bg = self.bg;
        match &mut self.surface {
            Some(s) => {
                if x_px <= u32::MAX as u64 && y_px <= u32::MAX as u64 {
                    draw_glyph_rows(s, rows, x_px as u32, y_px as u32, cell_w, cell_h, fg, bg);
                } else {
                    proof {
                        s@.lemma_paint_nothing(
                            glyph_ink(
                                rows@,
                                x_px as int,
                                y_px as int,
                                cell_w as int,
                                cell_h as int,
                                fg,
                                bg,
                            ),
                        );
                    }
                }
            },
            None => {},
        }
        proof {
            let at = old(self)@.wrapped();
            assert(at.cx < at.cols() ==> at.cx + 1 <= u32::MAX) by {
                if at.cx < at.cols() {
                    let width = at.surface.unwrap().info.width as int;
                    assert(width / (at.cell_w as int) <= width) by (nonlinear_arith)
                        requires
                            width >= 0,
                            at.cell_w >= 1,
                    ;
                }
            }
        }
        self.cx = self.cx + 1;
    }

    /// Writes one character: a line feed breaks the line, a carriage return
    /// puts the cursor in column 0, and every other character is drawn as
    /// its glyph. Nothing happens while unbound.
    pub fn put_char(&mut self, ch: char)
        requires
            old(self).wf(),
        ensures
            final(self)@ == old(self)@.put_char(ch),
            final(self).wf(),
    {
        if ch == '\n' {
            self.newline();
        } else if ch == '\r' {
            if self.is_init() {
                self.cx = 0;
            }
        } else {
            let rows = glyph_rows(ch);
            self.put_glyph(&rows);
        }
    }

    /// Writes bytes in order, each as the character with that code.
    pub fn write_bytes(&mut self, text: &[u8])
        requires
            old(self).wf(),
        ensures
            final(self)@ == old(self)@.write(text@),
            final(self).wf(),
    {
        let ghost before = self@;
        let mut i: usize = 0;
        while i < text.len()
            invariant
                i <= text.len(),
                self.wf(),
                self@ == before.write(text@.take(i as int)),
            decreases text.len() - i,
        {
            let b = text[i];
            proof {
                before.lemma_write_step(text@, i as int);
            }
            self.put_char(b as char);
            i += 1;
        }
        proof {
            assert(text@.take(i as int) =~= text@);
        }
    }

    /// Writes the bytes of a string in order, each as the character with
    /// that code.
    pub fn write_str_raw(&mut self, s: &str)
        requires
            old(self).wf(),
        ensures
            final(self)@ == old(self)@.write(s.spec_bytes()),
            final(self).wf(),
    {
        self.write_bytes(s.as_bytes());
    }

    /// Writes a string if a surface is bound, and does nothing otherwise.
    pub fn write_str(&mut self, s: &str)
        requires
            old(self).wf(),
        ensures
            final(self)@ == old(self)@.write(s.spec_bytes()),
            final(self).wf(),
    {
        if !self.is_init() {
            proof {
                old(self)@.lemma_put_chars_unbound(byte_chars(s.spec_bytes()));
            }
            return;
        }
        self.write_str_raw(s);
    }
}

/// Prints already formatted text on the console: the bytes of `text` are
/// written in order. Nothing happens while the console is unbound.
pub fn _print(tw: &mut TextWriter, text: &str)
    requires
        old(tw).wf(),
    ensures
        final(tw)@ == old(tw)@.write(text.spec_bytes()),
        !old(tw)@.is_init() ==> final(tw)@ == old(tw)@,
        final(tw).wf(),
{
    proof {
        if !tw@.is_init() {
            tw@.lemma_put_chars_unbound(byte_chars(text.spec_bytes()));
        }
    }
    tw.write_str(text);
}

} // verus!
