//! The pixel surface: a byte buffer with its descriptor, and the bounds-checked
//! writes that every drawing operation is built from.

use vstd::prelude::*;
use crate::canvas::dot;
use crate::canvas::over;
use crate::canvas::rect;
use crate::canvas::SurfaceView;
use crate::color::Rgb;
use crate::layout::PixelFormat;
use crate::layout::SurfaceInfo;

verus! {

impl SurfaceInfo {
    /// Whether the descriptor is valid.
    pub fn is_valid(&self) -> (ok: bool)
        ensures
            ok == self.valid(),
    {
        let bpp = self.bytes_per_pixel;
        let size_ok = match self.pixel_format {
            PixelFormat::Rgb | PixelFormat::Bgr => bpp == 3 || bpp == 4,
            PixelFormat::U8 => bpp == 1 || bpp == 3 || bpp == 4,
            PixelFormat::Unknown => true,
        };
        self.width <= self.stride && self.width <= u32::MAX as usize && self.height
            <= u32::MAX as usize && size_ok
    }

    /// Whether a buffer of `len` bytes holds every row of the surface.
    pub fn fits(&self, len: usize) -> (ok: bool)
        ensures
            ok == (self.byte_len() <= len),
    {
        if self.height == 0 || self.stride == 0 || self.bytes_per_pixel == 0 {
            assert(self.height * self.stride * self.bytes_per_pixel == 0) by (nonlinear_arith)
                requires
                    self.height == 0 || self.stride == 0 || self.bytes_per_pixel == 0,
            ;
            return true;
        }
        match self.height.checked_mul(self.stride) {
            None => {
                assert(self.height * self.stride * self.bytes_per_pixel > usize::MAX)
                    by (nonlinear_arith)
                    requires
                        self.height * self.stride > usize::MAX,
                        self.bytes_per_pixel >= 1,
                ;
                false
            },
            Some(pixels) => match pixels.checked_mul(self.bytes_per_pixel) {
                None => false,
                Some(bytes) => bytes <= len,
            },
        }
    }
}

/// A pixel surface that owns its buffer.
pub struct Surface {
    info: SurfaceInfo,
    buf: Vec<u8>,
}

impl View for Surface {
    type V = SurfaceView;

    closed spec fn view(&self) -> SurfaceView {
        SurfaceView { info: self.info, bytes: self.buf@ }
    }
}

impl Surface {
    /// The descriptor is valid and the buffer holds every row.
    pub open spec fn wf(&self) -> bool {
        self@.wf()
    }

    /// Binds a buffer to a descriptor. The pair is taken exactly when the
    /// descriptor is valid and the buffer is long enough for it.
    pub fn new(info: SurfaceInfo, buf: Vec<u8>) -> (made: Option<Surface>)
        ensures
            made is Some <==> (SurfaceView { info, bytes: buf@ }).wf(),
            made matches Some(s) ==> s@ == (SurfaceView { info, bytes: buf@ }),
    {
        if info.is_valid() && info.fits(buf.len()) {
            Some(Surface { info, buf })
        } else {
            None
        }
    }

    /// The descriptor.
    pub fn info(&self) -> (info: SurfaceInfo)
        ensures
            info == self@.info,
    {
        self.info
    }

    /// The bytes of the buffer.
    pub fn bytes(&self) -> (bytes: &[u8])
        ensures
            bytes@ == self@.bytes,
    {
        self.buf.as_slice()
    }

    /// Gives the buffer back.
    pub fn into_bytes(self) -> (bytes: Vec<u8>)
        ensures
            bytes@ == self@.bytes,
    {
        self.buf
    }

    /// The index of the first byte of a visible pixel on a written layout.
    fn offset(&self, x: u32, y: u32) -> (idx: usize)
        requires
            self.wf(),
            self@.info.contains(x as int, y as int),
            self@.info.pixel_len() > 0,
        ensures
            idx == self@.info.offset(x as int, y as int),
            idx + self@.info.bytes_per_pixel <= self@.bytes.len(),
    {
        let stride = self.info.stride;
        let bpp = self.info.bytes_per_pixel;
        proof {
            self.info.lemma_offset_in_rows(x as int, y as int);
            assert(y * stride + x <= (y * stride + x) * bpp) by (nonlinear_arith)
                requires
                    bpp >= 1,
                    0 <= y,
                    0 <= x,
                    0 <= stride,
            ;
            assert(0 <= y * stride <= y * stride + x) by (nonlinear_arith)
                requires
                    0 <= y,
                    0 <= x,
                    0 <= stride,
            ;
        }
        (y as usize * stride + x as usize) * bpp
    }

    /// The stored bytes of pixel `(x, y)`, or `None` where the pixel is not
    /// visible.
    pub fn pixel_bytes(&self, x: u32, y: u32) -> (stored: Option<Vec<u8>>)
        requires
            self.wf(),
        ensures
            stored is Some <==> self@.info.contains(x as int, y as int),
            stored matches Some(p) ==> p@ == self@.pixel(x as int, y as int),
    {
        if x as usize >= self.info.width || y as usize >= self.info.height {
            return None;
        }
        let mut out: Vec<u8> = Vec::new();
        let n: usize = match self.info.pixel_format {
            PixelFormat::Rgb | PixelFormat::Bgr => if self.info.bytes_per_pixel == 4 {
                4
            } else {
                3
            },
            PixelFormat::U8 => 1,
            PixelFormat::Unknown => {
                proof {
                    self.info.lemma_offset_in_rows(x as int, y as int);
                }
                assert(out@ =~= self@.pixel(x as int, y as int));
                return Some(out);
            },
        };
        let idx = self.offset(x, y);
        let mut k: usize = 0;
        while k < n
            invariant
                k <= n,
                self@.bytes.len() <= usize::MAX,
                n == self@.info.pixel_len(),
                n <= self@.info.bytes_per_pixel,
                idx + self@.info.bytes_per_pixel <= self@.bytes.len(),
                out@ == self@.bytes.subrange(idx as int, idx + k),
            decreases n - k,
        {
            out.push(self.buf[idx + k]);
            k += 1;
            assert(out@ =~= self@.bytes.subrange(idx as int, idx + k));
        }
        Some(out)
    }

    /// Writes colour `c` to pixel `(x, y)` in the layout of the surface. A
    /// pixel that is not visible is silently left out, and a surface of
    /// unknown layout is never written.
    pub fn put_pixel(&mut self, x: u32, y: u32, c: Rgb)
        requires
            old(self).wf(),
        ensures
            final(self)@ == old(self)@.put_pixel(x as int, y as int, c),
            final(self).wf(),
    {
        let ghost before = self@;
        if x as usize >= self.info.width || y as usize >= self.info.height {
            proof {
                before.lemma_paint_nothing(dot(x as int, y as int, c));
            }
            return;
        }
        let bpp = self.info.bytes_per_pixel;
        match self.info.pixel_format {
            PixelFormat::Rgb => {
                let idx = self.offset(x, y);
                self.buf[idx] = c.r;
                self.buf[idx + 1] = c.g;
                self.buf[idx + 2] = c.b;
                if bpp == 4 {
                    self.buf[idx + 3] = 0;
                }
            },
            PixelFormat::Bgr => {
                let idx = self.offset(x, y);
                self.buf[idx] = c.b;
                self.buf[idx + 1] = c.g;
                self.buf[idx + 2] = c.r;
                if bpp == 4 {
                    self.buf[idx + 3] = 0;
                }
            },
            PixelFormat::U8 => {
                let idx = self.offset(x, y);
                self.buf[idx] = c.luminance();
            },
            PixelFormat::Unknown => {},
        }
        proof {
            before.lemma_store_is_put_pixel(x as int, y as int, c, self.buf@);
        }
    }

    /// Fills the `w` by `h` rectangle whose top left pixel is `(x, y)` with
    /// colour `c`. The part of the rectangle that is not visible is left out.
    pub fn fill_rect(&mut self, x: u32, y: u32, w: u32, h: u32, c: Rgb)
        requires
            old(self).wf(),
        ensures
            final(self)@ == old(self)@.fill_rect(x as int, y as int, w as int, h as int, c),
            final(self).wf(),
    {
        let ghost before = self@;
        let ghost whole = rect(x as int, y as int, w as int, h as int, c);
        let width = self.info.width as u64;
        let height = self.info.height as u64;
        let x_end: u64 = if x as u64 + w as u64 <= width {
            x as u64 + w as u64
        } else {
            width
        };
        let y_end: u64 = if y as u64 + h as u64 <= height {
            y as u64 + h as u64
        } else {
            height
        };
        if x as u64 >= x_end || y as u64 >= y_end {
            proof {
                before.lemma_paint_nothing(whole);
            }
            return;
        }
        let mut yy: u32 = y;
        proof {
            before.lemma_paint_nothing(rect(x as int, y as int, w as int, 0, c));
        }
        while (yy as u64) < y_end
            invariant
                self.wf(),
                self@.info == before.info,
                width == before.info.width,
                x < x_end <= width,
                x_end <= x + w,
                x_end == width || x_end == x + w,
                y <= yy <= y_end <= height,
                height == before.info.height,
                before.info.valid(),
                self@ == before.paint(rect(x as int, y as int, w as int, yy - y, c)),
            decreases y_end - yy,
        {
            let ghost rows = rect(x as int, y as int, w as int, yy - y, c);
            let mut xx: u32 = x;
            proof {
                before.lemma_paint_same(
                    rows,
                    over(rect(x as int, yy as int, xx - x, 1, c), rows),
                );
            }
            while (xx as u64) < x_end
                invariant
                    self.wf(),
                    self@.info == before.info,
                    width == before.info.width,
                    x <= xx <= x_end <= width,
                    before.info.valid(),
                    rows == rect(x as int, y as int, w as int, yy - y, c),
                    self@ == before.paint(over(rect(x as int, yy as int, xx - x, 1, c), rows)),
                decreases x_end - xx,
            {
                let ghost done = over(rect(x as int, yy as int, xx - x, 1, c), rows);
                self.put_pixel(xx, yy, c);
                proof {
                    before.lemma_paint_over(done, dot(xx as int, yy as int, c));
                    before.lemma_paint_same(
                        over(dot(xx as int, yy as int, c), done),
                        over(rect(x as int, yy as int, xx + 1 - x, 1, c), rows),
                    );
                }
                xx += 1;
            }
            proof {
                before.lemma_paint_same(
                    over(rect(x as int, yy as int, xx - x, 1, c), rows),
                    rect(x as int, y as int, w as int, yy + 1 - y, c),
                );
            }
            yy += 1;
        }
        proof {
            before.lemma_paint_same(rect(x as int, y as int, w as int, yy - y, c), whole);
        }
    }

    /// Scrolls the picture up by `dy` pixel rows, at most by the height: the
    /// rows from `dy` on move to the top, byte for byte and front to back, and
    /// the rows laid bare at the bottom are filled with `bg`.
    pub fn scroll_up(&mut self, dy: u32, bg: Rgb)
        requires
            old(self).wf(),
        ensures
            final(self)@ == old(self)@.scroll_up(dy as int, bg),
            final(self).wf(),
    {
        let ghost before = self@;
        let height = self.info.height;
        let d: usize = if dy as usize <= height {
            dy as usize
        } else {
            height
        };
        proof {
            if dy >= height {
                before.lemma_scroll_up_clamped(dy as int, bg);
            }
        }
        if d == 0 {
            return;
        }
        proof {
            self.info.lemma_rows_split(d as int);
        }
        let row = self.info.stride * self.info.bytes_per_pixel;
        let moved = (height - d) * row;
        let step = d * row;
        let mut i: usize = 0;
        while i < moved
            invariant
                i <= moved,
                moved + step <= before.bytes.len() <= usize::MAX,
                self.buf@.len() == before.bytes.len(),
                self.info == before.info,
                forall|j: int|
                    0 <= j < before.bytes.len() ==> self.buf@[j] == if j < i {
                        before.bytes[j + step]
                    } else {
                        before.bytes[j]
                    },
            decreases moved - i,
        {
            let b = self.buf[i + step];
            self.buf[i] = b;
            i += 1;
        }
        assert(self@.bytes =~= before.shift_up(d as int).bytes);
        self.fill_rect(0, (height - d) as u32, self.info.width as u32, d as u32, bg);
    }
}

/// Sets every visible pixel of the surface to `bg`: each then reads back as
/// `bg` in the layout of the surface.
pub fn clear_screen(surface: &mut Surface, bg: Rgb)
    requires
        old(surface).wf(),
    ensures
        final(surface)@ == old(surface)@.clear(bg),
        forall|x: int, y: int|
            old(surface)@.info.contains(x, y) ==> #[trigger] final(surface)@.pixel(x, y) == old(
                surface,
            )@.info.encode(bg),
        final(surface).wf(),
{
    let ghost before = surface@;
    let info = surface.info();
    surface.fill_rect(0, 0, info.width as u32, info.height as u32, bg);
    proof {
        assert forall|x: int, y: int| before.info.contains(x, y) implies #[trigger] surface@.pixel(
            x,
            y,
        ) == before.info.encode(bg) by {
            before.lemma_paint_pixel(
                rect(0, 0, info.width as int, info.height as int, bg),
                x,
                y,
            );
        }
    }
}

} // verus!
