//! The mathematical surface: a descriptor and a sequence of bytes.
//!
//! Every drawing operation is a *painting*: an ink says, for each pixel,
//! which colour to store there or that the pixel is left alone, and painting
//! stores the encoded colour in the bytes of every visible pixel the ink
//! covers. Bytes that belong to no visible pixel (row padding, the unused tail
//! of a pixel, anything behind the last row) are never touched.

use vstd::prelude::*;
use crate::color::Rgb;
use crate::layout::SurfaceInfo;

verus! {

/// The ink that colours the single pixel `(x, y)`.
pub open spec fn dot(x: int, y: int, c: Rgb) -> spec_fn(int, int) -> Option<Rgb> {
    |px: int, py: int|
        if px == x && py == y {
            Some(c)
        } else {
            None
        }
}

/// The ink that colours the `w` by `h` rectangle whose top left pixel is
/// `(x, y)`.
pub open spec fn rect(x: int, y: int, w: int, h: int, c: Rgb) -> spec_fn(int, int) -> Option<Rgb> {
    |px: int, py: int|
        if x <= px < x + w && y <= py < y + h {
            Some(c)
        } else {
            None
        }
}

/// The ink of painting `bottom` first and `top` after it.
pub open spec fn over(
    top: spec_fn(int, int) -> Option<Rgb>,
    bottom: spec_fn(int, int) -> Option<Rgb>,
) -> spec_fn(int, int) -> Option<Rgb> {
    |px: int, py: int|
        match top(px, py) {
            Some(c) => Some(c),
            None => bottom(px, py),
        }
}

/// A surface as a value: its descriptor and the bytes of its buffer.
pub struct SurfaceView {
    pub info: SurfaceInfo,
    pub bytes: Seq<u8>,
}

impl SurfaceView {
    /// The descriptor is valid, and the buffer holds every row and is no
    /// longer than memory can be.
    pub open spec fn wf(self) -> bool {
        self.info.valid() && self.info.byte_len() <= self.bytes.len() <= usize::MAX
    }

    /// The stored bytes of pixel `(x, y)`, as many as a write stores.
    pub open spec fn pixel(self, x: int, y: int) -> Seq<u8> {
        self.bytes.subrange(
            self.info.offset(x, y),
            self.info.offset(x, y) + self.info.pixel_len(),
        )
    }

    /// Byte `i` after painting with `ink`.
    pub open spec fn painted_byte(self, ink: spec_fn(int, int) -> Option<Rgb>, i: int) -> u8 {
        let x = self.info.byte_x(i);
        let y = self.info.byte_y(i);
        let k = self.info.byte_channel(i);
        if self.info.contains(x, y) && 0 <= k < self.info.pixel_len() {
            match ink(x, y) {
                Some(c) => self.info.encode(c)[k],
                None => self.bytes[i],
            }
        } else {
            self.bytes[i]
        }
    }

    /// The surface after painting with `ink`.
    pub open spec fn paint(self, ink: spec_fn(int, int) -> Option<Rgb>) -> SurfaceView {
        SurfaceView {
            info: self.info,
            bytes: Seq::new(self.bytes.len(), |i: int| self.painted_byte(ink, i)),
        }
    }

    /// The surface after writing colour `c` to pixel `(x, y)`; unchanged when
    /// the pixel is not visible.
    pub open spec fn put_pixel(self, x: int, y: int, c: Rgb) -> SurfaceView {
        self.paint(dot(x, y, c))
    }

    /// The surface after filling a rectangle, clipped to the visible pixels.
    pub open spec fn fill_rect(self, x: int, y: int, w: int, h: int, c: Rgb) -> SurfaceView {
        self.paint(rect(x, y, w, h, c))
    }

    /// The surface with every visible pixel set to `c`.
    pub open spec fn clear(self, c: Rgb) -> SurfaceView {
        self.fill_rect(0, 0, self.info.width as int, self.info.height as int, c)
    }

    /// The surface after moving the rows from `dy` on to the top, raw bytes
    /// and padding alike. The last `dy` rows keep what they held.
    pub open spec fn shift_up(self, dy: int) -> SurfaceView {
        let moved = (self.info.height - dy) * self.info.row_len();
        let step = dy * self.info.row_len();
        SurfaceView {
            info: self.info,
            bytes: Seq::new(
                self.bytes.len(),
                |i: int|
                    if 0 <= i < moved {
                        self.bytes[i + step]
                    } else {
                        self.bytes[i]
                    },
            ),
        }
    }

    /// The surface after scrolling up by `dy` pixel rows: the rows move up and
    /// the `dy` rows laid bare at the bottom are filled with `bg`. Scrolling
    /// by nothing changes nothing.
    pub open spec fn scroll_up(self, dy: int, bg: Rgb) -> SurfaceView {
        if dy <= 0 {
            self
        } else {
            self.shift_up(dy).fill_rect(
                0,
                self.info.height - dy,
                self.info.width as int,
                dy,
                bg,
            )
        }
    }

    /// Painting keeps the descriptor, the length of the buffer and
    /// well-formedness.
    pub proof fn lemma_paint_frame(self, ink: spec_fn(int, int) -> Option<Rgb>)
        ensures
            self.paint(ink).info == self.info,
            self.paint(ink).bytes.len() == self.bytes.len(),
            self.wf() ==> self.paint(ink).wf(),
    {
    }

    /// After painting, a visible pixel holds the encoded colour of the ink, or
    /// what it held before where the ink leaves it alone.
    pub proof fn lemma_paint_pixel(self, ink: spec_fn(int, int) -> Option<Rgb>, x: int, y: int)
        requires
            self.wf(),
            self.info.contains(x, y),
        ensures
            self.paint(ink).pixel(x, y) == match ink(x, y) {
                Some(c) => self.info.encode(c),
                None => self.pixel(x, y),
            },
    {
        let after = self.paint(ink);
        let off = self.info.offset(x, y);
        let n = self.info.pixel_len();
        let expected = match ink(x, y) {
            Some(c) => self.info.encode(c),
            None => self.pixel(x, y),
        };
        self.info.lemma_pixel_len_bound();
        self.info.lemma_offset_in_rows(x, y);
        if n > 0 {
            assert forall|k: int| 0 <= k < n implies after.pixel(x, y)[k] == expected[k] by {
                self.info.lemma_offset_coordinates(x, y, k);
                assert(after.bytes[off + k] == self.painted_byte(ink, off + k));
            }
        }
        assert(after.pixel(x, y) =~= expected);
    }

    /// Two inks that agree on every visible pixel paint the same surface.
    pub proof fn lemma_paint_same(
        self,
        a: spec_fn(int, int) -> Option<Rgb>,
        b: spec_fn(int, int) -> Option<Rgb>,
    )
        requires
            forall|x: int, y: int| self.info.contains(x, y) ==> #[trigger] a(x, y) == b(x, y),
        ensures
            self.paint(a) == self.paint(b),
    {
        assert(self.paint(a).bytes =~= self.paint(b).bytes);
    }

    /// An ink that covers no visible pixel paints nothing.
    pub proof fn lemma_paint_nothing(self, ink: spec_fn(int, int) -> Option<Rgb>)
        requires
            forall|x: int, y: int| self.info.contains(x, y) ==> #[trigger] ink(x, y) is None,
        ensures
            self.paint(ink) == self,
    {
        assert(self.paint(ink).bytes =~= self.bytes);
    }

    /// Painting twice is painting once with the second ink laid over the
    /// first.
    pub proof fn lemma_paint_over(
        self,
        bottom: spec_fn(int, int) -> Option<Rgb>,
        top: spec_fn(int, int) -> Option<Rgb>,
    )
        ensures
            self.paint(bottom).paint(top) == self.paint(over(top, bottom)),
    {
        assert(self.paint(bottom).paint(top).bytes =~= self.paint(over(top, bottom)).bytes);
    }

    /// Storing the encoded colour at the offset of a visible pixel is writing
    /// that pixel.
    pub proof fn lemma_store_is_put_pixel(self, x: int, y: int, c: Rgb, stored: Seq<u8>)
        requires
            self.wf(),
            self.info.contains(x, y),
            stored.len() == self.bytes.len(),
            forall|i: int|
                0 <= i < stored.len() ==> stored[i] == if self.info.offset(x, y) <= i
                    < self.info.offset(x, y) + self.info.pixel_len() {
                    self.info.encode(c)[i - self.info.offset(x, y)]
                } else {
                    self.bytes[i]
                },
        ensures
            self.put_pixel(x, y, c) == (SurfaceView { info: self.info, bytes: stored }),
    {
        let off = self.info.offset(x, y);
        let n = self.info.pixel_len();
        let painted = self.put_pixel(x, y, c).bytes;
        self.info.lemma_pixel_len_bound();
        assert forall|i: int| 0 <= i < stored.len() implies painted[i] == stored[i] by {
            if off <= i < off + n {
                self.info.lemma_offset_coordinates(x, y, i - off);
            } else if n > 0 && self.info.stride >= 1 {
                self.info.lemma_coordinates_offset(i);
            }
        }
        assert(painted =~= stored);
    }

    /// Moving the rows up by more than there are moves nothing, and the fill
    /// that follows covers every visible pixel: scrolling by more than the
    /// height is scrolling by the height.
    pub proof fn lemma_scroll_up_clamped(self, dy: int, bg: Rgb)
        requires
            dy >= self.info.height,
        ensures
            self.scroll_up(dy, bg) == self.scroll_up(self.info.height as int, bg),
    {
        let height = self.info.height as int;
        let row = self.info.row_len();
        if dy > 0 {
            assert((height - dy) * row <= 0) by (nonlinear_arith)
                requires
                    height - dy <= 0,
                    row >= 0,
            ;
            assert((height - height) * row == 0) by (nonlinear_arith);
            assert(self.shift_up(dy).bytes =~= self.bytes);
            if height > 0 {
                assert(self.shift_up(height).bytes =~= self.bytes);
                self.lemma_paint_same(
                    rect(0, height - dy, self.info.width as int, dy, bg),
                    rect(0, 0, self.info.width as int, height, bg),
                );
            } else {
                self.lemma_paint_nothing(rect(0, height - dy, self.info.width as int, dy, bg));
            }
        }
    }

    /// Scrolling keeps the descriptor, the length of the buffer and
    /// well-formedness.
    pub proof fn lemma_scroll_up_frame(self, dy: int, bg: Rgb)
        ensures
            self.scroll_up(dy, bg).info == self.info,
            self.scroll_up(dy, bg).bytes.len() == self.bytes.len(),
            self.wf() ==> self.scroll_up(dy, bg).wf(),
    {
    }
}

} // verus!
