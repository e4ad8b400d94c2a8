//! The geometry of a surface and the byte layout of its pixels.
//!
//! Pixel `(x, y)` starts at byte `(y * stride + x) * bytes_per_pixel`. The
//! functions here go both ways between pixel coordinates and byte indices, and
//! the lemmas show that the two directions are inverse to each other.

use vstd::prelude::*;
use vstd::arithmetic::div_mod::lemma_fundamental_div_mod;
use vstd::arithmetic::div_mod::lemma_fundamental_div_mod_converse;
use vstd::arithmetic::div_mod::lemma_mod_bound;
use crate::color::Rgb;

verus! {

/// How the channels of a pixel are stored.
#[derive(Copy, Clone, Debug, PartialEq, Eq, Structural)]
pub enum PixelFormat {
    /// Red, then green, then blue.
    Rgb,
    /// Blue, then green, then red.
    Bgr,
    /// One grey byte.
    U8,
    /// A layout this library does not write.
    Unknown,
}

/// Width, height and stride in pixels, the size of a pixel in bytes, and the
/// channel layout.
#[derive(Copy, Clone, Debug, PartialEq, Eq, Structural)]
pub struct SurfaceInfo {
    pub width: usize,
    pub height: usize,
    pub stride: usize,
    pub bytes_per_pixel: usize,
    pub pixel_format: PixelFormat,
}

impl SurfaceInfo {
    /// The number of bytes that writing one pixel stores.
    pub open spec fn pixel_len(self) -> int {
        match self.pixel_format {
            PixelFormat::Rgb | PixelFormat::Bgr => if self.bytes_per_pixel == 4 {
                4
            } else {
                3
            },
            PixelFormat::U8 => 1,
            PixelFormat::Unknown => 0,
        }
    }

    /// The bytes that writing colour `c` stores, in buffer order.
    pub open spec fn encode(self, c: Rgb) -> Seq<u8> {
        match self.pixel_format {
            PixelFormat::Rgb => if self.bytes_per_pixel == 4 {
                seq![c.r, c.g, c.b, 0u8]
            } else {
                seq![c.r, c.g, c.b]
            },
            PixelFormat::Bgr => if self.bytes_per_pixel == 4 {
                seq![c.b, c.g, c.r, 0u8]
            } else {
                seq![c.b, c.g, c.r]
            },
            PixelFormat::U8 => seq![c.luma() as u8],
            PixelFormat::Unknown => Seq::empty(),
        }
    }

    /// A descriptor is valid when a row is at least as long as its visible
    /// part, both dimensions can be addressed by 32-bit coordinates, and a
    /// written layout has a pixel size that holds what a write stores.
    pub open spec fn valid(self) -> bool {
        &&& self.width <= self.stride
        &&& self.width <= u32::MAX
        &&& self.height <= u32::MAX
        &&& match self.pixel_format {
            PixelFormat::Rgb | PixelFormat::Bgr => self.bytes_per_pixel == 3
                || self.bytes_per_pixel == 4,
            PixelFormat::U8 => self.bytes_per_pixel == 1 || self.bytes_per_pixel == 3
                || self.bytes_per_pixel == 4,
            PixelFormat::Unknown => true,
        }
    }

    /// The number of bytes that the rows of the surface take.
    pub open spec fn byte_len(self) -> int {
        self.height * self.stride * self.bytes_per_pixel
    }

    /// The number of bytes of one row, padding included.
    pub open spec fn row_len(self) -> int {
        self.stride * self.bytes_per_pixel
    }

    /// Whether `(x, y)` is a visible pixel.
    pub open spec fn contains(self, x: int, y: int) -> bool {
        0 <= x < self.width && 0 <= y < self.height
    }

    /// The index of the first byte of pixel `(x, y)`.
    pub open spec fn offset(self, x: int, y: int) -> int {
        (y * self.stride + x) * self.bytes_per_pixel
    }

    /// The column of the pixel that byte `i` belongs to.
    pub open spec fn byte_x(self, i: int) -> int {
        (i / (self.bytes_per_pixel as int)) % (self.stride as int)
    }

    /// The row of the pixel that byte `i` belongs to.
    pub open spec fn byte_y(self, i: int) -> int {
        (i / (self.bytes_per_pixel as int)) / (self.stride as int)
    }

    /// The position of byte `i` inside its pixel.
    pub open spec fn byte_channel(self, i: int) -> int {
        i % (self.bytes_per_pixel as int)
    }

    /// On a valid descriptor a write stays inside its pixel, and a written
    /// layout has pixels of at least one byte.
    pub proof fn lemma_pixel_len_bound(self)
        requires
            self.valid(),
        ensures
            0 <= self.pixel_len() <= self.bytes_per_pixel,
            self.pixel_len() > 0 ==> self.bytes_per_pixel >= 1,
    {
    }

    /// Byte `k` of pixel `(x, y)` is found again by the coordinate functions.
    pub proof fn lemma_offset_coordinates(self, x: int, y: int, k: int)
        requires
            0 <= x < self.stride,
            0 <= y,
            0 <= k < self.bytes_per_pixel,
        ensures
            self.byte_x(self.offset(x, y) + k) == x,
            self.byte_y(self.offset(x, y) + k) == y,
            self.byte_channel(self.offset(x, y) + k) == k,
    {
        let bpp = self.bytes_per_pixel as int;
        let stride = self.stride as int;
        let q = y * stride + x;
        lemma_fundamental_div_mod_converse(self.offset(x, y) + k, bpp, q, k);
        lemma_fundamental_div_mod_converse(q, stride, y, x);
    }

    /// Every byte index is byte `byte_channel` of the pixel at its coordinates.
    pub proof fn lemma_coordinates_offset(self, i: int)
        requires
            self.bytes_per_pixel >= 1,
            self.stride >= 1,
            0 <= i,
        ensures
            i == self.offset(self.byte_x(i), self.byte_y(i)) + self.byte_channel(i),
            0 <= self.byte_channel(i) < self.bytes_per_pixel,
            0 <= self.byte_x(i) < self.stride,
            0 <= self.byte_y(i),
    {
        let bpp = self.bytes_per_pixel as int;
        let stride = self.stride as int;
        let q = i / bpp;
        lemma_fundamental_div_mod(i, bpp);
        lemma_mod_bound(i, bpp);
        lemma_fundamental_div_mod(q, stride);
        lemma_mod_bound(q, stride);
        assert(q >= 0) by (nonlinear_arith)
            requires
                i >= 0,
                bpp >= 1,
                q == i / bpp,
        ;
        assert(q / stride >= 0) by (nonlinear_arith)
            requires
                q >= 0,
                stride >= 1,
        ;
        assert((q / stride) * stride == stride * (q / stride)) by (nonlinear_arith);
        assert(q * bpp == bpp * q) by (nonlinear_arith);
    }

    /// The bytes of a visible pixel lie inside the rows of the surface.
    pub proof fn lemma_offset_in_rows(self, x: int, y: int)
        requires
            self.width <= self.stride,
            self.contains(x, y),
        ensures
            0 <= self.offset(x, y),
            self.offset(x, y) + self.bytes_per_pixel <= self.byte_len(),
    {
        let bpp = self.bytes_per_pixel as int;
        let stride = self.stride as int;
        let height = self.height as int;
        assert(0 <= (y * stride + x) * bpp && (y * stride + x) * bpp + bpp <= height * stride
            * bpp) by (nonlinear_arith)
            requires
                0 <= x < stride,
                0 <= y < height,
                0 <= bpp,
        ;
    }

    /// Moving down by `dy` rows moves a pixel by `dy` whole rows of bytes.
    pub proof fn lemma_offset_rows_down(self, x: int, y: int, dy: int)
        ensures
            self.offset(x, y + dy) == self.offset(x, y) + dy * self.row_len(),
    {
        let bpp = self.bytes_per_pixel as int;
        let stride = self.stride as int;
        assert(((y + dy) * stride + x) * bpp == (y * stride + x) * bpp + dy * (stride * bpp))
            by (nonlinear_arith);
    }

    /// The first `height - dy` rows and the last `dy` rows make up the whole
    /// surface, and no row is longer than the whole.
    pub proof fn lemma_rows_split(self, dy: int)
        requires
            0 <= dy <= self.height,
        ensures
            (self.height - dy) * self.row_len() + dy * self.row_len() == self.byte_len(),
            0 <= (self.height - dy) * self.row_len(),
            0 <= dy * self.row_len(),
            self.height >= 1 ==> self.row_len() <= self.byte_len(),
    {
        let bpp = self.bytes_per_pixel as int;
        let stride = self.stride as int;
        let height = self.height as int;
        assert((height - dy) * (stride * bpp) + dy * (stride * bpp) == height * stride * bpp)
            by (nonlinear_arith);
        assert(0 <= (height - dy) * (stride * bpp) && 0 <= dy * (stride * bpp))
            by (nonlinear_arith)
            requires
                0 <= dy <= height,
                0 <= stride,
                0 <= bpp,
        ;
        assert(height >= 1 ==> stride * bpp <= height * stride * bpp) by (nonlinear_arith)
            requires
                0 <= stride,
                0 <= bpp,
        ;
    }
}

} // verus!
