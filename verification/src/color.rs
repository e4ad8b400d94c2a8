//! Colours and their single-channel weighting.

use vstd::prelude::*;

verus! {

/// A colour of three 8-bit channels, without alpha.
#[derive(Copy, Clone, Debug, PartialEq, Eq, Structural)]
pub struct Rgb {
    pub r: u8,
    pub g: u8,
    pub b: u8,
}

impl Rgb {
    /// The grey level of a colour: the channels weighted 30 : 59 : 11,
    /// rounded down.
    pub open spec fn luma(self) -> int {
        (30 * self.r + 59 * self.g + 11 * self.b) / 100
    }

    /// Black, the colour a fresh console is cleared to.
    pub open spec fn black() -> Rgb {
        Rgb { r: 0, g: 0, b: 0 }
    }

    /// The byte stored for this colour on a single-channel surface.
    pub fn luminance(self) -> (y: u8)
        ensures
            y == self.luma(),
    {
        let sum: u32 = 30 * (self.r as u32) + 59 * (self.g as u32) + 11 * (self.b as u32);
        (sum / 100) as u8
    }
}

} // verus!
