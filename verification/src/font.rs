//! The glyph source: an 8x8 bitmap for every character code.
//!
//! A bitmap is eight bytes, one per pixel row from the top. Bit `c` of a row,
//! counted from the least significant, is the pixel in column `c` from the
//! left.

use vstd::prelude::*;

verus! {

/// The bitmap that the table `font8x8::legacy::BASIC_LEGACY` holds for a code
/// below 128.
pub uninterp spec fn basic_legacy(code: usize) -> Seq<u8>;

/// Reads entry `code` of the constant table `font8x8::legacy::BASIC_LEGACY`,
/// which has 128 entries of eight bytes each. Nothing is proved of the
/// entry: the contract only gives it a name, so that two reads of one code
/// are known to agree.
#[verifier::external_body]
fn basic_legacy_rows(code: usize) -> (rows: [u8; 8])
    requires
        code < 128,
    ensures
        rows@ == basic_legacy(code),
{
    font8x8::legacy::BASIC_LEGACY[code]
}

/// The bitmap of a character: the table's entry for a code below 128, and
/// the blank bitmap for every other character.
pub open spec fn glyph_bits(ch: char) -> Seq<u8> {
    if (ch as u32) < 128 {
        basic_legacy(ch as usize)
    } else {
        Seq::new(8, |i: int| 0u8)
    }
}

/// Looks up the bitmap of a character. A character outside the table is
/// drawn blank; there is no character without a bitmap.
pub fn glyph_rows(ch: char) -> (rows: [u8; 8])
    ensures
        rows@ == glyph_bits(ch),
{
    let code = ch as u32;
    if code < 128 {
        basic_legacy_rows(code as usize)
    } else {
        let blank = [0u8; 8];
        assert(blank@ =~= Seq::new(8, |i: int| 0u8));
        blank
    }
}

} // verus!
