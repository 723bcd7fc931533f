use vstd::prelude::*;

verus! {

/// The eight rows of the 8×8 bitmap glyph of ASCII code `code`, top row
/// first; bit `col` of a row set means the pixel `col` places right of the
/// glyph's left edge is drawn.
pub uninterp spec fn basic_glyph(code: nat) -> Seq<u8>;

/// Relies on `font8x8::legacy::BASIC_LEGACY`: the table of 8×8 glyphs of the
/// basic Latin block, indexed by code point 0 to 127.
#[verifier::external_body]
pub(crate) fn glyph(code: u32) -> (r: [u8; 8])
    requires
        code < 128,
    ensures
        r@ == basic_glyph(code as nat),
{
    font8x8::legacy::BASIC_LEGACY[code as usize]
}

} // verus!
