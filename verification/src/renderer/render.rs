use crate::renderer::pbm::Image;
use crate::ttf::glyph::{fits_i16, Glyph, GlyphHeader};
use vstd::prelude::*;

verus! {

/// The header of either kind of glyph.
pub open spec fn header_of(glyph: &Glyph) -> GlyphHeader {
    match glyph {
        Glyph::Simple(simple) => simple.header,
        Glyph::Composite(composite) => composite.header,
    }
}

/// The number of pixels from `lo` to `hi` inclusive, `(hi - lo) as u32 + 1`:
/// the 16-bit difference, sign-extended to 32 bits, plus one.
pub open spec fn extent(lo: i16, hi: i16) -> int {
    ((hi - lo) as i16 as u32) + 1
}

/// The glyph's bounding box can be measured: the differences fit in 16
/// bits, the extents in 32 bits, and so does the pixel count.
pub open spec fn can_render(glyph: &Glyph) -> bool {
    let h = header_of(glyph);
    &&& fits_i16(h.x_max - h.x_min)
    &&& fits_i16(h.y_max - h.y_min)
    &&& extent(h.x_min, h.x_max) <= u32::MAX
    &&& extent(h.y_min, h.y_max) <= u32::MAX
    &&& extent(h.x_min, h.x_max) * extent(h.y_min, h.y_max) <= u32::MAX
}

/// A blank image the size of the glyph's bounding box.
pub fn render_glyph(glyph: &Glyph) -> (res: Image)
    requires
        can_render(glyph),
    ensures
        res.width == extent(header_of(glyph).x_min, header_of(glyph).x_max),
        res.height == extent(header_of(glyph).y_min, header_of(glyph).y_max),
        res.data@ == Seq::new((res.width * res.height) as nat, |i: int| false),
{
    let header = match glyph {
        Glyph::Simple(simple) => &simple.header,
        Glyph::Composite(composite) => &composite.header,
    };

    let width = (header.x_max - header.x_min) as u32 + 1;
    let height = (header.y_max - header.y_min) as u32 + 1;

    Image::new(width, height)
}

} // verus!
