use vstd::prelude::*;

verus! {

/// Placement of an image on the square canvas it is padded onto.
#[derive(Clone, Copy, Debug, PartialEq, Eq, Structural)]
pub struct PaddingGeometry {
    /// Side length of the square canvas.
    pub side: u32,
    /// Column at which the image's left edge is placed.
    pub x_offset: u32,
    /// Row at which the image's top edge is placed.
    pub y_offset: u32,
}

pub open spec fn max_u32(a: u32, b: u32) -> u32 {
    if a >= b { a } else { b }
}

/// Square canvas that holds a `width` x `height` image, centered.
pub fn padding_geometry(width: u32, height: u32) -> (g: PaddingGeometry)
    ensures
        g.side == max_u32(width, height),
        g.x_offset == (g.side - width) / 2,
        g.y_offset == (g.side - height) / 2,
        g.x_offset + width <= g.side,
        g.y_offset + height <= g.side,
        0 <= (g.side - width - g.x_offset) - g.x_offset <= 1,
        0 <= (g.side - height - g.y_offset) - g.y_offset <= 1,
{
    let side = if width >= height { width } else { height };
    PaddingGeometry { side, x_offset: (side - width) / 2, y_offset: (side - height) / 2 }
}

} // verus!
