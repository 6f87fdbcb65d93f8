//! The sizes of the parts of the screen.

use vstd::prelude::*;

verus! {

/// The room that a choice box takes beside its longest item.
pub const CHOICE_PADDING: u16 = 3;

/// The width of the year choice: four digits and the padding.
pub const YEAR_INPUT_WIDTH: u16 = 4 + CHOICE_PADDING;

/// The width of the month choice: the longest month name and the padding.
pub const MONTH_INPUT_WIDTH: u16 = 9 + CHOICE_PADDING;

/// The size in pixels of an image that fills an area of `columns` by `rows`
/// terminal cells whose font is `font_size` pixels wide and high.
pub fn image_size(font_size: (u16, u16), columns: u16, rows: u16) -> (r: (u32, u32))
    ensures
        r.0 == font_size.0 * columns,
        r.1 == font_size.1 * rows,
{
    let (width, height) = font_size;
    assert(width * columns <= 65535 * 65535) by (nonlinear_arith)
        requires
            width <= 65535,
            columns <= 65535,
    ;
    assert(height * rows <= 65535 * 65535) by (nonlinear_arith)
        requires
            height <= 65535,
            rows <= 65535,
    ;
    (width as u32 * columns as u32, height as u32 * rows as u32)
}

} // verus!
