use vstd::prelude::*;

verus! {

/// Width of one thumbnail, in pixels.
pub const THUMB_W: i32 = 200;
/// Height of one thumbnail, in pixels.
pub const THUMB_H: i32 = 120;
/// Gap between two thumbnails, in pixels.
pub const SPACING: i32 = 12;
/// Margin around the grid, in pixels.
pub const MARGIN: i32 = 16;
/// Width reserved for the page indicator column, in pixels.
pub const INDICATOR_WIDTH: i32 = 40;
/// Largest number of page dots shown at once.
pub const MAX_DOTS: usize = 15;
/// Longest page number shown in full; longer ones are shown as an ellipsis.
pub const MAX_LABEL_CHARS: usize = 3;
/// Duration of the favorite flash animation, in milliseconds.
pub const FAVORITE_FLASH_MS: u64 = 300;

/// The larger of two integers.
pub open spec fn max_int(a: int, b: int) -> int {
    if a >= b { a } else { b }
}

/// Number of thumbnail columns that fit in a window `width` pixels wide.
pub open spec fn grid_cols(width: int) -> int {
    max_int(width - MARGIN * 2 - INDICATOR_WIDTH, (THUMB_W + SPACING) as int) / ((THUMB_W + SPACING) as int)
}

/// Number of thumbnail rows that fit in a window `height` pixels high.
pub open spec fn grid_rows(height: int) -> int {
    max_int(height - MARGIN * 2, (THUMB_H + SPACING) as int) / ((THUMB_H + SPACING) as int)
}

/// Computes the grid size (columns, rows) from the window size.
pub fn compute_grid(width: i32, height: i32) -> (res: (usize, usize))
    requires
        width - MARGIN * 2 - INDICATOR_WIDTH >= i32::MIN,
        height - MARGIN * 2 >= i32::MIN,
    ensures
        res.0 == grid_cols(width as int),
        res.1 == grid_rows(height as int),
        res.0 >= 1,
        res.1 >= 1,
{
    let cell_w: i32 = THUMB_W + SPACING;
    let cell_h: i32 = THUMB_H + SPACING;
    let w: i32 = width - MARGIN * 2 - INDICATOR_WIDTH;
    let usable_w: i32 = if w >= cell_w { w } else { cell_w };
    let h: i32 = height - MARGIN * 2;
    let usable_h: i32 = if h >= cell_h { h } else { cell_h };
    let c: i32 = usable_w / cell_w;
    let r: i32 = usable_h / cell_h;
    let cols: i32 = if c >= 1 { c } else { 1 };
    let rows: i32 = if r >= 1 { r } else { 1 };
    (cols as usize, rows as usize)
}

} // verus!
