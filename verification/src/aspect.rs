//! Fitting an image into a framebuffer without distorting it: which side limits the size, and what
//! stands in for sizes and aspects that make no sense.

use crate::single::Single;
use vstd::prelude::*;

verus! {

/// Whether the aspect of a framebuffer pixel can be told from the aspect of a cell and its subpixel
/// factors.
pub open spec fn has_aspect(cell_aspect: Single, subpixel_x: u16, subpixel_y: u16) -> bool {
    &&& subpixel_x > 0
    &&& subpixel_y > 0
    &&& is_ratio(cell_aspect)
}

/// Whether a number is finite and positive.
pub open spec fn is_ratio(v: Single) -> bool {
    v.is_finite() && Single::zero().spec_lt(v)
}

/// Whether a number is finite and positive, as an aspect is.
pub fn usable(v: Single) -> (b: bool)
    ensures
        b == is_ratio(v),
{
    v.bits % crate::single::SIGN < crate::single::INFINITY && Single::zero().lt(v)
}

/// How wide a framebuffer pixel is for its height: `product`, the cell's aspect times the number of
/// subpixels down over the number across, or one where that makes no sense.
pub fn pixel_aspect(cell_aspect: Single, subpixel_x: u16, subpixel_y: u16, product: Single) -> (r:
    Single)
    ensures
        r == if has_aspect(cell_aspect, subpixel_x, subpixel_y) {
            product
        } else {
            Single::one()
        },
{
    if subpixel_x == 0 || subpixel_y == 0 || !usable(cell_aspect) {
        return Single::one();
    }
    product
}

/// `n` between one and `most`.
pub open spec fn within(n: usize, most: usize) -> usize {
    if n < 1 {
        1
    } else if n > most {
        most
    } else {
        n
    }
}

/// The size that fills a region of `max_w` × `max_h` pixels one way and fits it the other.
pub open spec fn fitted(
    max_w: usize,
    max_h: usize,
    height_for_width: usize,
    width_for_height: usize,
) -> (usize, usize) {
    if height_for_width <= max_h {
        (max_w, within(height_for_width, max_h))
    } else {
        (within(width_for_height, max_w), max_h)
    }
}

/// The size at which an image of `img_w` × `img_h` pixels fills a region of `max_w` × `max_h`
/// pixels: all of its width where the height that goes with it, `height_for_width`, fits, else all
/// of its height, with the width that goes with it, `width_for_height`. At least one pixel each
/// way; nothing where the image or the region is empty.
pub fn fit_dimensions(
    img_w: u32,
    img_h: u32,
    max_w: usize,
    max_h: usize,
    height_for_width: usize,
    width_for_height: usize,
) -> (size: (usize, usize))
    ensures
        img_w == 0 || img_h == 0 || max_w == 0 || max_h == 0 ==> size == (0usize, 0usize),
        img_w > 0 && img_h > 0 && max_w > 0 && max_h > 0 ==> {
            &&& size == fitted(max_w, max_h, height_for_width, width_for_height)
            &&& 1 <= size.0 <= max_w
            &&& 1 <= size.1 <= max_h
        },
{
    if img_w == 0 || img_h == 0 || max_w == 0 || max_h == 0 {
        return (0, 0);
    }
    if height_for_width > max_h {
        return (clamped(width_for_height, max_w), max_h);
    }
    (max_w, clamped(height_for_width, max_h))
}

fn clamped(n: usize, most: usize) -> (r: usize)
    ensures
        r == within(n, most),
{
    if n < 1 {
        1
    } else if n > most {
        most
    } else {
        n
    }
}

/// A fitted image stays in its region and touches two opposite borders of it.
pub proof fn law_fitted_image_touches_the_borders(
    max_w: usize,
    max_h: usize,
    height_for_width: usize,
    width_for_height: usize,
)
    requires
        max_w > 0,
        max_h > 0,
    ensures
        ({
            let size = fitted(max_w, max_h, height_for_width, width_for_height);
            &&& 1 <= size.0 <= max_w
            &&& 1 <= size.1 <= max_h
            &&& size.0 == max_w || size.1 == max_h
        }),
{
}

} // verus!
