//! The pixel-to-point mapping.
//!
//! A pixel address of the output raster is carried to the point of the
//! complex plane it renders, by a total affine map between the corners
//! `upper_left` and `lower_right`.  Pixel rows grow downward while the
//! imaginary axis grows upward, so the vertical displacement is
//! subtracted where the horizontal one is added.

use vstd::prelude::*;
use vstd::arithmetic::div_mod::{lemma_div_is_ordered, lemma_div_pos_is_pos, lemma_div_multiples_vanish};
use vstd::arithmetic::mul::{lemma_mul_inequality, lemma_mul_nonnegative};
use crate::complex::{Complex, scaled_quotient, lemma_scaled_quotient_neg, lemma_product_bound, quotient_toward_zero};

verus! {

/// The width and height of an output raster, in pixels; both are positive.
#[derive(Debug, Clone, Copy)]
pub struct ImageShape {
    pub width: usize,
    pub height: usize,
}

impl ImageShape {
    /// A shape the renderer accepts: positive on both axes, each axis
    /// within the range of a pixel count of the image format, and a
    /// raster of that size addressable in memory.
    pub open spec fn valid(self) -> bool {
        &&& 0 < self.width <= 0xffff_ffff
        &&& 0 < self.height <= 0xffff_ffff
        &&& self.width * self.height <= usize::MAX
    }
}

/// The address of one pixel of an output raster.
pub struct PixelPosition {
    pub x: usize,
    pub y: usize,
}

/// The real component of the plane point a column address maps to.
pub open spec fn point_re(bounds: ImageShape, x: int, upper_left: Complex<i64>, lower_right: Complex<i64>) -> int {
    upper_left.re + scaled_quotient(x * (lower_right.re - upper_left.re), bounds.width as int)
}

/// The imaginary component of the plane point a row address maps to.
pub open spec fn point_im(bounds: ImageShape, y: int, upper_left: Complex<i64>, lower_right: Complex<i64>) -> int {
    upper_left.im - scaled_quotient(y * (upper_left.im - lower_right.im), bounds.height as int)
}

/// The value `index / count` of the way from `base` toward `other`,
/// rounded toward `base`; it always lies between the two.
fn interpolate(base: i64, other: i64, index: usize, count: usize) -> (r: i64)
    requires
        0 < count <= 0xffff_ffff,
        index <= count,
    ensures
        r as int == base + scaled_quotient(index * (other - base), count as int),
{
    let delta: i128 = other as i128 - base as i128;
    proof {
        lemma_product_bound(index as int, delta as int, 0x100000000, 0x10000000000000000);
    }
    let num: i128 = (index as i128) * delta;
    let q: i128 = quotient_toward_zero(num, count as u64);
    proof {
        let ix = index as int;
        let cn = count as int;
        let dl = delta as int;
        if dl >= 0 {
            lemma_mul_nonnegative(ix, dl);
            lemma_mul_inequality(ix, cn, dl);
            lemma_div_pos_is_pos(ix * dl, cn);
            lemma_div_is_ordered(ix * dl, cn * dl, cn);
            lemma_div_multiples_vanish(dl, cn);
            assert(q as int <= dl);
        } else {
            lemma_mul_nonnegative(ix, -dl);
            lemma_mul_inequality(ix, cn, -dl);
            lemma_div_pos_is_pos(ix * (-dl), cn);
            lemma_div_is_ordered(ix * (-dl), cn * (-dl), cn);
            lemma_div_multiples_vanish(-dl, cn);
            assert((ix * (-dl)) / cn <= -dl);
            assert(ix * (-dl) == -(ix * dl)) by (nonlinear_arith);
            assert(q as int >= dl);
        }
    }
    (base as i128 + q) as i64
}

/// The point of the complex plane that one pixel of the output raster
/// stands for: the affine image of the pixel address in the rectangle
/// between `upper_left` and `lower_right`.
pub fn pixel_to_point(
    bounds: ImageShape,
    pixel: PixelPosition,
    upper_left: Complex<i64>,
    lower_right: Complex<i64>,
) -> (r: Complex<i64>)
    requires
        bounds.valid(),
        pixel.x <= bounds.width,
        pixel.y <= bounds.height,
    ensures
        r.re as int == point_re(bounds, pixel.x as int, upper_left, lower_right),
        r.im as int == point_im(bounds, pixel.y as int, upper_left, lower_right),
{
    let re = interpolate(upper_left.re, lower_right.re, pixel.x, bounds.width);
    let im = interpolate(upper_left.im, lower_right.im, pixel.y, bounds.height);
    proof {
        let y = pixel.y as int;
        let rise = (lower_right.im - upper_left.im) as int;
        lemma_scaled_quotient_neg(y * rise, bounds.height as int);
        assert(y * -rise == -(y * rise)) by (nonlinear_arith);
    }
    Complex { re, im }
}

/// The pixel at the origin of the raster maps exactly to the
/// upper-left corner.
pub proof fn lemma_origin_pixel_maps_to_corner(
    bounds: ImageShape,
    upper_left: Complex<i64>,
    lower_right: Complex<i64>,
)
    requires
        bounds.valid(),
    ensures
        point_re(bounds, 0, upper_left, lower_right) == upper_left.re as int,
        point_im(bounds, 0, upper_left, lower_right) == upper_left.im as int,
{
    assert(0int * ((lower_right.re - upper_left.re) as int) == 0);
    assert(0int * ((upper_left.im - lower_right.im) as int) == 0);
    assert(0int / (bounds.width as int) == 0);
    assert(0int / (bounds.height as int) == 0);
}

} // verus!
