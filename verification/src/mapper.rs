use vstd::prelude::*;
use vstd::arithmetic::div_mod::{
    lemma_div_is_ordered, lemma_div_multiples_vanish, lemma_div_pos_is_pos,
};
use vstd::arithmetic::mul::lemma_mul_inequality;
use crate::complex::Complex;

verus! {

/// Largest image dimension (pixels along one axis) the library supports.
pub const MAX_DIM: usize = 65536;

/// Positive pixel dimensions, small enough that every buffer offset
/// (`width * height * 4` at most) fits in `usize` on any platform.
pub open spec fn bounds_ok(bounds: (usize, usize)) -> bool {
    0 < bounds.0 <= MAX_DIM && 0 < bounds.1 <= MAX_DIM
}

/// A well-formed viewport: the real axis grows to the right and the
/// imaginary axis grows upward, so the upper-left corner has the smaller
/// real part and the larger imaginary part.
pub open spec fn viewport_ok(upper_left: Complex, lower_right: Complex) -> bool {
    &&& upper_left.in_range()
    &&& lower_right.in_range()
    &&& upper_left.re < lower_right.re
    &&& upper_left.im > lower_right.im
}

/// Real part of the affine map: `upper_left.re + col * plane_width / width`,
/// with the division truncating (both operands are nonnegative here).
pub open spec fn map_re(bounds: (usize, usize), col: int, upper_left: Complex, lower_right: Complex) -> int {
    upper_left.re + (col * (lower_right.re - upper_left.re)) / (bounds.0 as int)
}

/// Imaginary part of the affine map: `upper_left.im - row * plane_height / height`.
/// The subtraction flips the axis: pixel row 0 is the top of the image and
/// carries the algebraically largest imaginary value.
pub open spec fn map_im(bounds: (usize, usize), row: int, upper_left: Complex, lower_right: Complex) -> int {
    upper_left.im - (row * (upper_left.im - lower_right.im)) / (bounds.1 as int)
}

/// The complex point a pixel maps to.
pub open spec fn mapped_point(bounds: (usize, usize), col: int, row: int, upper_left: Complex, lower_right: Complex) -> Complex {
    Complex {
        re: map_re(bounds, col, upper_left, lower_right) as i64,
        im: map_im(bounds, row, upper_left, lower_right) as i64,
    }
}

/// The real part of a mapped pixel stays between the corners' real parts.
pub proof fn lemma_map_re_range(bounds: (usize, usize), col: int, upper_left: Complex, lower_right: Complex)
    requires
        bounds_ok(bounds),
        viewport_ok(upper_left, lower_right),
        0 <= col <= bounds.0,
    ensures
        upper_left.re <= map_re(bounds, col, upper_left, lower_right) <= lower_right.re,
{
    let pw = lower_right.re - upper_left.re;
    let w = bounds.0 as int;
    lemma_div_pos_is_pos(col * pw, w);
    lemma_mul_inequality(col, w, pw);
    lemma_div_is_ordered(col * pw, w * pw, w);
    lemma_div_multiples_vanish(pw, w);
    assert(w * pw == pw * w) by (nonlinear_arith);
    assert(col * pw >= 0) by (nonlinear_arith)
        requires col >= 0 && pw >= 0;
}

/// The imaginary part of a mapped pixel stays between the corners'
/// imaginary parts.
pub proof fn lemma_map_im_range(bounds: (usize, usize), row: int, upper_left: Complex, lower_right: Complex)
    requires
        bounds_ok(bounds),
        viewport_ok(upper_left, lower_right),
        0 <= row <= bounds.1,
    ensures
        lower_right.im <= map_im(bounds, row, upper_left, lower_right) <= upper_left.im,
{
    let ph = upper_left.im - lower_right.im;
    let h = bounds.1 as int;
    lemma_div_pos_is_pos(row * ph, h);
    lemma_mul_inequality(row, h, ph);
    lemma_div_is_ordered(row * ph, h * ph, h);
    lemma_div_multiples_vanish(ph, h);
    assert(h * ph == ph * h) by (nonlinear_arith);
    assert(row * ph >= 0) by (nonlinear_arith)
        requires row >= 0 && ph >= 0;
}

/// Pixel (0, 0) maps exactly to the upper-left corner, and the one-past-the-end
/// pixel (width, height) maps exactly to the lower-right corner: the affine
/// formula meets the corners with no rounding error at all.
pub proof fn lemma_corner_pixels(bounds: (usize, usize), upper_left: Complex, lower_right: Complex)
    requires
        bounds_ok(bounds),
        viewport_ok(upper_left, lower_right),
    ensures
        mapped_point(bounds, 0, 0, upper_left, lower_right) == upper_left,
        mapped_point(bounds, bounds.0 as int, bounds.1 as int, upper_left, lower_right) == lower_right,
{
    let pw = lower_right.re - upper_left.re;
    let ph = upper_left.im - lower_right.im;
    let w = bounds.0 as int;
    let h = bounds.1 as int;
    assert(0 * pw == 0) by (nonlinear_arith);
    assert(0 * ph == 0) by (nonlinear_arith);
    assert((0int) / w == 0);
    assert((0int) / h == 0);
    lemma_div_multiples_vanish(pw, w);
    lemma_div_multiples_vanish(ph, h);
    assert(w * pw == pw * w) by (nonlinear_arith);
    assert(h * ph == ph * h) by (nonlinear_arith);
}

/// Maps a pixel position inside an image of the given dimensions to the
/// point of the complex plane it stands for, under the affine transform
/// between pixel space and the viewport rectangle.
pub fn pixel_to_point(
    bounds: (usize, usize),
    pixel: (usize, usize),
    upper_left: Complex,
    lower_right: Complex,
) -> (r: Complex)
    requires
        bounds_ok(bounds),
        viewport_ok(upper_left, lower_right),
        pixel.0 <= bounds.0,
        pixel.1 <= bounds.1,
    ensures
        r == mapped_point(bounds, pixel.0 as int, pixel.1 as int, upper_left, lower_right),
        upper_left.re <= r.re <= lower_right.re,
        lower_right.im <= r.im <= upper_left.im,
        r.in_range(),
{
    proof {
        lemma_map_re_range(bounds, pixel.0 as int, upper_left, lower_right);
        lemma_map_im_range(bounds, pixel.1 as int, upper_left, lower_right);
    }
    let plane_width: i64 = lower_right.re - upper_left.re;
    let plane_height: i64 = upper_left.im - lower_right.im;

    proof {
        assert((pixel.0 as int) * (plane_width as int) <= 65536 * 562949953421312int) by (nonlinear_arith)
            requires
                0 <= pixel.0 as int <= 65536,
                0 <= plane_width as int <= 562949953421312;
    }
    let re_prod: u128 = (pixel.0 as u128) * (plane_width as u128);
    let re_quot: u128 = re_prod / (bounds.0 as u128);
    let re_off: i64 = re_quot as i64;
    let re: i64 = upper_left.re + re_off;

    proof {
        assert((pixel.1 as int) * (plane_height as int) <= 65536 * 562949953421312int) by (nonlinear_arith)
            requires
                0 <= pixel.1 as int <= 65536,
                0 <= plane_height as int <= 562949953421312;
    }
    let im_prod: u128 = (pixel.1 as u128) * (plane_height as u128);
    let im_quot: u128 = im_prod / (bounds.1 as u128);
    let im_off: i64 = im_quot as i64;
    let im: i64 = upper_left.im - im_off;

    Complex { re, im }
}

} // verus!
