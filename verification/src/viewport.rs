use vstd::prelude::*;
use vstd::arithmetic::div_mod::{
    lemma_div_is_ordered, lemma_div_multiples_vanish, lemma_div_nonincreasing,
    lemma_div_pos_is_pos,
};
use crate::complex::{Complex, MAX_COORD, SCALE};
use crate::mapper::viewport_ok;

verus! {

/// The four pan commands the interactive controller reacts to.
#[derive(Clone, Copy, PartialEq, Eq, Structural, Debug)]
pub enum PanDirection {
    Up,
    Down,
    Left,
    Right,
}

/// Numerator of the pan step: each pan moves the viewport by 5% of its
/// span along the panned axis.
pub const PAN_NUM: i64 = 5;

/// Numerator of the zoom-in factor: spans shrink to 90% of their half-span
/// on each side.
pub const ZOOM_IN_NUM: i64 = 90;

/// Numerator of the zoom-out factor: spans grow to 110% of their half-span
/// on each side.
pub const ZOOM_OUT_NUM: i64 = 110;

/// The rectangle of the complex plane currently shown: owned by the
/// interactive controller and passed by value into each render pass.
#[derive(Clone, Copy, PartialEq, Eq, Structural, Debug)]
pub struct Viewport {
    pub upper_left: Complex,
    pub lower_right: Complex,
}

/// A fraction `value * num / 100` of a span, truncated.
pub open spec fn span_frac(value: int, num: int) -> int {
    (value * num) / 100
}

impl Viewport {
    /// Corners ordered and within the coordinate range.
    pub open spec fn wf(self) -> bool {
        viewport_ok(self.upper_left, self.lower_right)
    }

    /// Width of the viewport in ticks.
    pub open spec fn span_re(self) -> int {
        self.lower_right.re - self.upper_left.re
    }

    /// Height of the viewport in ticks.
    pub open spec fn span_im(self) -> int {
        self.upper_left.im - self.lower_right.im
    }

    /// Half the width, truncated.
    pub open spec fn half_re(self) -> int {
        self.span_re() / 2
    }

    /// Half the height, truncated.
    pub open spec fn half_im(self) -> int {
        self.span_im() / 2
    }

    /// Real part of the viewport midpoint.
    pub open spec fn center_re(self) -> int {
        self.upper_left.re + self.half_re()
    }

    /// Imaginary part of the viewport midpoint.
    pub open spec fn center_im(self) -> int {
        self.lower_right.im + self.half_im()
    }

    /// The canonical home viewport: upper-left -1+1i, lower-right 1-1i.
    pub fn reset() -> (v: Viewport)
        ensures
            v.upper_left.re == -SCALE,
            v.upper_left.im == SCALE,
            v.lower_right.re == SCALE,
            v.lower_right.im == -SCALE,
            v.wf(),
    {
        Viewport {
            upper_left: Complex { re: -SCALE, im: SCALE },
            lower_right: Complex { re: SCALE, im: -SCALE },
        }
    }

    /// Moves the viewport by 5% of its span in the given direction. Both
    /// corners shift by the same amount, so the spans are preserved
    /// exactly.
    pub fn pan(self, dir: PanDirection) -> (v: Viewport)
        requires
            self.wf(),
            dir is Up ==> self.upper_left.im + span_frac(self.span_im(), PAN_NUM as int) <= MAX_COORD,
            dir is Down ==> self.lower_right.im - span_frac(self.span_im(), PAN_NUM as int) >= -MAX_COORD,
            dir is Left ==> self.upper_left.re - span_frac(self.span_re(), PAN_NUM as int) >= -MAX_COORD,
            dir is Right ==> self.lower_right.re + span_frac(self.span_re(), PAN_NUM as int) <= MAX_COORD,
        ensures
            v.wf(),
            v.span_re() == self.span_re(),
            v.span_im() == self.span_im(),
            dir is Up ==> v.upper_left.re == self.upper_left.re
                && v.upper_left.im == self.upper_left.im + span_frac(self.span_im(), PAN_NUM as int),
            dir is Down ==> v.upper_left.re == self.upper_left.re
                && v.upper_left.im == self.upper_left.im - span_frac(self.span_im(), PAN_NUM as int),
            dir is Left ==> v.upper_left.im == self.upper_left.im
                && v.upper_left.re == self.upper_left.re - span_frac(self.span_re(), PAN_NUM as int),
            dir is Right ==> v.upper_left.im == self.upper_left.im
                && v.upper_left.re == self.upper_left.re + span_frac(self.span_re(), PAN_NUM as int),
    {
        match dir {
            PanDirection::Up => {
                let s = frac(self.upper_left.im - self.lower_right.im, PAN_NUM);
                Viewport {
                    upper_left: Complex { re: self.upper_left.re, im: self.upper_left.im + s },
                    lower_right: Complex { re: self.lower_right.re, im: self.lower_right.im + s },
                }
            }
            PanDirection::Down => {
                let s = frac(self.upper_left.im - self.lower_right.im, PAN_NUM);
                Viewport {
                    upper_left: Complex { re: self.upper_left.re, im: self.upper_left.im - s },
                    lower_right: Complex { re: self.lower_right.re, im: self.lower_right.im - s },
                }
            }
            PanDirection::Left => {
                let s = frac(self.lower_right.re - self.upper_left.re, PAN_NUM);
                Viewport {
                    upper_left: Complex { re: self.upper_left.re - s, im: self.upper_left.im },
                    lower_right: Complex { re: self.lower_right.re - s, im: self.lower_right.im },
                }
            }
            PanDirection::Right => {
                let s = frac(self.lower_right.re - self.upper_left.re, PAN_NUM);
                Viewport {
                    upper_left: Complex { re: self.upper_left.re + s, im: self.upper_left.im },
                    lower_right: Complex { re: self.lower_right.re + s, im: self.lower_right.im },
                }
            }
        }
    }

    /// Zooms in by 10%: each half-span shrinks to 90% of itself, both
    /// corners moving symmetrically toward the midpoint, which therefore
    /// stays exactly where it was.
    pub fn zoom_in(self) -> (v: Viewport)
        requires
            self.wf(),
            self.span_re() >= 4,
            self.span_im() >= 4,
        ensures
            v.wf(),
            v.upper_left.re == self.center_re() - span_frac(self.half_re(), ZOOM_IN_NUM as int),
            v.lower_right.re == self.center_re() + span_frac(self.half_re(), ZOOM_IN_NUM as int),
            v.upper_left.im == self.center_im() + span_frac(self.half_im(), ZOOM_IN_NUM as int),
            v.lower_right.im == self.center_im() - span_frac(self.half_im(), ZOOM_IN_NUM as int),
            v.upper_left.re + v.lower_right.re == 2 * self.center_re(),
            v.upper_left.im + v.lower_right.im == 2 * self.center_im(),
    {
        self.zoom(ZOOM_IN_NUM)
    }

    /// Zooms out by 10%: each half-span grows to 110% of itself, both
    /// corners moving symmetrically away from the midpoint, which therefore
    /// stays exactly where it was.
    pub fn zoom_out(self) -> (v: Viewport)
        requires
            self.wf(),
            self.span_re() >= 4,
            self.span_im() >= 4,
            self.center_re() + span_frac(self.half_re(), ZOOM_OUT_NUM as int) <= MAX_COORD,
            self.center_re() - span_frac(self.half_re(), ZOOM_OUT_NUM as int) >= -MAX_COORD,
            self.center_im() + span_frac(self.half_im(), ZOOM_OUT_NUM as int) <= MAX_COORD,
            self.center_im() - span_frac(self.half_im(), ZOOM_OUT_NUM as int) >= -MAX_COORD,
        ensures
            v.wf(),
            v.upper_left.re == self.center_re() - span_frac(self.half_re(), ZOOM_OUT_NUM as int),
            v.lower_right.re == self.center_re() + span_frac(self.half_re(), ZOOM_OUT_NUM as int),
            v.upper_left.im == self.center_im() + span_frac(self.half_im(), ZOOM_OUT_NUM as int),
            v.lower_right.im == self.center_im() - span_frac(self.half_im(), ZOOM_OUT_NUM as int),
            v.upper_left.re + v.lower_right.re == 2 * self.center_re(),
            v.upper_left.im + v.lower_right.im == 2 * self.center_im(),
    {
        self.zoom(ZOOM_OUT_NUM)
    }

    /// Rebuilds the viewport around its midpoint with each half-span scaled
    /// by `num / 100`.
    fn zoom(self, num: i64) -> (v: Viewport)
        requires
            self.wf(),
            num == ZOOM_IN_NUM || num == ZOOM_OUT_NUM,
            self.span_re() >= 4,
            self.span_im() >= 4,
            self.center_re() + span_frac(self.half_re(), num as int) <= MAX_COORD,
            self.center_re() - span_frac(self.half_re(), num as int) >= -MAX_COORD,
            self.center_im() + span_frac(self.half_im(), num as int) <= MAX_COORD,
            self.center_im() - span_frac(self.half_im(), num as int) >= -MAX_COORD,
        ensures
            v.wf(),
            v.upper_left.re == self.center_re() - span_frac(self.half_re(), num as int),
            v.lower_right.re == self.center_re() + span_frac(self.half_re(), num as int),
            v.upper_left.im == self.center_im() + span_frac(self.half_im(), num as int),
            v.lower_right.im == self.center_im() - span_frac(self.half_im(), num as int),
            v.upper_left.re + v.lower_right.re == 2 * self.center_re(),
            v.upper_left.im + v.lower_right.im == 2 * self.center_im(),
    {
        let half_w = half(self.lower_right.re - self.upper_left.re);
        let half_h = half(self.upper_left.im - self.lower_right.im);
        let center_re = self.upper_left.re + half_w;
        let center_im = self.lower_right.im + half_h;
        let zw = frac(half_w, num);
        let zh = frac(half_h, num);
        proof {
            lemma_frac_at_least_one(half_w as int, num as int);
            lemma_frac_at_least_one(half_h as int, num as int);
        }
        Viewport {
            upper_left: Complex { re: center_re - zw, im: center_im + zh },
            lower_right: Complex { re: center_re + zw, im: center_im - zh },
        }
    }

    /// Zooming in never reaches past its own corners: the viewport that
    /// zoom_in yields lies inside the one it started from.
    pub proof fn lemma_zoom_in_shrinks(self)
        requires
            self.wf(),
            self.span_re() >= 4,
            self.span_im() >= 4,
        ensures
            self.center_re() + span_frac(self.half_re(), ZOOM_IN_NUM as int) <= self.lower_right.re,
            self.center_re() - span_frac(self.half_re(), ZOOM_IN_NUM as int) >= self.upper_left.re,
            self.center_im() + span_frac(self.half_im(), ZOOM_IN_NUM as int) <= self.upper_left.im,
            self.center_im() - span_frac(self.half_im(), ZOOM_IN_NUM as int) >= self.lower_right.im,
    {
        lemma_frac_le_value(self.half_re(), ZOOM_IN_NUM as int);
        lemma_frac_le_value(self.half_im(), ZOOM_IN_NUM as int);
        lemma_half_halves(self.span_re());
        lemma_half_halves(self.span_im());
    }
}

/// A truncated fraction of a nonnegative value is at most the value itself
/// when the numerator stays at or below the denominator.
proof fn lemma_frac_le_value(value: int, num: int)
    requires
        0 <= value,
        0 < num <= 100,
    ensures
        0 <= span_frac(value, num) <= value,
{
    lemma_div_pos_is_pos(value * num, 100);
    assert(value * num <= value * 100) by (nonlinear_arith)
        requires 0 <= value && num <= 100;
    lemma_div_is_ordered(value * num, value * 100, 100);
    lemma_div_multiples_vanish(value, 100);
    assert(value * 100 == 100 * value) by (nonlinear_arith);
}

/// With a half-span of at least 2, a zoom factor of at least 90% keeps at
/// least one tick of half-span, so the zoomed viewport stays a rectangle.
proof fn lemma_frac_at_least_one(value: int, num: int)
    requires
        2 <= value,
        90 <= num,
    ensures
        span_frac(value, num) >= 1,
{
    assert(value * num >= 180) by (nonlinear_arith)
        requires 2 <= value && 90 <= num;
    lemma_div_is_ordered(180, value * num, 100);
}

/// Half a span, truncated: `span / 2`.
proof fn lemma_half_halves(span: int)
    requires
        0 <= span,
    ensures
        span / 2 + span / 2 <= span,
        0 <= span / 2,
{
    lemma_div_pos_is_pos(span, 2);
    assert(span == 2 * (span / 2) + span % 2 && 0 <= span % 2 < 2) by {
        vstd::arithmetic::div_mod::lemma_fundamental_div_mod(span, 2);
        vstd::arithmetic::div_mod::lemma_mod_division_less_than_divisor(span, 2);
    }
}

/// Truncating halving of a nonnegative span.
fn half(span: i64) -> (h: i64)
    requires
        0 <= span,
    ensures
        h == (span as int) / 2,
{
    proof {
        lemma_div_pos_is_pos(span as int, 2);
        lemma_div_nonincreasing(span as int, 2);
    }
    ((span as u128) / 2) as i64
}

/// The truncated fraction `value * num / 100` of a nonnegative span.
fn frac(value: i64, num: i64) -> (f: i64)
    requires
        0 <= value <= 562949953421312,
        1 <= num <= 110,
    ensures
        f == span_frac(value as int, num as int),
{
    proof {
        assert(0 <= (value as int) * (num as int) <= 562949953421312int * 110) by (nonlinear_arith)
            requires 0 <= value as int <= 562949953421312 && 1 <= num as int <= 110;
        lemma_div_pos_is_pos((value as int) * (num as int), 100);
        lemma_div_is_ordered((value as int) * (num as int), 562949953421312int * 110, 100);
    }
    (((value as u128) * (num as u128)) / 100) as i64
}

} // verus!
