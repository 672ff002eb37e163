use mandelbrot::complex::SCALE;
use mandelbrot::viewport::{PanDirection, Viewport};

const S: i64 = SCALE;

#[test]
fn reset_gives_home_viewport() {
    let v = Viewport::reset();
    assert_eq!(v.upper_left.re, -S);
    assert_eq!(v.upper_left.im, S);
    assert_eq!(v.lower_right.re, S);
    assert_eq!(v.lower_right.im, -S);
}

#[test]
fn pan_moves_both_corners_by_five_percent() {
    let v = Viewport::reset();
    // 5% of the span 2 is 0.1 plane units: 429496729 ticks (truncated).
    let step = (2 * S) * 5 / 100;
    let right = v.pan(PanDirection::Right);
    assert_eq!(right.upper_left.re, -S + step);
    assert_eq!(right.lower_right.re, S + step);
    assert_eq!(right.upper_left.im, S);
    assert_eq!(right.lower_right.im, -S);

    let up = v.pan(PanDirection::Up);
    assert_eq!(up.upper_left.im, S + step);
    assert_eq!(up.lower_right.im, -S + step);
    assert_eq!(up.upper_left.re, -S);

    let down = v.pan(PanDirection::Down);
    assert_eq!(down.upper_left.im, S - step);
    let left = v.pan(PanDirection::Left);
    assert_eq!(left.upper_left.re, -S - step);
}

#[test]
fn pan_preserves_spans() {
    let v = Viewport::reset();
    for dir in [PanDirection::Up, PanDirection::Down, PanDirection::Left, PanDirection::Right] {
        let moved = v.pan(dir);
        assert_eq!(
            moved.lower_right.re - moved.upper_left.re,
            v.lower_right.re - v.upper_left.re,
        );
        assert_eq!(
            moved.upper_left.im - moved.lower_right.im,
            v.upper_left.im - v.lower_right.im,
        );
    }
}

#[test]
fn zoom_keeps_the_midpoint() {
    let v = Viewport::reset();
    let zin = v.zoom_in();
    assert_eq!(zin.upper_left.re + zin.lower_right.re, 0);
    assert_eq!(zin.upper_left.im + zin.lower_right.im, 0);
    let zout = v.zoom_out();
    assert_eq!(zout.upper_left.re + zout.lower_right.re, 0);
    assert_eq!(zout.upper_left.im + zout.lower_right.im, 0);

    // Also away from the origin: midpoint of the panned viewport stays put.
    let moved = v.pan(PanDirection::Right);
    let c2_before = moved.upper_left.re + moved.lower_right.re;
    let zm = moved.zoom_in();
    assert_eq!(zm.upper_left.re + zm.lower_right.re, c2_before);
}

#[test]
fn zoom_in_scales_half_spans_to_ninety_percent() {
    let v = Viewport::reset();
    let zin = v.zoom_in();
    // Half-span 1 unit shrinks to 0.9 units on each side of the center.
    let expected = S * 90 / 100;
    assert_eq!(zin.lower_right.re - zin.upper_left.re, 2 * expected);
    assert_eq!(zin.upper_left.im - zin.lower_right.im, 2 * expected);
}

#[test]
fn zoom_out_scales_half_spans_to_hundred_ten_percent() {
    let v = Viewport::reset();
    let zout = v.zoom_out();
    let expected = S * 110 / 100;
    assert_eq!(zout.lower_right.re - zout.upper_left.re, 2 * expected);
    assert_eq!(zout.upper_left.im - zout.lower_right.im, 2 * expected);
}
