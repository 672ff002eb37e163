use mandelbrot::complex::{Complex, SCALE};
use mandelbrot::mapper::pixel_to_point;

// One plane unit in fixed-point ticks.
const S: i64 = SCALE;

#[test]
fn test_pixel_to_point() {
    assert_eq!(
        pixel_to_point(
            (100, 200),
            (25, 175),
            Complex { re: -S, im: S },
            Complex { re: S, im: -S },
        ),
        // Exactly (-0.5, -0.75) in plane units.
        Complex { re: -S / 2, im: -(3 * S) / 4 },
    );
}

#[test]
fn pixel_zero_maps_to_upper_left() {
    let ul = Complex { re: -S, im: S };
    let lr = Complex { re: S, im: -S };
    assert_eq!(pixel_to_point((100, 200), (0, 0), ul, lr), ul);

    let ul2 = Complex { re: -3 * S, im: 2 * S };
    let lr2 = Complex { re: S / 2, im: -S / 4 };
    assert_eq!(pixel_to_point((640, 480), (0, 0), ul2, lr2), ul2);
}

#[test]
fn pixel_bounds_maps_to_lower_right() {
    let ul = Complex { re: -S, im: S };
    let lr = Complex { re: S, im: -S };
    assert_eq!(pixel_to_point((100, 200), (100, 200), ul, lr), lr);

    let ul2 = Complex { re: -3 * S, im: 2 * S };
    let lr2 = Complex { re: S / 2, im: -S / 4 };
    assert_eq!(pixel_to_point((640, 480), (640, 480), ul2, lr2), lr2);
}

#[test]
fn mapper_row_zero_is_top() {
    // Row 0 carries the largest imaginary value; the bottom row border the
    // smallest: the axis flip between screen space and plane space.
    let ul = Complex { re: -S, im: S };
    let lr = Complex { re: S, im: -S };
    let top = pixel_to_point((10, 10), (5, 0), ul, lr);
    let bottom = pixel_to_point((10, 10), (5, 10), ul, lr);
    assert_eq!(top.im, S);
    assert_eq!(bottom.im, -S);
    assert!(top.im > bottom.im);
}
