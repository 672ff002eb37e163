use mandelbrot::complex::{Complex, SCALE};
use mandelbrot::escape::escape_time;

const S: i64 = SCALE;

#[test]
fn origin_never_escapes() {
    let origin = Complex { re: 0, im: 0 };
    assert_eq!(escape_time(origin, 1), None);
    assert_eq!(escape_time(origin, 255), None);
    assert_eq!(escape_time(origin, 100000), None);
}

#[test]
fn two_plus_two_i_escapes_immediately() {
    // z starts at 0 and is checked before each step, so the first check
    // that can fire sees z = c itself, at index 1: |2+2i|^2 = 8 > 4.
    let c = Complex { re: 2 * S, im: 2 * S };
    assert_eq!(escape_time(c, 255), Some(1));
}

#[test]
fn one_plus_i_escapes_at_two() {
    // z1 = 1+1i (norm 2), z2 = (1+1i)^2 + c = 1+3i (norm 10 > 4).
    let c = Complex { re: S, im: S };
    assert_eq!(escape_time(c, 255), Some(2));
}

#[test]
fn minus_one_is_a_member() {
    // c = -1 cycles between -1 and 0 forever.
    let c = Complex { re: -S, im: 0 };
    assert_eq!(escape_time(c, 255), None);
}

#[test]
fn escape_time_is_deterministic() {
    let points = [
        Complex { re: -S, im: S },
        Complex { re: S / 3, im: -S / 7 },
        Complex { re: 2 * S, im: 2 * S },
        Complex { re: 0, im: 0 },
    ];
    for c in points {
        assert_eq!(escape_time(c, 255), escape_time(c, 255));
        assert_eq!(escape_time(c, 37), escape_time(c, 37));
    }
}

#[test]
fn zero_limit_never_escapes() {
    let c = Complex { re: 2 * S, im: 2 * S };
    assert_eq!(escape_time(c, 0), None);
}
