use mandelbrot::complex::{Complex, SCALE};
use mandelbrot::parallel::{band_corners, partition};
use mandelbrot::mapper::pixel_to_point;

const S: i64 = SCALE;

// Checks that the bands exactly tile [0, height): contiguous, nonempty,
// starting at 0 and ending at height.
fn assert_tiles(height: usize, workers: usize) {
    let bands = partition(height, workers);
    assert!(!bands.is_empty());
    assert_eq!(bands[0].top, 0);
    let mut expected_top = 0usize;
    for band in &bands {
        assert_eq!(band.top, expected_top);
        assert!(band.height > 0);
        expected_top += band.height;
    }
    assert_eq!(expected_top, height);
}

#[test]
fn partition_covers_without_gap_or_overlap() {
    assert_tiles(1000, 16);
    assert_tiles(1, 1);
    assert_tiles(1, 16);
    assert_tiles(16, 16);
    assert_tiles(17, 16);
    assert_tiles(5, 2);
    assert_tiles(1000, 7);
    assert_tiles(65536, 13);
}

#[test]
fn partition_band_sizes_are_ceiling() {
    // ceil(1000 / 16) = 63 rows per band; the last band takes the rest.
    let bands = partition(1000, 16);
    for band in &bands[..bands.len() - 1] {
        assert_eq!(band.height, 63);
    }
    assert_eq!(bands.len(), 16);
    assert_eq!(bands[15].top, 945);
    assert_eq!(bands[15].height, 55);

    // An even split has no remainder band.
    let even = partition(16, 4);
    assert_eq!(even.len(), 4);
    for band in &even {
        assert_eq!(band.height, 4);
    }
}

#[test]
fn band_corners_come_from_the_full_image_mapper() {
    let ul = Complex { re: -S, im: S };
    let lr = Complex { re: S, im: -S };
    let bounds = (100, 200);
    let (a, b) = band_corners(bounds, ul, lr, 50, 25);
    assert_eq!(a, pixel_to_point(bounds, (0, 50), ul, lr));
    assert_eq!(b, pixel_to_point(bounds, (100, 75), ul, lr));

    // The first band's upper-left corner is the viewport's own.
    let (first, _) = band_corners(bounds, ul, lr, 0, 25);
    assert_eq!(first, ul);
}
