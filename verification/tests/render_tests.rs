use mandelbrot::complex::{Complex, SCALE};
use mandelbrot::parallel::render_pass;
use mandelbrot::render::{render, render_rows, shade, PixelFormat};

const S: i64 = SCALE;

fn home() -> (Complex, Complex) {
    (Complex { re: -S, im: S }, Complex { re: S, im: -S })
}

#[test]
fn shade_known_values() {
    assert_eq!(shade(None), 0);
    assert_eq!(shade(Some(0)), 255);
    assert_eq!(shade(Some(1)), 254);
    assert_eq!(shade(Some(254)), 1);
}

#[test]
fn one_pixel_gray() {
    // The single pixel maps to the upper-left corner -1+1i, which escapes
    // at index 3, so the lone byte is 255 - 3.
    let (ul, lr) = home();
    let mut buf = vec![0u8; 1];
    render(&mut buf, (1, 1), ul, lr, PixelFormat::Gray);
    assert_eq!(buf, vec![252u8]);
}

#[test]
fn one_pixel_xrgb_layout() {
    // Four bytes per pixel: a zero lead byte, then the intensity three
    // times over.
    let (ul, lr) = home();
    let mut buf = vec![7u8; 4];
    render(&mut buf, (1, 1), ul, lr, PixelFormat::Xrgb);
    assert_eq!(buf, vec![0u8, 252, 252, 252]);
}

#[test]
fn render_rows_matches_whole_render() {
    let (ul, lr) = home();
    let bounds = (16, 12);
    let mut whole = vec![0u8; 16 * 12];
    render(&mut whole, bounds, ul, lr, PixelFormat::Gray);
    let mut stitched: Vec<u8> = Vec::new();
    stitched.extend_from_slice(&render_rows(bounds, ul, lr, PixelFormat::Gray, 0, 5));
    stitched.extend_from_slice(&render_rows(bounds, ul, lr, PixelFormat::Gray, 5, 4));
    stitched.extend_from_slice(&render_rows(bounds, ul, lr, PixelFormat::Gray, 9, 3));
    assert_eq!(whole, stitched);
}

#[test]
fn parallel_equals_serial() {
    // Partitioning never changes the output: one worker and many workers
    // agree byte for byte, in both pixel formats.
    let (ul, lr) = home();
    let bounds = (32, 23);
    let mut serial = vec![0u8; 32 * 23];
    render_pass(&mut serial, bounds, ul, lr, PixelFormat::Gray, 1);
    for workers in [2usize, 3, 5, 16, 23, 64] {
        let mut parallel = vec![0u8; 32 * 23];
        render_pass(&mut parallel, bounds, ul, lr, PixelFormat::Gray, workers);
        assert_eq!(serial, parallel);
    }
    let mut serial4 = vec![0u8; 32 * 23 * 4];
    render_pass(&mut serial4, bounds, ul, lr, PixelFormat::Xrgb, 1);
    let mut parallel4 = vec![0u8; 32 * 23 * 4];
    render_pass(&mut parallel4, bounds, ul, lr, PixelFormat::Xrgb, 16);
    assert_eq!(serial4, parallel4);
}

#[test]
fn render_pass_matches_single_band_render() {
    // A render pass equals rendering the whole image as one band.
    let (ul, lr) = home();
    let bounds = (20, 15);
    let mut whole = vec![0u8; 20 * 15];
    render(&mut whole, bounds, ul, lr, PixelFormat::Gray);
    let mut passed = vec![0u8; 20 * 15];
    render_pass(&mut passed, bounds, ul, lr, PixelFormat::Gray, 8);
    assert_eq!(whole, passed);
}

#[test]
fn xrgb_lead_byte_is_always_zero() {
    let (ul, lr) = home();
    let bounds = (9, 7);
    let mut buf = vec![255u8; 9 * 7 * 4];
    render_pass(&mut buf, bounds, ul, lr, PixelFormat::Xrgb, 4);
    for px in buf.chunks(4) {
        assert_eq!(px[0], 0);
        assert_eq!(px[1], px[2]);
        assert_eq!(px[2], px[3]);
    }
}
