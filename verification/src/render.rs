use vstd::prelude::*;
use vstd::arithmetic::div_mod::{
    lemma_fundamental_div_mod_converse_div, lemma_fundamental_div_mod_converse_mod,
};
use crate::complex::Complex;
use crate::escape::{escape_spec, escape_time, ESCAPE_LIMIT};
use crate::mapper::{bounds_ok, mapped_point, pixel_to_point, viewport_ok};

verus! {

/// How one pixel is laid out in the buffer.
#[derive(Clone, Copy, PartialEq, Eq, Structural, Debug)]
pub enum PixelFormat {
    /// One byte per pixel: the intensity itself, for grayscale file output.
    Gray,
    /// Four bytes per pixel, for display frames: a leading unused byte that
    /// is always 0, then the intensity replicated into the three remaining
    /// channels.
    Xrgb,
}

impl PixelFormat {
    /// Bytes each pixel occupies in the buffer.
    pub open spec fn bpp(self) -> int {
        match self {
            PixelFormat::Gray => 1,
            PixelFormat::Xrgb => 4,
        }
    }

    pub fn bytes_per_pixel(self) -> (n: usize)
        ensures
            n == self.bpp(),
    {
        match self {
            PixelFormat::Gray => 1,
            PixelFormat::Xrgb => 4,
        }
    }
}

/// Intensity of an escape result: 0 (black, a member of the set) when the
/// point never escaped, else `255 - count`.
pub open spec fn shade_spec(e: Option<usize>) -> u8 {
    match e {
        None => 0u8,
        Some(n) => (255 - n) as u8,
    }
}

/// Converts an escape result to its intensity byte.
pub fn shade(e: Option<usize>) -> (s: u8)
    requires
        e matches Some(n) ==> n < 256,
    ensures
        s == shade_spec(e),
{
    match e {
        None => 0,
        Some(n) => (255 - n) as u8,
    }
}

/// The intensity of pixel (col, row) of the image: map the pixel to its
/// complex point, evaluate the escape time, convert to a shade.
pub open spec fn shade_at(
    bounds: (usize, usize),
    upper_left: Complex,
    lower_right: Complex,
    col: int,
    row: int,
) -> u8 {
    shade_spec(escape_spec(mapped_point(bounds, col, row, upper_left, lower_right), ESCAPE_LIMIT))
}

/// The bytes one pixel contributes to the buffer.
pub open spec fn pixel_bytes(fmt: PixelFormat, s: u8) -> Seq<u8> {
    match fmt {
        PixelFormat::Gray => seq![s],
        PixelFormat::Xrgb => seq![0u8, s, s, s],
    }
}

/// Byte `k` of the fully rendered image, row-major: pixel index `k / bpp`,
/// channel `k % bpp`, and within the pixel grid column `pix % width` and
/// row `pix / width`.
pub open spec fn byte_at(
    bounds: (usize, usize),
    upper_left: Complex,
    lower_right: Complex,
    fmt: PixelFormat,
    k: int,
) -> u8 {
    let bpp = fmt.bpp();
    let pix = k / bpp;
    let chan = k % bpp;
    let col = pix % (bounds.0 as int);
    let row = pix / (bounds.0 as int);
    if fmt is Xrgb && chan == 0 {
        0u8
    } else {
        shade_at(bounds, upper_left, lower_right, col, row)
    }
}

/// The bytes of `nrows` image rows starting at absolute row `top`,
/// in row-major order.
pub open spec fn rows_seq(
    bounds: (usize, usize),
    upper_left: Complex,
    lower_right: Complex,
    fmt: PixelFormat,
    top: int,
    nrows: int,
) -> Seq<u8> {
    Seq::new(
        (nrows * bounds.0 * fmt.bpp()) as nat,
        |k: int| byte_at(bounds, upper_left, lower_right, fmt,
            top * (bounds.0 as int) * fmt.bpp() + k),
    )
}

/// Every byte of the fully rendered image.
pub open spec fn render_seq(
    bounds: (usize, usize),
    upper_left: Complex,
    lower_right: Complex,
    fmt: PixelFormat,
) -> Seq<u8> {
    rows_seq(bounds, upper_left, lower_right, fmt, 0, bounds.1 as int)
}

/// The bytes of the pixel at (col, row) sit at offset
/// `((row * width) + col) * bpp` of the image, channel by channel.
proof fn lemma_pixel_bytes_match(
    bounds: (usize, usize),
    upper_left: Complex,
    lower_right: Complex,
    fmt: PixelFormat,
    row: int,
    col: int,
)
    requires
        bounds_ok(bounds),
        0 <= col < bounds.0,
        0 <= row,
    ensures
        forall|chan: int| 0 <= chan < fmt.bpp()
            ==> #[trigger] pixel_bytes(fmt, shade_at(bounds, upper_left, lower_right, col, row))[chan]
                == byte_at(bounds, upper_left, lower_right, fmt,
                    (row * (bounds.0 as int) + col) * fmt.bpp() + chan),
{
    let w = bounds.0 as int;
    let bpp = fmt.bpp();
    let pix = row * w + col;
    assert forall|chan: int| 0 <= chan < bpp
        implies pixel_bytes(fmt, shade_at(bounds, upper_left, lower_right, col, row))[chan]
            == byte_at(bounds, upper_left, lower_right, fmt, pix * bpp + chan) by {
        let kk = pix * bpp + chan;
        lemma_fundamental_div_mod_converse_div(kk, bpp, pix, chan);
        lemma_fundamental_div_mod_converse_mod(kk, bpp, pix, chan);
        lemma_fundamental_div_mod_converse_div(pix, w, row, col);
        lemma_fundamental_div_mod_converse_mod(pix, w, row, col);
        assert(kk / bpp == pix && kk % bpp == chan);
        assert(pix / w == row && pix % w == col);
    }
}

/// Appends the bytes of one pixel of intensity `s` to the buffer.
fn push_pixel(out: &mut Vec<u8>, fmt: PixelFormat, s: u8)
    ensures
        final(out)@ == old(out)@ + pixel_bytes(fmt, s),
{
    match fmt {
        PixelFormat::Gray => {
            out.push(s);
        }
        PixelFormat::Xrgb => {
            out.push(0);
            out.push(s);
            out.push(s);
            out.push(s);
        }
    }
    proof {
        assert(out@ =~= old(out)@ + pixel_bytes(fmt, s));
    }
}

/// Renders `nrows` rows of the image starting at absolute row `top`,
/// against the full-image bounds and viewport, and returns their bytes in
/// row-major order. This is the unit of work one band of a render pass
/// performs.
pub fn render_rows(
    bounds: (usize, usize),
    upper_left: Complex,
    lower_right: Complex,
    fmt: PixelFormat,
    top: usize,
    nrows: usize,
) -> (out: Vec<u8>)
    requires
        bounds_ok(bounds),
        viewport_ok(upper_left, lower_right),
        top + nrows <= bounds.1,
    ensures
        out@ == rows_seq(bounds, upper_left, lower_right, fmt, top as int, nrows as int),
{
    let w = bounds.0;
    let bpp = fmt.bytes_per_pixel();
    let base: Ghost<int> = Ghost((top as int) * (w as int) * fmt.bpp());
    let mut out: Vec<u8> = Vec::new();
    let mut r: usize = 0;
    while r < nrows
        invariant
            bounds_ok(bounds),
            viewport_ok(upper_left, lower_right),
            top + nrows <= bounds.1,
            w == bounds.0,
            bpp == fmt.bpp(),
            base@ == (top as int) * (w as int) * fmt.bpp(),
            r <= nrows,
            out@.len() == r * (w as int) * fmt.bpp(),
            forall|m: int| 0 <= m < out@.len()
                ==> out@[m] == byte_at(bounds, upper_left, lower_right, fmt, base@ + m),
        decreases nrows - r,
    {
        let mut col: usize = 0;
        while col < w
            invariant
                bounds_ok(bounds),
                viewport_ok(upper_left, lower_right),
                top + nrows <= bounds.1,
                w == bounds.0,
                bpp == fmt.bpp(),
                base@ == (top as int) * (w as int) * fmt.bpp(),
                r < nrows,
                col <= w,
                out@.len() == (r * (w as int) + col) * fmt.bpp(),
                forall|m: int| 0 <= m < out@.len()
                    ==> out@[m] == byte_at(bounds, upper_left, lower_right, fmt, base@ + m),
            decreases w - col,
        {
            let ghost prev_len = out@.len() as int;
            let point = pixel_to_point(bounds, (col, top + r), upper_left, lower_right);
            let e = escape_time(point, ESCAPE_LIMIT);
            let s = shade(e);
            push_pixel(&mut out, fmt, s);
            proof {
                let wi = w as int;
                let bi = fmt.bpp();
                let ti = top as int;
                let ri = r as int;
                let ci = col as int;
                assert(s == shade_at(bounds, upper_left, lower_right, ci, ti + ri));
                lemma_pixel_bytes_match(bounds, upper_left, lower_right, fmt, ti + ri, ci);
                assert(ti * wi * bi + (ri * wi + ci) * bi == ((ti + ri) * wi + ci) * bi)
                    by (nonlinear_arith);
                assert forall|m: int| 0 <= m < out@.len()
                    implies out@[m] == byte_at(bounds, upper_left, lower_right, fmt, base@ + m) by {
                    if m >= prev_len {
                        let chan = m - prev_len;
                        assert(out@[m]
                            == pixel_bytes(fmt, shade_at(bounds, upper_left, lower_right, ci, ti + ri))[chan]);
                        assert(base@ + m == ((ti + ri) * wi + ci) * bi + chan);
                    }
                }
                assert(((ri * wi) + ci + 1) * bi == (ri * wi + ci) * bi + bi) by (nonlinear_arith);
            }
            col = col + 1;
        }
        proof {
            let wi = w as int;
            let bi = fmt.bpp();
            assert((r as int * wi + wi) * bi == (r as int + 1) * wi * bi) by (nonlinear_arith);
        }
        r = r + 1;
    }
    proof {
        assert(out@ =~= rows_seq(bounds, upper_left, lower_right, fmt, top as int, nrows as int));
    }
    out
}

/// Fills the whole buffer with the rendered image: for every pixel in
/// row-major order, maps it to its complex point, evaluates the escape
/// time, and writes the pixel's byte(s). The buffer length must equal
/// `width * height * bytes_per_pixel` exactly.
pub fn render(
    pixels: &mut Vec<u8>,
    bounds: (usize, usize),
    upper_left: Complex,
    lower_right: Complex,
    fmt: PixelFormat,
)
    requires
        bounds_ok(bounds),
        viewport_ok(upper_left, lower_right),
        old(pixels).len() == bounds.0 * bounds.1 * fmt.bpp(),
    ensures
        final(pixels)@ == render_seq(bounds, upper_left, lower_right, fmt),
{
    let rows = render_rows(bounds, upper_left, lower_right, fmt, 0, bounds.1);
    proof {
        assert((bounds.1 as int) * (bounds.0 as int) * fmt.bpp()
            == (bounds.0 as int) * (bounds.1 as int) * fmt.bpp()) by (nonlinear_arith);
    }
    let mut k: usize = 0;
    while k < pixels.len()
        invariant
            pixels@.len() == old(pixels)@.len(),
            rows@ == render_seq(bounds, upper_left, lower_right, fmt),
            rows@.len() == pixels@.len(),
            k <= pixels@.len(),
            forall|m: int| 0 <= m < k ==> pixels@[m] == rows@[m],
        decreases pixels@.len() - k,
    {
        let v = rows[k];
        pixels[k] = v;
        k = k + 1;
    }
    proof {
        assert(pixels@ =~= render_seq(bounds, upper_left, lower_right, fmt));
    }
}

} // verus!
