use vstd::prelude::*;
use vstd::arithmetic::div_mod::{
    lemma_div_by_self, lemma_div_decreases, lemma_div_is_ordered, lemma_div_pos_is_pos,
    lemma_mod_multiples_basic, lemma_small_mod,
};
use crate::complex::Complex;
use crate::mapper::{bounds_ok, mapped_point, pixel_to_point, viewport_ok};
use crate::render::{byte_at, render_seq, render_rows, rows_seq, PixelFormat};

verus! {

/// One horizontal strip of the image: a contiguous row range
/// `[top, top + height)`. Bands exist only for the duration of one render
/// pass.
#[derive(Clone, Copy, PartialEq, Eq, Structural, Debug)]
pub struct Band {
    pub top: usize,
    pub height: usize,
}

/// Rows per band when an image of `height` rows is split for `workers`
/// workers: the ceiling of `height / workers`.
pub open spec fn rows_per_band(height: int, workers: int) -> int {
    if height % workers == 0 {
        height / workers
    } else {
        height / workers + 1
    }
}

/// The bands are a partition of the row range `[0, height)` into contiguous
/// nonempty strips: the first starts at row 0, each next band starts where
/// the previous one ended, and the last ends exactly at `height`.
pub open spec fn partitioned(bands: Seq<Band>, height: int) -> bool {
    &&& bands.len() >= 1
    &&& bands[0].top == 0
    &&& (forall|i: int| 0 <= i < bands.len() ==> (#[trigger] bands[i]).height > 0)
    &&& (forall|i: int| #![trigger bands[i]] 1 <= i < bands.len()
            ==> bands[i].top == bands[i - 1].top + bands[i - 1].height)
    &&& bands[bands.len() - 1].top + bands[bands.len() - 1].height == height
}

/// An earlier band ends no later than a later band begins.
pub proof fn lemma_band_order(bands: Seq<Band>, height: int, i: int, j: int)
    requires
        partitioned(bands, height),
        0 <= i < j < bands.len(),
    ensures
        bands[i].top + bands[i].height <= bands[j].top,
    decreases j - i,
{
    if i + 1 < j {
        lemma_band_order(bands, height, i, j - 1);
    }
}

/// Every band lies inside the image's row range.
pub proof fn lemma_band_within(bands: Seq<Band>, height: int, i: int)
    requires
        partitioned(bands, height),
        0 <= i < bands.len(),
    ensures
        0 <= bands[i].top,
        bands[i].top + bands[i].height <= height,
{
    if i > 0 {
        lemma_band_order(bands, height, 0, i);
    }
    if i < bands.len() - 1 {
        lemma_band_order(bands, height, i, bands.len() - 1);
    }
}

/// Finds the band a row belongs to.
proof fn lemma_band_for_row(bands: Seq<Band>, height: int, row: int) -> (i: int)
    requires
        partitioned(bands, height),
        0 <= row < height,
    ensures
        0 <= i < bands.len(),
        bands[i].top <= row < bands[i].top + bands[i].height,
    decreases bands.len(),
{
    let n = bands.len() as int;
    if row >= bands[n - 1].top {
        n - 1
    } else {
        let sub = bands.drop_last();
        assert(bands[0].top == 0 <= row);
        assert(n >= 2);
        assert(sub.len() == n - 1);
        assert(forall|k: int| 0 <= k < n - 1 ==> sub[k] == bands[k]);
        assert(partitioned(sub, bands[n - 1].top as int));
        lemma_band_for_row(sub, bands[n - 1].top as int, row)
    }
}

/// The bands of a partition exactly tile the row range `[0, height)`:
/// every row of the image lies in exactly one band, with no gap and no
/// overlap.
pub proof fn lemma_partition_disjoint_cover(bands: Seq<Band>, height: int, row: int)
    requires
        partitioned(bands, height),
        0 <= row < height,
    ensures
        exists|i: int| 0 <= i < bands.len()
            && (#[trigger] bands[i]).top <= row < bands[i].top + bands[i].height,
        forall|i: int, j: int|
            0 <= i < bands.len() && (#[trigger] bands[i]).top <= row < bands[i].top + bands[i].height
            && 0 <= j < bands.len() && (#[trigger] bands[j]).top <= row < bands[j].top + bands[j].height
            ==> i == j,
{
    let w = lemma_band_for_row(bands, height, row);
    assert(0 <= w < bands.len() && (bands[w]).top <= row < bands[w].top + bands[w].height);
    assert forall|i: int, j: int|
        0 <= i < bands.len() && (#[trigger] bands[i]).top <= row < bands[i].top + bands[i].height
        && 0 <= j < bands.len() && (#[trigger] bands[j]).top <= row < bands[j].top + bands[j].height
        implies i == j by {
        if i < j {
            lemma_band_order(bands, height, i, j);
        }
        if j < i {
            lemma_band_order(bands, height, j, i);
        }
    }
}

/// Splits `height` rows into contiguous bands of `ceil(height / workers)`
/// rows each, except that the last band receives whatever remainder is
/// left.
pub fn partition(height: usize, workers: usize) -> (bands: Vec<Band>)
    requires
        1 <= height,
        1 <= workers,
    ensures
        partitioned(bands@, height as int),
        forall|i: int| 0 <= i < bands@.len()
            ==> (#[trigger] bands@[i]).height <= rows_per_band(height as int, workers as int),
        forall|i: int| 0 <= i < bands@.len() - 1
            ==> (#[trigger] bands@[i]).height == rows_per_band(height as int, workers as int),
{
    let mut rpb: usize = height / workers;
    if height % workers != 0 {
        proof {
            if workers == 1 {
                lemma_mod_multiples_basic(height as int, 1);
                assert((height as int) * 1 == height as int) by (nonlinear_arith);
            }
            lemma_div_decreases(height as int, workers as int);
        }
        rpb = rpb + 1;
    }
    proof {
        lemma_div_pos_is_pos(height as int, workers as int);
        if height >= workers {
            lemma_div_by_self(workers as int);
            lemma_div_is_ordered(workers as int, height as int, workers as int);
        } else {
            lemma_small_mod(height as nat, workers as nat);
        }
        assert(rpb >= 1);
    }
    let mut bands: Vec<Band> = Vec::new();
    let mut top: usize = 0;
    while top < height
        invariant
            1 <= rpb == rows_per_band(height as int, workers as int),
            top <= height,
            bands@.len() == 0 ==> top == 0,
            bands@.len() >= 1 ==> bands@[0].top == 0,
            forall|i: int| 0 <= i < bands@.len()
                ==> 0 < (#[trigger] bands@[i]).height <= rpb,
            forall|i: int| #![trigger bands@[i]] 1 <= i < bands@.len()
                ==> bands@[i].top == bands@[i - 1].top + bands@[i - 1].height,
            bands@.len() >= 1 ==> bands@[bands@.len() - 1].top
                + bands@[bands@.len() - 1].height == top,
            forall|i: int| 0 <= i < bands@.len() - 1
                ==> (#[trigger] bands@[i]).height == rpb,
            top < height ==> (forall|i: int| 0 <= i < bands@.len()
                ==> (#[trigger] bands@[i]).height == rpb),
        decreases height - top,
    {
        let remaining = height - top;
        if remaining <= rpb {
            bands.push(Band { top, height: remaining });
            top = height;
        } else {
            bands.push(Band { top, height: rpb });
            top = top + rpb;
        }
    }
    bands
}

/// Derives a band's own viewport corners by mapping its corner pixels
/// through the full-image bounds and viewport: pixel `(0, top)` gives the
/// band's upper-left corner and pixel `(width, top + band_height)` its
/// lower-right corner.
pub fn band_corners(
    bounds: (usize, usize),
    upper_left: Complex,
    lower_right: Complex,
    top: usize,
    band_height: usize,
) -> (corners: (Complex, Complex))
    requires
        bounds_ok(bounds),
        viewport_ok(upper_left, lower_right),
        top + band_height <= bounds.1,
    ensures
        corners.0 == mapped_point(bounds, 0, top as int, upper_left, lower_right),
        corners.1 == mapped_point(bounds, bounds.0 as int, top + band_height,
            upper_left, lower_right),
{
    let a = pixel_to_point(bounds, (0, top), upper_left, lower_right);
    let b = pixel_to_point(bounds, (bounds.0, top + band_height), upper_left, lower_right);
    (a, b)
}

/// Relies on crossbeam::scope, Scope::spawn and ScopedJoinHandle::join:
/// the scope waits for every spawned thread before it returns, and each
/// join hands back exactly the value its closure returned — here the bytes
/// that the verified band renderer produced for that band.
#[verifier::external_body]
fn run_bands(
    bounds: (usize, usize),
    upper_left: Complex,
    lower_right: Complex,
    fmt: PixelFormat,
    bands: &Vec<Band>,
) -> (outs: Vec<Vec<u8>>)
    requires
        bounds_ok(bounds),
        viewport_ok(upper_left, lower_right),
        forall|i: int| 0 <= i < bands@.len()
            ==> (#[trigger] bands@[i]).top + bands@[i].height <= bounds.1,
    ensures
        outs@.len() == bands@.len(),
        forall|i: int| 0 <= i < bands@.len()
            ==> (#[trigger] outs@[i])@ == rows_seq(bounds, upper_left, lower_right, fmt,
                bands@[i].top as int, bands@[i].height as int),
{
    crossbeam::scope(|spawner| {
        let handles: Vec<_> = bands
            .iter()
            .map(|band| spawner.spawn(move |_| {
                render_rows(bounds, upper_left, lower_right, fmt, band.top, band.height)
            }))
            .collect();
        handles.into_iter().map(|handle| handle.join().unwrap()).collect()
    }).unwrap()
}

/// Renders the whole image into the caller's buffer: partitions the rows
/// into bands, renders every band on its own worker thread, and copies each
/// band's bytes into the band's own disjoint region of the buffer. The
/// buffer afterwards holds exactly the bytes of `render_seq`, whatever the
/// worker count: partitioning never changes the output.
pub fn render_pass(
    pixels: &mut Vec<u8>,
    bounds: (usize, usize),
    upper_left: Complex,
    lower_right: Complex,
    fmt: PixelFormat,
    workers: usize,
)
    requires
        bounds_ok(bounds),
        viewport_ok(upper_left, lower_right),
        1 <= workers,
        old(pixels).len() == bounds.0 * bounds.1 * fmt.bpp(),
    ensures
        final(pixels)@ == render_seq(bounds, upper_left, lower_right, fmt),
{
    let ghost wi = bounds.0 as int;
    let ghost hi = bounds.1 as int;
    let ghost bi = fmt.bpp();
    let bands = partition(bounds.1, workers);
    proof {
        assert forall|i: int| 0 <= i < bands@.len()
            implies (#[trigger] bands@[i]).top + bands@[i].height <= bounds.1 by {
            lemma_band_within(bands@, hi, i);
        }
        assert(wi * hi * bi == hi * wi * bi) by (nonlinear_arith);
    }
    let outs = run_bands(bounds, upper_left, lower_right, fmt, &bands);
    let buffer_len = pixels.len();
    let mut cursor: usize = 0;
    let mut b: usize = 0;
    while b < bands.len()
        invariant
            buffer_len == pixels@.len(),
            bounds_ok(bounds),
            viewport_ok(upper_left, lower_right),
            wi == bounds.0 as int && hi == bounds.1 as int && bi == fmt.bpp(),
            partitioned(bands@, hi),
            outs@.len() == bands@.len(),
            forall|i: int| 0 <= i < bands@.len()
                ==> (#[trigger] outs@[i])@ == rows_seq(bounds, upper_left, lower_right, fmt,
                    bands@[i].top as int, bands@[i].height as int),
            pixels@.len() == old(pixels)@.len(),
            pixels@.len() == hi * wi * bi,
            b <= bands@.len(),
            cursor == (if b < bands@.len() { bands@[b as int].top as int } else { hi }) * wi * bi,
            cursor <= pixels@.len(),
            forall|m: int| 0 <= m < cursor
                ==> pixels@[m] == byte_at(bounds, upper_left, lower_right, fmt, m),
        decreases bands@.len() - b,
    {
        let ghost top = bands@[b as int].top as int;
        let ghost bh = bands@[b as int].height as int;
        proof {
            lemma_band_within(bands@, hi, b as int);
            assert((top + bh) * wi * bi <= hi * wi * bi) by (nonlinear_arith)
                requires 0 <= top + bh <= hi && wi > 0 && bi > 0;
            assert((top + bh) * wi * bi == top * wi * bi + bh * (wi * bi)) by (nonlinear_arith);
            assert(bh * wi * bi == bh * (wi * bi)) by (nonlinear_arith);
        }
        let band_bytes = &outs[b];
        let band_len = band_bytes.len();
        let mut k: usize = 0;
        while k < band_len
            invariant
                buffer_len == pixels@.len(),
                bounds_ok(bounds),
                viewport_ok(upper_left, lower_right),
                wi == bounds.0 as int && hi == bounds.1 as int && bi == fmt.bpp(),
                pixels@.len() == old(pixels)@.len(),
                pixels@.len() == hi * wi * bi,
                band_bytes@ == rows_seq(bounds, upper_left, lower_right, fmt, top, bh),
                band_len == band_bytes@.len(),
                cursor == top * wi * bi,
                cursor + band_len <= pixels@.len(),
                k <= band_len,
                forall|m: int| 0 <= m < cursor + k
                    ==> pixels@[m] == byte_at(bounds, upper_left, lower_right, fmt, m),
            decreases band_len - k,
        {
            let v = band_bytes[k];
            pixels[cursor + k] = v;
            k = k + 1;
        }
        proof {
            assert((top + bh) * wi * bi == top * wi * bi + bh * (wi * bi)) by (nonlinear_arith);
            if b + 1 < bands@.len() {
                assert(bands@[b as int + 1].top == top + bh);
            }
        }
        cursor = cursor + band_len;
        b = b + 1;
    }
    proof {
        assert(pixels@ =~= render_seq(bounds, upper_left, lower_right, fmt));
    }
}

/// The rendered image is a function of the bounds, the viewport and the
/// pixel format alone — never of the worker count: any two buffers filled
/// by a render pass over the same image agree byte for byte, however many
/// workers each pass used.
pub proof fn lemma_worker_count_immaterial(
    buf1: Seq<u8>,
    buf2: Seq<u8>,
    bounds: (usize, usize),
    upper_left: Complex,
    lower_right: Complex,
    fmt: PixelFormat,
)
    requires
        buf1 == render_seq(bounds, upper_left, lower_right, fmt),
        buf2 == render_seq(bounds, upper_left, lower_right, fmt),
    ensures
        buf1 == buf2,
{
}

} // verus!
