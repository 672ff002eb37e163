use vstd::prelude::*;
use vstd::arithmetic::div_mod::{lemma_div_is_ordered, lemma_div_multiples_vanish, lemma_div_pos_is_pos};
use crate::complex::{Complex, SCALE};

verus! {

/// The squared escape radius, in fixed-point ticks squared:
/// `4.0 * SCALE * SCALE`, i.e. `|z| > 2` in plane units.
pub const ESCAPE_THRESHOLD: i128 = 73786976294838206464;

/// Iteration limit used by the renderer; kept below 256 so that the
/// intensity `255 - count` always fits in one byte.
pub const ESCAPE_LIMIT: usize = 255;

/// Bound that every iterate of the quadratic recurrence respects while the
/// loop is still running: `4 * SCALE + MAX_COORD` ticks per component.
pub const ITERATE_BOUND: i64 = 281492156579840;

/// Truncating division of a tick product by `SCALE`: rounds toward zero,
/// as the executable code divides magnitudes and reattaches the sign.
pub open spec fn tdiv_scale(n: int) -> int {
    if n >= 0 {
        n / (SCALE as int)
    } else {
        -((-n) / (SCALE as int))
    }
}

/// Real part of one step of the recurrence `z <- z^2 + c` in fixed point.
pub open spec fn step_re(zre: int, zim: int, cre: int) -> int {
    tdiv_scale(zre * zre - zim * zim) + cre
}

/// Imaginary part of one step of the recurrence `z <- z^2 + c` in fixed point.
pub open spec fn step_im(zre: int, zim: int, cim: int) -> int {
    tdiv_scale(2 * zre * zim) + cim
}

/// Squared magnitude of `z`, exact in ticks squared.
pub open spec fn norm_sqr(zre: int, zim: int) -> int {
    zre * zre + zim * zim
}

/// The n-th iterate of `z <- z^2 + c` starting from z = 0.
pub open spec fn z_iter(c: Complex, n: nat) -> (int, int)
    decreases n,
{
    if n == 0 {
        (0int, 0int)
    } else {
        let prev = z_iter(c, (n - 1) as nat);
        (step_re(prev.0, prev.1, c.re as int), step_im(prev.0, prev.1, c.im as int))
    }
}

/// Whether the i-th iterate has left the escape radius.
pub open spec fn escaped_at(c: Complex, i: nat) -> bool {
    norm_sqr(z_iter(c, i).0, z_iter(c, i).1) > ESCAPE_THRESHOLD as int
}

/// The first index in `[i, limit)` whose iterate has escaped, if any.
pub open spec fn escape_from(c: Complex, i: usize, limit: usize) -> Option<usize>
    decreases limit - i,
{
    if i >= limit {
        None
    } else if escaped_at(c, i as nat) {
        Some(i)
    } else {
        escape_from(c, (i + 1) as usize, limit)
    }
}

/// The escape time of `c`: the first iteration index at which the iterate's
/// squared magnitude exceeds the threshold, or `None` if the limit is
/// reached first.
pub open spec fn escape_spec(c: Complex, limit: usize) -> Option<usize> {
    escape_from(c, 0, limit)
}

/// The escape time pins down the whole history: `Some(n)` means the n-th
/// iterate escaped and no earlier one did; `None` means no iterate below
/// the limit ever escaped.
pub proof fn lemma_escape_first(c: Complex, limit: usize)
    ensures
        match escape_spec(c, limit) {
            Some(n) => n < limit && escaped_at(c, n as nat)
                && (forall|j: nat| j < n ==> !escaped_at(c, j)),
            None => forall|j: nat| j < limit ==> !escaped_at(c, j),
        },
{
    lemma_escape_from_first(c, 0, limit);
}

/// The search from `i` finds the first escaped index at or past `i`.
proof fn lemma_escape_from_first(c: Complex, i: usize, limit: usize)
    requires
        i <= limit,
    ensures
        match escape_from(c, i, limit) {
            Some(n) => i <= n < limit && escaped_at(c, n as nat)
                && (forall|j: nat| i <= j < n ==> !escaped_at(c, j)),
            None => forall|j: nat| i <= j < limit ==> !escaped_at(c, j),
        },
    decreases limit - i,
{
    if i < limit && !escaped_at(c, i as nat) {
        lemma_escape_from_first(c, (i + 1) as usize, limit);
    }
}

/// If nothing escaped before `i`, searching from 0 and searching from `i`
/// agree.
pub proof fn lemma_escape_prefix(c: Complex, i: usize, limit: usize)
    requires
        i <= limit,
        forall|j: nat| j < i ==> !escaped_at(c, j),
    ensures
        escape_spec(c, limit) == escape_from(c, i, limit),
    decreases i,
{
    if i > 0 {
        assert(!escaped_at(c, (i - 1) as nat));
        lemma_escape_prefix_step(c, (i - 1) as usize, limit);
        lemma_escape_prefix(c, (i - 1) as usize, limit);
    }
}

/// One unrolling: if index `k` has not escaped, the search from `k` equals
/// the search from `k + 1`.
proof fn lemma_escape_prefix_step(c: Complex, k: usize, limit: usize)
    requires
        k < limit,
        !escaped_at(c, k as nat),
    ensures
        escape_from(c, k, limit) == escape_from(c, (k + 1) as usize, limit),
{
}

/// The escape time is a function of the point and the limit alone: two
/// evaluations with identical arguments give identical results.
pub proof fn lemma_escape_time_deterministic(c: Complex, limit: usize, r1: Option<usize>, r2: Option<usize>)
    requires
        r1 == escape_spec(c, limit),
        r2 == escape_spec(c, limit),
    ensures
        r1 == r2,
{
}

/// Every iterate of the origin is the origin itself: 0 squared plus 0 is 0.
pub proof fn lemma_z_iter_origin(n: nat)
    ensures
        z_iter(Complex { re: 0, im: 0 }, n) == (0int, 0int),
    decreases n,
{
    if n > 0 {
        lemma_z_iter_origin((n - 1) as nat);
        assert(0int * 0int == 0) by (nonlinear_arith);
        assert((0int) / (SCALE as int) == 0);
    }
}

/// The origin never escapes, whatever the limit: it is a member of the set.
pub proof fn lemma_origin_never_escapes(limit: usize)
    ensures
        escape_spec(Complex { re: 0, im: 0 }, limit) is None,
{
    let c = Complex { re: 0, im: 0 };
    assert forall|j: nat| !escaped_at(c, j) by {
        lemma_z_iter_origin(j);
        assert(0int * 0int == 0) by (nonlinear_arith);
    }
    lemma_escape_prefix(c, limit, limit);
}

/// Truncating a bounded product by `SCALE` keeps it within the scaled bound.
proof fn lemma_tdiv_scale_bound(n: int, m: int)
    requires
        0 <= m,
        -m <= n <= m,
    ensures
        -(m / (SCALE as int)) <= tdiv_scale(n) <= m / (SCALE as int),
{
    if n >= 0 {
        lemma_div_pos_is_pos(n, SCALE as int);
        lemma_div_is_ordered(n, m, SCALE as int);
    } else {
        lemma_div_pos_is_pos(-n, SCALE as int);
        lemma_div_is_ordered(-n, m, SCALE as int);
    }
}

/// Squared magnitude of a bounded iterate, computed exactly in `i128`.
fn norm_sqr_exec(zre: i64, zim: i64) -> (n: i128)
    requires
        -ITERATE_BOUND <= zre <= ITERATE_BOUND,
        -ITERATE_BOUND <= zim <= ITERATE_BOUND,
    ensures
        n == norm_sqr(zre as int, zim as int),
{
    proof {
        assert((zre as int) * (zre as int) <= 281492156579840int * 281492156579840int
            && (zre as int) * (zre as int) >= 0) by (nonlinear_arith)
            requires -281492156579840 <= zre as int <= 281492156579840;
        assert((zim as int) * (zim as int) <= 281492156579840int * 281492156579840int
            && (zim as int) * (zim as int) >= 0) by (nonlinear_arith)
            requires -281492156579840 <= zim as int <= 281492156579840;
    }
    let a: i128 = zre as i128;
    let b: i128 = zim as i128;
    a * a + b * b
}

/// Truncating division of a product of ticks by `SCALE`, rounding toward
/// zero: magnitudes are divided as unsigned values and the sign reattached.
fn div_scale(n: i128) -> (q: i128)
    requires
        n > i128::MIN,
    ensures
        q == tdiv_scale(n as int),
{
    if n >= 0 {
        proof {
            lemma_div_pos_is_pos(n as int, SCALE as int);
            lemma_div_is_ordered(n as int, i128::MAX as int, SCALE as int);
        }
        ((n as u128) / (SCALE as u128)) as i128
    } else {
        let m: i128 = -n;
        proof {
            lemma_div_pos_is_pos(m as int, SCALE as int);
            lemma_div_is_ordered(m as int, i128::MAX as int, SCALE as int);
        }
        -(((m as u128) / (SCALE as u128)) as i128)
    }
}

/// Determines the Mandelbrot escape time of a point on the complex plane:
/// simulates `z <- 0; z <- z^2 + c` and returns the first 0-based iteration
/// index at which the squared magnitude of `z` exceeds the escape threshold
/// (checked before each step), or `None` when `limit` iterations pass
/// without an escape.
pub fn escape_time(c: Complex, limit: usize) -> (r: Option<usize>)
    requires
        c.in_range(),
    ensures
        r == escape_spec(c, limit),
        r matches Some(n) ==> n < limit,
{
    let mut zre: i64 = 0;
    let mut zim: i64 = 0;
    let mut i: usize = 0;
    while i < limit
        invariant
            c.in_range(),
            i <= limit,
            (zre as int, zim as int) == z_iter(c, i as nat),
            -ITERATE_BOUND <= zre <= ITERATE_BOUND,
            -ITERATE_BOUND <= zim <= ITERATE_BOUND,
            escape_spec(c, limit) == escape_from(c, i, limit),
        decreases limit - i,
    {
        let n = norm_sqr_exec(zre, zim);
        if n > ESCAPE_THRESHOLD {
            assert(escaped_at(c, i as nat));
            return Some(i);
        }
        assert(!escaped_at(c, i as nat));
        proof {
            lemma_escape_prefix_step(c, i, limit);
        }
        let a: i128 = zre as i128;
        let b: i128 = zim as i128;
        proof {
            assert(a * a >= 0 && b * b >= 0 && a * a + b * b == norm_sqr(zre as int, zim as int))
                by (nonlinear_arith)
                requires a == zre as int && b == zim as int;
            assert(2 * (a * b) <= a * a + b * b && -(a * a + b * b) <= 2 * (a * b))
                by (nonlinear_arith);
            lemma_tdiv_scale_bound((a * a - b * b) as int, ESCAPE_THRESHOLD as int);
            lemma_tdiv_scale_bound((2 * (a * b)) as int, ESCAPE_THRESHOLD as int);
            lemma_div_multiples_vanish(4 * (SCALE as int), SCALE as int);
            assert((SCALE as int) * (4 * (SCALE as int)) == 4 * (SCALE as int) * (SCALE as int))
                by (nonlinear_arith);
        }
        let re_num: i128 = a * a - b * b;
        let im_num: i128 = 2 * (a * b);
        let new_re: i128 = div_scale(re_num) + (c.re as i128);
        let new_im: i128 = div_scale(im_num) + (c.im as i128);
        proof {
            let prev = z_iter(c, i as nat);
            assert(a == prev.0 && b == prev.1);
            assert(z_iter(c, (i + 1) as nat) == (
                step_re(prev.0, prev.1, c.re as int),
                step_im(prev.0, prev.1, c.im as int),
            ));
            assert(new_re == step_re(prev.0, prev.1, c.re as int));
            assert(2 * (a * b) == 2 * prev.0 * prev.1) by (nonlinear_arith)
                requires a == prev.0 && b == prev.1;
            assert(new_im == step_im(prev.0, prev.1, c.im as int));
        }
        zre = new_re as i64;
        zim = new_im as i64;
        i = i + 1;
    }
    None
}

} // verus!
