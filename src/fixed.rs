//! Fixed-point complex numbers: each component is an integer count of
//! `1 / FIXED_ONE` units.
use vstd::prelude::*;
use vstd::arithmetic::div_mod::{lemma_div_is_ordered, lemma_fundamental_div_mod};

verus! {

/// The fixed-point value of one: components carry 24 fractional bits.
pub const FIXED_ONE: i64 = 16777216;

/// A complex number with fixed-point components `re / FIXED_ONE` and
/// `im / FIXED_ONE`.
#[derive(Clone, Copy, Debug, PartialEq, Eq, Structural)]
pub struct Complex {
    pub re: i32,
    pub im: i32,
}

impl Complex {
    pub fn new(re: i32, im: i32) -> (c: Complex)
        ensures
            c == (Complex { re, im }),
    {
        Complex { re, im }
    }
}

/// Fixed-point product of two components (rounded towards negative infinity).
pub open spec fn fixed_mul(a: int, b: int) -> int {
    (a * b) / (FIXED_ONE as int)
}

/// One step of `z <- z^2 + c` in fixed point, over raw components.
pub open spec fn square_add(z: (int, int), c: (int, int)) -> (int, int) {
    (
        (z.0 * z.0 - z.1 * z.1) / (FIXED_ONE as int) + c.0,
        (2 * (z.0 * z.1)) / (FIXED_ONE as int) + c.1,
    )
}

/// Fixed-point squared magnitude `|z|^2`.
pub open spec fn norm_sq(z: (int, int)) -> int {
    (z.0 * z.0 + z.1 * z.1) / (FIXED_ONE as int)
}

pub open spec fn complex_spec(c: Complex) -> (int, int) {
    (c.re as int, c.im as int)
}


/// Largest magnitude of an iterate's raw component at the top of the
/// escape loop.
pub open spec fn iterate_bound() -> int {
    0x100_0000_0000
}

/// Floor division by `FIXED_ONE` of a value of at most 2^120 in magnitude.
pub(crate) fn div_fixed(p: i128) -> (r: i128)
    requires
        -0x100_0000_0000_0000_0000_0000_0000_0000 <= p <= 0x100_0000_0000_0000_0000_0000_0000_0000,
    ensures
        r == (p as int) / (FIXED_ONE as int),
        -0x1_0000_0000_0000_0000_0000_0000 <= r <= 0x1_0000_0000_0000_0000_0000_0000,
{
    proof {
        lemma_div_is_ordered(-0x100_0000_0000_0000_0000_0000_0000_0000int, p as int, FIXED_ONE as int);
        lemma_div_is_ordered(p as int, 0x100_0000_0000_0000_0000_0000_0000_0000int, FIXED_ONE as int);
        assert(-0x100_0000_0000_0000_0000_0000_0000_0000int / (FIXED_ONE as int) == -0x1_0000_0000_0000_0000_0000_0000int);
        assert(0x100_0000_0000_0000_0000_0000_0000_0000int / (FIXED_ONE as int) == 0x1_0000_0000_0000_0000_0000_0000int);
    }
    match p.checked_div_euclid(FIXED_ONE as i128) {
        Some(v) => v,
        None => 0,
    }
}

proof fn lemma_square_bound(x: int, b: int)
    requires
        0 <= b,
        -b <= x <= b,
    ensures
        0 <= x * x <= b * b,
{
    assert(0 <= x * x <= b * b) by (nonlinear_arith)
        requires -b <= x <= b, 0 <= b;
}

/// One fixed-point step `z <- z^2 + c` on raw components.
pub(crate) fn square_add_exec(zr: i128, zi: i128, cr: i32, ci: i32) -> (r: (i128, i128))
    requires
        -iterate_bound() <= zr <= iterate_bound(),
        -iterate_bound() <= zi <= iterate_bound(),
    ensures
        (r.0 as int, r.1 as int) == square_add((zr as int, zi as int), (cr as int, ci as int)),
        -0x400_0000_0000_0000 <= r.0 <= 0x400_0000_0000_0000,
        -0x400_0000_0000_0000 <= r.1 <= 0x400_0000_0000_0000,
        -0x8000_0000 <= zr <= 0x8000_0000 && -0x8000_0000 <= zi <= 0x8000_0000 ==> {
            &&& -iterate_bound() <= r.0 <= iterate_bound()
            &&& -iterate_bound() <= r.1 <= iterate_bound()
        },
{
    proof {
        lemma_square_bound(zr as int, iterate_bound());
        lemma_square_bound(zi as int, iterate_bound());
        assert(-iterate_bound() * iterate_bound() <= zr * zi <= iterate_bound() * iterate_bound()) by (nonlinear_arith)
            requires -iterate_bound() <= zr <= iterate_bound(), -iterate_bound() <= zi <= iterate_bound();
    }
    let re = div_fixed(zr * zr - zi * zi);
    let im = div_fixed(2 * (zr * zi));
    proof {
        lemma_div_is_ordered(-0x2_0000_0000_0000_0000_0000int, (zr * zr - zi * zi) as int, FIXED_ONE as int);
        lemma_div_is_ordered((zr * zr - zi * zi) as int, 0x2_0000_0000_0000_0000_0000int, FIXED_ONE as int);
        lemma_div_is_ordered(-0x2_0000_0000_0000_0000_0000int, (2 * (zr * zi)) as int, FIXED_ONE as int);
        lemma_div_is_ordered((2 * (zr * zi)) as int, 0x2_0000_0000_0000_0000_0000int, FIXED_ONE as int);
        assert(-0x2_0000_0000_0000_0000_0000int / (FIXED_ONE as int) == -0x200_0000_0000_0000int);
        assert(0x2_0000_0000_0000_0000_0000int / (FIXED_ONE as int) == 0x200_0000_0000_0000int);
    }
    proof {
        if -0x8000_0000 <= zr <= 0x8000_0000 && -0x8000_0000 <= zi <= 0x8000_0000 {
            lemma_square_bound(zr as int, 0x8000_0000);
            lemma_square_bound(zi as int, 0x8000_0000);
            assert(-0x8000_0000 * 0x8000_0000 <= zr * zi <= 0x8000_0000 * 0x8000_0000) by (nonlinear_arith)
                requires -0x8000_0000 <= zr <= 0x8000_0000, -0x8000_0000 <= zi <= 0x8000_0000;
            lemma_div_is_ordered(-0x8000_0000_0000_0000int, (zr * zr - zi * zi) as int, FIXED_ONE as int);
            lemma_div_is_ordered((zr * zr - zi * zi) as int, 0x8000_0000_0000_0000int, FIXED_ONE as int);
            lemma_div_is_ordered(-0x8000_0000_0000_0000int, (2 * (zr * zi)) as int, FIXED_ONE as int);
            lemma_div_is_ordered((2 * (zr * zi)) as int, 0x8000_0000_0000_0000int, FIXED_ONE as int);
            assert(-0x8000_0000_0000_0000int / (FIXED_ONE as int) == -0x80_0000_0000int);
            assert(0x8000_0000_0000_0000int / (FIXED_ONE as int) == 0x80_0000_0000int);
        }
    }
    (re + cr as i128, im + ci as i128)
}

/// Fixed-point squared magnitude of raw components of at most 2^58.
pub(crate) fn norm_sq_exec(zr: i128, zi: i128) -> (r: i128)
    requires
        -0x400_0000_0000_0000 <= zr <= 0x400_0000_0000_0000,
        -0x400_0000_0000_0000 <= zi <= 0x400_0000_0000_0000,
    ensures
        r == norm_sq((zr as int, zi as int)),
{
    proof {
        lemma_square_bound(zr as int, 0x400_0000_0000_0000);
        lemma_square_bound(zi as int, 0x400_0000_0000_0000);
    }
    div_fixed(zr * zr + zi * zi)
}

/// A point whose squared magnitude stays within a 32-bit threshold has raw
/// components within `iterate_bound()`.
pub(crate) proof fn lemma_not_escaped_bound(z: (int, int), radius: int)
    requires
        0 <= radius < 0x1_0000_0000,
        norm_sq(z) <= radius,
    ensures
        -iterate_bound() <= z.0 <= iterate_bound(),
        -iterate_bound() <= z.1 <= iterate_bound(),
{
    let p = z.0 * z.0 + z.1 * z.1;
    lemma_fundamental_div_mod(p, FIXED_ONE as int);
    assert(z.0 * z.0 >= 0 && z.1 * z.1 >= 0) by (nonlinear_arith);
    assert(p < 0x1_0000_0000_0000_0000);
    assert(-iterate_bound() <= z.0 <= iterate_bound()) by (nonlinear_arith)
        requires z.0 * z.0 < 0x1_0000_0000_0000_0000;
    assert(-iterate_bound() <= z.1 <= iterate_bound()) by (nonlinear_arith)
        requires z.1 * z.1 < 0x1_0000_0000_0000_0000;
}

} // verus!
