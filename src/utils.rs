//! Affine remapping of integer ranges and averaging of colors.
use vstd::prelude::*;
use vstd::arithmetic::div_mod::{lemma_div_is_ordered, lemma_div_multiples_vanish};

use crate::palette::Color;

verus! {

/// The affine map taking `[i0, i1]` onto `[o0, o1]`, rounded towards
/// negative infinity.
pub open spec fn remap_spec(v: int, i0: int, i1: int, o0: int, o1: int) -> int {
    (v - i0) * (o1 - o0) / (i1 - i0) + o0
}

pub open spec fn lower(a: int, b: int) -> int {
    if a <= b { a } else { b }
}

pub open spec fn upper(a: int, b: int) -> int {
    if a <= b { b } else { a }
}

/// The remapped value lies between the two ends of the output range, and the
/// ends of the input range go to the ends of the output range.
pub proof fn lemma_remap_range(v: int, i0: int, i1: int, o0: int, o1: int)
    requires
        i0 < i1,
        i0 <= v <= i1,
    ensures
        lower(o0, o1) <= remap_spec(v, i0, i1, o0, o1) <= upper(o0, o1),
        remap_spec(i0, i0, i1, o0, o1) == o0,
        remap_spec(i1, i0, i1, o0, o1) == o1,
{
    let t = v - i0;
    let d = i1 - i0;
    let e = o1 - o0;
    lemma_div_multiples_vanish(e, d);
    lemma_div_multiples_vanish(0, d);
    assert(d * e == (i1 - i0) * (o1 - o0));
    assert(d * 0 == 0);
    assert(0 * e == 0);
    if e >= 0 {
        assert(0 <= t * e <= d * e) by (nonlinear_arith)
            requires 0 <= t <= d, 0 <= e;
        lemma_div_is_ordered(0, t * e, d);
        lemma_div_is_ordered(t * e, d * e, d);
    } else {
        assert(d * e <= t * e <= 0) by (nonlinear_arith)
            requires 0 <= t <= d, e < 0;
        lemma_div_is_ordered(d * e, t * e, d);
        lemma_div_is_ordered(t * e, 0, d);
    }
}

/// Remapping onto a range that goes upwards never reverses order.
pub proof fn lemma_remap_monotonic(v: int, w: int, i0: int, i1: int, o0: int, o1: int)
    requires
        i0 < i1,
        v <= w,
        o0 <= o1,
    ensures
        remap_spec(v, i0, i1, o0, o1) <= remap_spec(w, i0, i1, o0, o1),
{
    assert((v - i0) * (o1 - o0) <= (w - i0) * (o1 - o0)) by (nonlinear_arith)
        requires v <= w, o0 <= o1;
    lemma_div_is_ordered((v - i0) * (o1 - o0), (w - i0) * (o1 - o0), i1 - i0);
}

/// Maps `v` from the range `[i0, i1]` onto the range from `o0` to `o1`.
pub fn remap(v: i64, i0: i64, i1: i64, o0: i32, o1: i32) -> (r: i32)
    requires
        i0 < i1,
        i0 <= v <= i1,
    ensures
        r == remap_spec(v as int, i0 as int, i1 as int, o0 as int, o1 as int),
{
    proof {
        lemma_remap_range(v as int, i0 as int, i1 as int, o0 as int, o1 as int);
    }
    let t: i128 = v as i128 - i0 as i128;
    let d: i128 = i1 as i128 - i0 as i128;
    let e: i128 = o1 as i128 - o0 as i128;
    assert(-0x1_0000_0000_0000_0000_0000_0000 <= t * e <= 0x1_0000_0000_0000_0000_0000_0000) by (nonlinear_arith)
        requires 0 <= t <= 0x1_0000_0000_0000_0000, -0x1_0000_0000 <= e <= 0x1_0000_0000;
    let q: i128 = match (t * e).checked_div_euclid(d) {
        Some(q) => q,
        None => 0,
    };
    (q + o0 as i128) as i32
}

pub open spec fn red_of(c: Color) -> int {
    c.red as int
}

pub open spec fn green_of(c: Color) -> int {
    c.green as int
}

pub open spec fn blue_of(c: Color) -> int {
    c.blue as int
}

/// The sum of one channel over a sequence of colors.
pub open spec fn channel_sum(colors: Seq<Color>, channel: spec_fn(Color) -> int) -> int
    decreases colors.len(),
{
    if colors.len() == 0 {
        0
    } else {
        channel_sum(colors.drop_last(), channel) + channel(colors.last())
    }
}

/// The channel-wise mean of the colors, truncated; black for no colors.
pub open spec fn average_spec(colors: Seq<Color>) -> Color {
    if colors.len() == 0 {
        Color { red: 0, green: 0, blue: 0 }
    } else {
        Color {
            red: (channel_sum(colors, |c: Color| red_of(c)) / (colors.len() as int)) as u8,
            green: (channel_sum(colors, |c: Color| green_of(c)) / (colors.len() as int)) as u8,
            blue: (channel_sum(colors, |c: Color| blue_of(c)) / (colors.len() as int)) as u8,
        }
    }
}

proof fn lemma_mean_fits(sum: int, n: int)
    requires
        0 < n,
        0 <= sum <= 255 * n,
    ensures
        0 <= sum / n <= 255,
{
    lemma_div_is_ordered(0, sum, n);
    lemma_div_is_ordered(sum, 255 * n, n);
    lemma_div_multiples_vanish(255, n);
    lemma_div_multiples_vanish(0, n);
    assert(n * 255 == 255 * n);
}

/// The channel-wise mean of `colors`, truncated towards zero; black when
/// there are no colors.
pub fn average_color(colors: &[Color]) -> (c: Color)
    ensures
        c == average_spec(colors@),
{
    let n: usize = colors.len();
    if n == 0 {
        return Color::new(0, 0, 0);
    }
    let mut sr: u128 = 0;
    let mut sg: u128 = 0;
    let mut sb: u128 = 0;
    let mut i: usize = 0;
    while i < n
        invariant
            n == colors@.len(),
            i <= n,
            sr == channel_sum(colors@.take(i as int), |c: Color| red_of(c)),
            sg == channel_sum(colors@.take(i as int), |c: Color| green_of(c)),
            sb == channel_sum(colors@.take(i as int), |c: Color| blue_of(c)),
            sr <= 255 * i,
            sg <= 255 * i,
            sb <= 255 * i,
        decreases n - i,
    {
        let col = colors[i];
        proof {
            assert(colors@.take(i + 1).drop_last() =~= colors@.take(i as int));
        }
        sr = sr + col.red as u128;
        sg = sg + col.green as u128;
        sb = sb + col.blue as u128;
        i = i + 1;
    }
    proof {
        assert(colors@.take(n as int) =~= colors@);
        lemma_mean_fits(sr as int, n as int);
        lemma_mean_fits(sg as int, n as int);
        lemma_mean_fits(sb as int, n as int);
    }
    Color::new((sr / n as u128) as u8, (sg / n as u128) as u8, (sb / n as u128) as u8)
}

} // verus!
