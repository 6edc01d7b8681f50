//! Colors, interpolation between them, and palettes of color stops.
use vstd::prelude::*;

use crate::fixed::FIXED_ONE;

verus! {

/// An RGB color with 8 bits per channel.
#[derive(Clone, Copy, Debug, PartialEq, Eq, Structural)]
pub struct Color {
    pub red: u8,
    pub green: u8,
    pub blue: u8,
}

/// Interpolated channel value from `a` towards `b` at weight `num / den`,
/// always computed from the smaller endpoint so that nothing wraps.
pub open spec fn lerp_channel(a: u8, b: u8, num: nat, den: nat) -> int {
    if b >= a {
        a + (b - a) * (num as int) / (den as int)
    } else {
        b + (a - b) * (den - num) / (den as int)
    }
}

/// Channel-wise interpolation of two colors at weight `num / den`.
pub open spec fn lerp_color(from: Color, to: Color, num: nat, den: nat) -> Color {
    Color {
        red: lerp_channel(from.red, to.red, num, den) as u8,
        green: lerp_channel(from.green, to.green, num, den) as u8,
        blue: lerp_channel(from.blue, to.blue, num, den) as u8,
    }
}

pub open spec fn min_u8(a: u8, b: u8) -> u8 {
    if a <= b { a } else { b }
}

pub open spec fn max_u8(a: u8, b: u8) -> u8 {
    if a <= b { b } else { a }
}

proof fn lemma_lerp_channel_bounds(a: u8, b: u8, num: nat, den: nat)
    requires
        0 < den,
        num <= den,
    ensures
        min_u8(a, b) <= lerp_channel(a, b, num, den) <= max_u8(a, b),
        num == 0 ==> lerp_channel(a, b, num, den) == a,
        num == den ==> lerp_channel(a, b, num, den) == b,
{
    let d: int = if b >= a { b - a } else { a - b };
    let w: int = if b >= a { num as int } else { den - num };
    assert(0 <= d * w <= d * den) by (nonlinear_arith)
        requires 0 <= d, 0 <= w <= den;
    assert(0 <= (d * w) / (den as int) <= d) by (nonlinear_arith)
        requires 0 <= d * w <= d * den, 0 < den;
    assert((d * den) / (den as int) == d) by (nonlinear_arith)
        requires 0 < den;
    assert((d * 0) / (den as int) == 0) by (nonlinear_arith)
        requires 0 < den;
    if b >= a {
        assert(lerp_channel(a, b, num, den) == a + (d * w) / (den as int));
    } else {
        assert(lerp_channel(a, b, num, den) == b + (d * w) / (den as int));
    }
}

/// Interpolation between two colors is bounded by the endpoints channel by
/// channel, starts at the first color and ends at the second.
pub proof fn lemma_lerp_bounds(from: Color, to: Color, num: nat, den: nat)
    requires
        0 < den,
        num <= den,
    ensures
        min_u8(from.red, to.red) <= lerp_color(from, to, num, den).red <= max_u8(from.red, to.red),
        min_u8(from.green, to.green) <= lerp_color(from, to, num, den).green <= max_u8(from.green, to.green),
        min_u8(from.blue, to.blue) <= lerp_color(from, to, num, den).blue <= max_u8(from.blue, to.blue),
        num == 0 ==> lerp_color(from, to, num, den) == from,
        num == den ==> lerp_color(from, to, num, den) == to,
{
    lemma_lerp_channel_bounds(from.red, to.red, num, den);
    lemma_lerp_channel_bounds(from.green, to.green, num, den);
    lemma_lerp_channel_bounds(from.blue, to.blue, num, den);
}

impl Color {
    pub open spec fn new_spec(r: u8, g: u8, b: u8) -> Color {
        Color { red: r, green: g, blue: b }
    }

    pub fn new(r: u8, g: u8, b: u8) -> (c: Color)
        ensures
            c == (Color { red: r, green: g, blue: b }),
    {
        Color { red: r, green: g, blue: b }
    }

    pub fn r(&self) -> (v: u8)
        ensures
            v == self.red,
    {
        self.red
    }

    pub fn g(&self) -> (v: u8)
        ensures
            v == self.green,
    {
        self.green
    }

    pub fn b(&self) -> (v: u8)
        ensures
            v == self.blue,
    {
        self.blue
    }

    /// One channel moved from `a` towards `b` by the weight `num / den`.
    pub fn lerp_u8(a: u8, b: u8, num: u32, den: u32) -> (v: u8)
        requires
            0 < den,
            num <= den,
        ensures
            v == lerp_channel(a, b, num as nat, den as nat),
    {
        proof {
            lemma_lerp_channel_bounds(a, b, num as nat, den as nat);
        }
        if b >= a {
            let d: u64 = (b - a) as u64;
            assert(d * (num as u64) <= 255 * 0xffff_ffff) by (nonlinear_arith)
                requires d <= 255, num <= 0xffff_ffffu32;
            let step: u64 = d * (num as u64) / (den as u64);
            a + step as u8
        } else {
            let d: u64 = (a - b) as u64;
            let w: u64 = (den - num) as u64;
            assert(d * w <= 255 * 0xffff_ffff) by (nonlinear_arith)
                requires d <= 255, w <= 0xffff_ffffu64;
            let step: u64 = d * w / (den as u64);
            b + step as u8
        }
    }

    /// This color moved towards `to` by the weight `num / den` in `[0, 1]`.
    pub fn lerp(&self, to: &Color, num: u32, den: u32) -> (c: Color)
        requires
            0 < den,
            num <= den,
        ensures
            c == lerp_color(*self, *to, num as nat, den as nat),
    {
        Color {
            red: Self::lerp_u8(self.red, to.red, num, den),
            green: Self::lerp_u8(self.green, to.green, num, den),
            blue: Self::lerp_u8(self.blue, to.blue, num, den),
        }
    }
}


/// The color at position `num / den` of the stops `stops`: nothing for no
/// stops, the last stop at the end, and otherwise the interpolation between
/// the two stops that bracket the position on the scale of stop indices.
pub open spec fn sample_stops(stops: Seq<Color>, num: nat, den: nat) -> Option<Color> {
    if stops.len() == 0 {
        None
    } else if num >= den {
        Some(stops.last())
    } else {
        let scaled = (stops.len() - 1) * num;
        let idx = scaled / (den as int);
        let weight = scaled % (den as int);
        if idx + 1 < stops.len() {
            Some(lerp_color(stops[idx], stops[idx + 1], weight as nat, den))
        } else {
            Some(stops[idx])
        }
    }
}

/// The stops after closing the loop: the first stop is repeated at the end.
pub open spec fn looped_stops(stops: Seq<Color>) -> Seq<Color> {
    if stops.len() == 0 {
        stops
    } else {
        stops.push(stops[0])
    }
}

/// An ordered sequence of color stops.
#[derive(Clone, Debug)]
pub struct Palette {
    colors: Vec<Color>,
}

impl View for Palette {
    type V = Seq<Color>;

    closed spec fn view(&self) -> Seq<Color> {
        self.colors@
    }
}

impl Default for Palette {
    fn default() -> (p: Palette)
        ensures
            p@ == Seq::<Color>::empty(),
    {
        Palette { colors: Vec::new() }
    }
}

impl Palette {
    pub fn new(colors: Vec<Color>) -> (p: Palette)
        ensures
            p@ == colors@,
    {
        Palette { colors }
    }

    pub fn is_empty(&self) -> (e: bool)
        ensures
            e == (self@.len() == 0),
    {
        self.colors.len() == 0
    }

    /// The stops, in order.
    pub fn colors(&self) -> (c: &Vec<Color>)
        ensures
            c@ == self@,
    {
        &self.colors
    }

    pub fn len(&self) -> (n: usize)
        ensures
            n == self@.len(),
    {
        self.colors.len()
    }

    /// The color at position `num / den` in `[0, 1]`.
    pub fn sample(&self, num: u32, den: u32) -> (c: Option<Color>)
        requires
            0 < den,
            num <= den,
        ensures
            c == sample_stops(self@, num as nat, den as nat),
    {
        let n = self.colors.len();
        if n == 0 {
            return None;
        }
        if num >= den {
            return Some(self.colors[n - 1]);
        }
        let m128: u128 = (n - 1) as u128;
        assert(m128 * (num as u128) <= 0xffff_ffff_ffff_ffff * 0xffff_ffff) by (nonlinear_arith)
            requires m128 <= 0xffff_ffff_ffff_ffffu128, num <= 0xffff_ffffu32;
        let scaled: u128 = m128 * num as u128;
        let idx128: u128 = scaled / den as u128;
        let weight: u128 = scaled % den as u128;
        proof {
            let m: int = (n - 1) as int;
            assert(m * num <= m * den) by (nonlinear_arith)
                requires 0 <= m, num <= den;
            assert((m * num) / (den as int) <= m) by (nonlinear_arith)
                requires 0 <= m * num <= m * den, 0 < den;
        }
        let idx: usize = idx128 as usize;
        if idx + 1 < n {
            Some(self.colors[idx].lerp(&self.colors[idx + 1], weight as u32, den))
        } else {
            Some(self.colors[idx])
        }
    }

    /// Repeats the first stop at the end, so that both ends of the palette
    /// show the same color; an empty palette stays empty.
    pub fn make_looped(self) -> (p: Palette)
        ensures
            p@ == looped_stops(self@),
    {
        let mut colors = self.colors;
        if colors.len() > 0 {
            let first = colors[0];
            colors.push(first);
        }
        Palette { colors }
    }
}

/// Looping a non-empty palette adds exactly one stop, equal to the first;
/// looping an empty palette changes nothing.
pub proof fn lemma_looped_stops(stops: Seq<Color>)
    ensures
        stops.len() > 0 ==> looped_stops(stops).len() == stops.len() + 1,
        stops.len() > 0 ==> looped_stops(stops).last() == looped_stops(stops)[0],
        stops.len() > 0 ==> looped_stops(stops).take(stops.len() as int) == stops,
        stops.len() == 0 ==> looped_stops(stops) == stops,
{
    if stops.len() > 0 {
        assert(looped_stops(stops).take(stops.len() as int) =~= stops);
    }
}

/// A looped palette shows the same color at both ends.
pub proof fn lemma_looped_ends_agree(stops: Seq<Color>, den: nat)
    requires
        0 < den,
    ensures
        sample_stops(looped_stops(stops), 0, den) == sample_stops(looped_stops(stops), den, den),
{
    let l = looped_stops(stops);
    if stops.len() > 0 {
        assert(((l.len() - 1) * 0) / (den as int) == 0) by (nonlinear_arith)
            requires 0 < den;
        assert(((l.len() - 1) * 0) % (den as int) == 0) by (nonlinear_arith)
            requires 0 < den;
        lemma_lerp_bounds(l[0], l[1], 0, den);
    }
}

/// No stops give no color; a single stop is the color everywhere; the end
/// of the scale is the last stop.
pub proof fn lemma_sample_edges(stops: Seq<Color>, num: nat, den: nat)
    requires
        0 < den,
        num <= den,
    ensures
        stops.len() == 0 ==> sample_stops(stops, num, den) == None::<Color>,
        stops.len() == 1 ==> sample_stops(stops, num, den) == Some(stops[0]),
        stops.len() > 0 ==> sample_stops(stops, den, den) == Some(stops.last()),
{
    if stops.len() == 1 && num < den {
        assert(((stops.len() - 1) * num) / (den as int) == 0) by (nonlinear_arith)
            requires stops.len() == 1, 0 < den;
    }
}


/// Coloring of escape-time results: `inner` for points that never escape,
/// `outer` sampled cyclically for the others, and the squared-magnitude
/// threshold `escape_radius` (a fixed-point value) beyond which a point has
/// escaped.
#[derive(Clone, Debug)]
pub struct BailoutPalette {
    inner: Color,
    outer: Palette,
    escape_radius: u32,
}

impl Default for BailoutPalette {
    /// Black inside, a looped black-to-white ramp outside, threshold 4.
    fn default() -> (p: BailoutPalette)
        ensures
            p.inner_spec() == Color::new_spec(0, 0, 0),
            p.outer_spec()@ == seq![
                Color::new_spec(0, 0, 0),
                Color::new_spec(255, 255, 255),
                Color::new_spec(0, 0, 0),
            ],
            p.escape_radius_spec() == 4 * FIXED_ONE,
    {
        let outer = Palette::new(vec![Color::new(0, 0, 0), Color::new(255, 255, 255)]).make_looped();
        assert(outer@ =~= seq![
            Color::new_spec(0, 0, 0),
            Color::new_spec(255, 255, 255),
            Color::new_spec(0, 0, 0),
        ]);
        BailoutPalette { inner: Color::new(0, 0, 0), outer, escape_radius: 4 * FIXED_ONE as u32 }
    }
}

impl BailoutPalette {
    pub closed spec fn inner_spec(&self) -> Color {
        self.inner
    }

    pub closed spec fn outer_spec(&self) -> Palette {
        self.outer
    }

    pub closed spec fn escape_radius_spec(&self) -> u32 {
        self.escape_radius
    }

    pub fn new(inner: Color, outer: Palette, escape_radius: u32) -> (p: BailoutPalette)
        ensures
            p.inner_spec() == inner,
            p.outer_spec() == outer,
            p.escape_radius_spec() == escape_radius,
    {
        BailoutPalette { inner, outer, escape_radius }
    }

    /// The squared-magnitude threshold, in fixed point.
    pub fn escape_radius(&self) -> (r: u32)
        ensures
            r == self.escape_radius_spec(),
    {
        self.escape_radius
    }

    pub fn inner(&self) -> (c: Color)
        ensures
            c == self.inner_spec(),
    {
        self.inner
    }

    pub fn outer(&self) -> (p: &Palette)
        ensures
            *p == self.outer_spec(),
    {
        &self.outer
    }
}

} // verus!
