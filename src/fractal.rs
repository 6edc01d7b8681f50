//! The escape-time evaluator for Mandelbrot and Julia sets.
use vstd::prelude::*;

use crate::fixed::{
    complex_spec, iterate_bound, lemma_not_escaped_bound, norm_sq, norm_sq_exec, square_add,
    square_add_exec, Complex, FIXED_ONE,
};
use crate::palette::{sample_stops, BailoutPalette, Color};

verus! {

/// Iterations per cycle through the outer palette.
pub const COLOR_CYCLE: u32 = 32;

/// Which dynamics the evaluator follows.
#[derive(Clone, Copy, Debug, PartialEq, Eq, Structural)]
pub enum MandelbrotMode {
    /// Iterate `z <- z^2 + c` over the point `c`, starting from `z0`.
    Normal,
    /// Iterate `z <- z^2 + k` for the fixed parameter `k`, starting from
    /// `z0^2 + c` for the point `c`.
    Julia(Complex),
}

/// An escape-time fractal: start value, iteration cap, mode and coloring.
#[derive(Clone, Debug)]
pub struct Mandelbrot {
    z0: Complex,
    max_iterations: u32,
    mode: MandelbrotMode,
    bailout: BailoutPalette,
}

/// The index of the first iteration, counting from `i`, after which the
/// iterate exceeds `radius` in squared magnitude; `max` if none up to `max`.
pub open spec fn escape_from(z: (int, int), c: (int, int), radius: int, i: nat, max: nat) -> nat
    decreases max - i,
{
    if i >= max {
        max
    } else {
        let next = square_add(z, c);
        if norm_sq(next) > radius {
            i
        } else {
            escape_from(next, c, radius, i + 1, max)
        }
    }
}

impl Mandelbrot {
    pub closed spec fn z0_spec(&self) -> Complex {
        self.z0
    }

    pub closed spec fn max_iterations_spec(&self) -> u32 {
        self.max_iterations
    }

    pub closed spec fn mode_spec(&self) -> MandelbrotMode {
        self.mode
    }

    pub closed spec fn bailout_spec(&self) -> BailoutPalette {
        self.bailout
    }

    /// The iterate before the first step, for the point `c`.
    pub open spec fn start_spec(&self, c: Complex) -> (int, int) {
        match self.mode_spec() {
            MandelbrotMode::Normal => complex_spec(self.z0_spec()),
            MandelbrotMode::Julia(_) => square_add(complex_spec(self.z0_spec()), complex_spec(c)),
        }
    }

    /// The constant added at each step, for the point `c`.
    pub open spec fn param_spec(&self, c: Complex) -> (int, int) {
        match self.mode_spec() {
            MandelbrotMode::Normal => complex_spec(c),
            MandelbrotMode::Julia(k) => complex_spec(k),
        }
    }

    /// The escape-time count of the point `c`.
    pub open spec fn iterations_spec(&self, c: Complex) -> nat {
        escape_from(
            self.start_spec(c),
            self.param_spec(c),
            self.bailout_spec().escape_radius_spec() as int,
            0,
            self.max_iterations_spec() as nat,
        )
    }

    /// The color of an iteration count: the inner color at or beyond the cap,
    /// otherwise the outer palette at the count's place in its color cycle,
    /// white where the outer palette has no stops.
    pub open spec fn color_spec(&self, iterations: int) -> Color {
        if iterations >= self.max_iterations_spec() {
            self.bailout_spec().inner_spec()
        } else {
            match sample_stops(
                self.bailout_spec().outer_spec()@,
                (iterations % (COLOR_CYCLE as int)) as nat,
                COLOR_CYCLE as nat,
            ) {
                Some(c) => c,
                None => Color::new_spec(255, 255, 255),
            }
        }
    }

    pub fn new(z0: Complex, max_iterations: u32, mode: MandelbrotMode, bailout: BailoutPalette) -> (m: Mandelbrot)
        ensures
            m.z0_spec() == z0,
            m.max_iterations_spec() == max_iterations,
            m.mode_spec() == mode,
            m.bailout_spec() == bailout,
    {
        Mandelbrot { z0, max_iterations, mode, bailout }
    }

    pub fn z0(&self) -> (z: Complex)
        ensures
            z == self.z0_spec(),
    {
        self.z0
    }

    pub fn max_iterations(&self) -> (n: u32)
        ensures
            n == self.max_iterations_spec(),
    {
        self.max_iterations
    }

    pub fn mode(&self) -> (m: MandelbrotMode)
        ensures
            m == self.mode_spec(),
    {
        self.mode
    }

    pub fn bailout(&self) -> (b: &BailoutPalette)
        ensures
            *b == self.bailout_spec(),
    {
        &self.bailout
    }

    /// The number of steps after which the point `c` escapes, or the cap
    /// where it does not escape within it.
    pub fn get_iterations(&self, c: Complex) -> (n: u32)
        ensures
            n == self.iterations_spec(c),
            n <= self.max_iterations_spec(),
    {
        let (mut zr, mut zi): (i128, i128) = match self.mode {
            MandelbrotMode::Normal => (self.z0.re as i128, self.z0.im as i128),
            MandelbrotMode::Julia(_) => square_add_exec(self.z0.re as i128, self.z0.im as i128, c.re, c.im),
        };
        let k: Complex = match self.mode {
            MandelbrotMode::Normal => c,
            MandelbrotMode::Julia(jc) => jc,
        };
        let radius: u32 = self.bailout.escape_radius();
        let max: u32 = self.max_iterations;
        let ghost start = (zr as int, zi as int);
        let mut i: u32 = 0;
        while i < max
            invariant
                -iterate_bound() <= zr <= iterate_bound(),
                -iterate_bound() <= zi <= iterate_bound(),
                start == self.start_spec(c),
                complex_spec(k) == self.param_spec(c),
                radius == self.bailout_spec().escape_radius_spec(),
                max == self.max_iterations_spec(),
                i <= max,
                escape_from((zr as int, zi as int), complex_spec(k), radius as int, i as nat, max as nat)
                    == self.iterations_spec(c),
            decreases max - i,
        {
            let (nr, ni) = square_add_exec(zr, zi, k.re, k.im);
            let mag = norm_sq_exec(nr, ni);
            if mag > radius as i128 {
                return i;
            }
            proof {
                lemma_not_escaped_bound((nr as int, ni as int), radius as int);
            }
            zr = nr;
            zi = ni;
            i = i + 1;
        }
        max
    }

    /// The color shown for an iteration count.
    pub fn get_color(&self, iterations: u32) -> (c: Color)
        ensures
            c == self.color_spec(iterations as int),
    {
        if iterations >= self.max_iterations {
            self.bailout.inner()
        } else {
            match self.bailout.outer().sample(iterations % COLOR_CYCLE, COLOR_CYCLE) {
                Some(c) => c,
                None => Color::new(255, 255, 255),
            }
        }
    }
}

/// The escape-time count never exceeds the cap.
pub proof fn lemma_escape_at_most_cap(z: (int, int), c: (int, int), radius: int, i: nat, max: nat)
    ensures
        escape_from(z, c, radius, i, max) <= max,
    decreases max - i,
{
    if i < max {
        let next = square_add(z, c);
        if norm_sq(next) <= radius {
            lemma_escape_at_most_cap(next, c, radius, i + 1, max);
        }
    }
}

proof fn lemma_zero_stays(radius: int, i: nat, max: nat)
    requires
        0 <= radius,
    ensures
        escape_from((0, 0), (0, 0), radius, i, max) == max,
    decreases max - i,
{
    if i < max {
        assert(square_add((0, 0), (0, 0)) == (0int, 0int));
        assert(norm_sq((0, 0)) == 0);
        lemma_zero_stays(radius, i + 1, max);
    }
}

/// For the Mandelbrot set started at zero, the origin never escapes.
pub proof fn lemma_origin_never_escapes(f: Mandelbrot)
    requires
        f.mode_spec() == MandelbrotMode::Normal,
        f.z0_spec() == (Complex { re: 0, im: 0 }),
    ensures
        f.iterations_spec(Complex { re: 0, im: 0 }) == f.max_iterations_spec(),
{
    lemma_zero_stays(f.bailout_spec().escape_radius_spec() as int, 0, f.max_iterations_spec() as nat);
}

/// For the Mandelbrot set started at zero, a point already beyond the
/// escape threshold escapes at the first iteration.
pub proof fn lemma_far_point_escapes_at_once(f: Mandelbrot, c: Complex)
    requires
        f.mode_spec() == MandelbrotMode::Normal,
        f.z0_spec() == (Complex { re: 0, im: 0 }),
        f.max_iterations_spec() > 0,
        norm_sq(complex_spec(c)) > f.bailout_spec().escape_radius_spec(),
    ensures
        f.iterations_spec(c) == 0,
{
    assert(square_add((0, 0), complex_spec(c)) == complex_spec(c));
}

impl Default for Mandelbrot {
    /// The Mandelbrot set from zero, capped at 128 iterations.
    fn default() -> (m: Mandelbrot)
        ensures
            m.z0_spec() == (Complex { re: 0, im: 0 }),
            m.max_iterations_spec() == 128,
            m.mode_spec() == MandelbrotMode::Normal,
            m.bailout_spec().escape_radius_spec() == 4 * FIXED_ONE,
    {
        Mandelbrot {
            z0: Complex::new(0, 0),
            max_iterations: 128,
            mode: MandelbrotMode::Normal,
            bailout: BailoutPalette::default(),
        }
    }
}

} // verus!
