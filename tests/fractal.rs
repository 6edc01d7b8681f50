use mandelpng::fixed::{Complex, FIXED_ONE};
use mandelpng::fractal::{Mandelbrot, MandelbrotMode};
use mandelpng::palette::{BailoutPalette, Color, Palette};

fn fixed(units: i64) -> i32 {
    (units * FIXED_ONE) as i32
}

#[test]
fn far_point_escapes_quickly() {
    let m = Mandelbrot::default();
    let n = m.get_iterations(Complex::new(fixed(10), fixed(10)));
    assert!(n < 10);
    assert_eq!(n, 0);
}

#[test]
fn origin_never_escapes() {
    let m = Mandelbrot::default();
    assert_eq!(m.get_iterations(Complex::new(0, 0)), 128);
    assert_eq!(m.max_iterations(), 128);
}

#[test]
fn point_escaping_after_one_step() {
    let m = Mandelbrot::default();
    // 1.5 stays within radius 2 once, then 3.75 leaves it.
    let c = Complex::new((3 * FIXED_ONE / 2) as i32, 0);
    assert_eq!(m.get_iterations(c), 1);
}

#[test]
fn iterations_never_exceed_cap() {
    let m = Mandelbrot::new(
        Complex::new(0, 0),
        7,
        MandelbrotMode::Normal,
        BailoutPalette::default(),
    );
    for re in -3..=3i64 {
        for im in -3..=3i64 {
            let c = Complex::new((re * FIXED_ONE / 2) as i32, (im * FIXED_ONE / 2) as i32);
            assert!(m.get_iterations(c) <= 7);
        }
    }
    assert_eq!(m.get_iterations(Complex::new(-FIXED_ONE as i32, 0)), 7);
}

#[test]
fn zero_cap_returns_zero() {
    let m = Mandelbrot::new(Complex::new(0, 0), 0, MandelbrotMode::Normal, BailoutPalette::default());
    assert_eq!(m.get_iterations(Complex::new(fixed(10), 0)), 0);
}

#[test]
fn julia_mode_uses_fixed_parameter() {
    let m = Mandelbrot::new(
        Complex::new(0, 0),
        50,
        MandelbrotMode::Julia(Complex::new(0, 0)),
        BailoutPalette::default(),
    );
    // With parameter 0 the unit disc is invariant.
    assert_eq!(m.get_iterations(Complex::new(FIXED_ONE as i32 / 2, 0)), 50);
    // Start at 3: 9 is already beyond radius 2.
    assert_eq!(m.get_iterations(Complex::new(fixed(3), 0)), 0);
    assert_eq!(m.mode(), MandelbrotMode::Julia(Complex::new(0, 0)));
}

#[test]
fn color_of_counts() {
    let m = Mandelbrot::default();
    assert_eq!(m.get_color(128), Color::new(0, 0, 0));
    assert_eq!(m.get_color(500), Color::new(0, 0, 0));
    assert_eq!(m.get_color(0), Color::new(0, 0, 0));
    assert_eq!(m.get_color(16), Color::new(255, 255, 255));
    assert_eq!(m.get_color(48), Color::new(255, 255, 255));
    assert_eq!(m.get_color(8), Color::new(127, 127, 127));
}

#[test]
fn empty_outer_palette_falls_back_to_white() {
    let bailout = BailoutPalette::new(Color::new(1, 1, 1), Palette::new(vec![]), 4 * FIXED_ONE as u32);
    let m = Mandelbrot::new(Complex::new(0, 0), 10, MandelbrotMode::Normal, bailout);
    assert_eq!(m.get_color(3), Color::new(255, 255, 255));
    assert_eq!(m.get_color(10), Color::new(1, 1, 1));
}
