use mandelpng::palette::{BailoutPalette, Color, Palette};

#[test]
fn test_interpolation_u8() {
    assert_eq!(Color::lerp_u8(100u8, 200u8, 3, 4), 175u8);
    assert_eq!(Color::lerp_u8(200u8, 100u8, 3, 4), 125u8);
    assert_eq!(Color::lerp_u8(100u8, 200u8, 1, 1), 200u8);
    assert_eq!(Color::lerp_u8(200u8, 100u8, 1, 1), 100u8);
}

#[test]
fn test_color_lerp() {
    assert_eq!(Color::new(0, 0, 0).lerp(&Color::new(200, 160, 120), 1, 2), Color::new(100, 80, 60));
    assert_eq!(Color::new(200, 160, 120).lerp(&Color::new(0, 0, 0), 1, 2), Color::new(100, 80, 60));
}

#[test]
fn test_palette_sample() {
    let palette = Palette::new(vec![
        Color::new(200, 0, 0),
        Color::new(0, 200, 0),
        Color::new(0, 0, 200),
        Color::new(0, 200, 200),
        Color::new(200, 200, 200),
    ])
    .make_looped();

    assert_eq!(palette.len(), 6);

    assert_eq!(palette.sample(0, 10), Some(Color::new(200, 0, 0)));
    assert_eq!(palette.sample(2, 10), Some(Color::new(0, 200, 0)));
    assert_eq!(palette.sample(1, 10), Some(Color::new(100, 100, 0)));
    assert_eq!(palette.sample(7, 10), Some(Color::new(100, 200, 200)));
    assert_eq!(palette.sample(10, 10), Some(Color::new(200, 0, 0)));

    let palette = Palette::new(vec![Color::new(100, 100, 100)]);
    assert_eq!(palette.sample(0, 10), Some(Color::new(100, 100, 100)));
    assert_eq!(palette.sample(5, 10), Some(Color::new(100, 100, 100)));
    assert_eq!(palette.sample(10, 10), Some(Color::new(100, 100, 100)));

    let palette = Palette::new(vec![]);
    assert_eq!(palette.sample(0, 10), None);
    assert_eq!(palette.sample(5, 10), None);
    assert_eq!(palette.sample(10, 10), None);
}

#[test]
fn lerp_stays_between_endpoints() {
    let a = Color::new(10, 250, 0);
    let b = Color::new(200, 3, 255);
    for num in 0..=7u32 {
        let c = a.lerp(&b, num, 7);
        assert!(c.r() >= 10 && c.r() <= 200);
        assert!(c.g() >= 3 && c.g() <= 250);
        assert!(c.b() <= 255);
    }
    assert_eq!(a.lerp(&b, 0, 7), a);
    assert_eq!(a.lerp(&b, 7, 7), b);
}

#[test]
fn lerp_extreme_channels_do_not_wrap() {
    assert_eq!(Color::lerp_u8(0, 255, 1, 3), 85);
    assert_eq!(Color::lerp_u8(255, 0, 1, 3), 170);
    assert_eq!(Color::lerp_u8(255, 255, 2, 3), 255);
}

#[test]
fn make_looped_adds_first_stop() {
    let p = Palette::new(vec![Color::new(1, 2, 3), Color::new(4, 5, 6)]).make_looped();
    assert_eq!(p.len(), 3);
    assert_eq!(p.sample(0, 1), Some(Color::new(1, 2, 3)));
    assert_eq!(p.sample(1, 1), Some(Color::new(1, 2, 3)));
    assert_eq!(p.sample(1, 2), Some(Color::new(4, 5, 6)));
}

#[test]
fn make_looped_on_empty_is_no_op() {
    let p = Palette::new(vec![]).make_looped();
    assert!(p.is_empty());
    assert_eq!(p.len(), 0);
    assert!(Palette::default().is_empty());
}

#[test]
fn default_bailout_palette() {
    let b = BailoutPalette::default();
    assert_eq!(b.inner(), Color::new(0, 0, 0));
    assert_eq!(b.outer().len(), 3);
    assert_eq!(b.escape_radius(), 4 * 16777216);
    assert_eq!(b.outer().sample(1, 2), Some(Color::new(255, 255, 255)));
}
