use mandelpng::fixed::{Complex, FIXED_ONE};
use mandelpng::fractal::{Mandelbrot, MandelbrotMode};
use mandelpng::palette::{BailoutPalette, Color, Palette};
use mandelpng::render::{Image, ImageError, Scene, Viewport};
use mandelpng::utils::{average_color, remap};

fn one_pixel_scene(cx: i64, cy: i64, palette: Vec<Color>) -> Scene {
    let bailout = BailoutPalette::new(Color::new(0, 0, 0), Palette::new(palette), (4 * FIXED_ONE) as u32);
    let fractal = Mandelbrot::new(Complex::new(0, 0), 64, MandelbrotMode::Normal, bailout);
    let viewport = Viewport::new(1, 1, 1, cx as i32, cy as i32, FIXED_ONE as i32).unwrap();
    Scene::new(fractal, viewport)
}

#[test]
fn image_from_checks_length() {
    let img = Image::from(2, 1, vec![1, 2, 3, 4, 5, 6]).unwrap();
    assert_eq!(img.width(), 2);
    assert_eq!(img.height(), 1);
    assert_eq!(img.data(), &vec![1, 2, 3, 4, 5, 6]);
    match Image::from(2, 2, vec![0; 5]) {
        Err(e) => assert_eq!(e, ImageError::Creation { got_len: 5, expected: 12 }),
        Ok(_) => panic!("length mismatch accepted"),
    }
    assert!(!ImageError::Threading.message().is_empty());
}

#[test]
fn image_new_is_black() {
    let img = Image::new(3, 2);
    assert_eq!(img.data().len(), 18);
    assert!(img.data().iter().all(|b| *b == 0));
    assert_eq!(Image::channel_count(), 3);
    assert_eq!(Image::default().data().len(), 1920 * 1080 * 3);
}

#[test]
fn remap_exact_values() {
    assert_eq!(remap(5, 0, 10, 0, 100), 50);
    assert_eq!(remap(0, 0, 10, -7, 100), -7);
    assert_eq!(remap(10, 0, 10, -7, 100), 100);
    assert_eq!(remap(1, 0, 3, 0, -10), -4);
    assert_eq!(remap(2, 1, 3, 10, 20), 15);
}

#[test]
fn average_truncates() {
    let cs = [Color::new(0, 0, 0), Color::new(255, 255, 1)];
    assert_eq!(average_color(&cs), Color::new(127, 127, 0));
    assert_eq!(average_color(&[]), Color::new(0, 0, 0));
    let cs = [Color::new(3, 6, 9), Color::new(3, 6, 9), Color::new(4, 6, 9)];
    assert_eq!(average_color(&cs), Color::new(3, 6, 9));
}

#[test]
fn viewport_rejects_bad_values() {
    assert!(Viewport::new(0, 10, 1, 0, 0, FIXED_ONE as i32).is_none());
    assert!(Viewport::new(10, 0, 1, 0, 0, FIXED_ONE as i32).is_none());
    assert!(Viewport::new(10, 10, 0, 0, 0, FIXED_ONE as i32).is_none());
    assert!(Viewport::new(10, 10, 1, 0, 0, 0).is_none());
    assert!(Viewport::new(10, 10, 1, i32::MAX, 0, FIXED_ONE as i32).is_none());
    assert!(Viewport::new(10, 10, 1, 0, 0, FIXED_ONE as i32).is_some());
}

#[test]
fn screen_corners_map_to_world_corners() {
    let v = Viewport::new(4, 2, 2, 0, 0, FIXED_ONE as i32).unwrap();
    let one = FIXED_ONE as i32;
    let scene = one_pixel_scene(0, 0, vec![Color::new(1, 1, 1)]);
    let _ = scene.viewport();
    let s = Scene::new(Mandelbrot::default(), v);
    let tasks = s.create_tasks();
    let t = &tasks[0];
    assert_eq!(t.screen_to_world(0, 0), Complex::new(-2 * one, -one));
    assert_eq!(t.screen_to_world(8, 4), Complex::new(2 * one, one));
    assert_eq!(t.screen_to_world(4, 2), Complex::new(0, 0));
    assert_eq!(v.screen_to_world(2, 1), Complex::new(-one, -one / 2));
}

#[test]
fn screen_to_world_is_monotonic() {
    let v = Viewport::default();
    let mut last = v.screen_to_world(0, 0);
    for q in 1..200u64 {
        let c = v.screen_to_world(q * 19, q * 10);
        assert!(c.re >= last.re && c.im >= last.im);
        last = c;
    }
}

#[test]
fn tasks_tile_tall_image() {
    let v = Viewport::new(2, 1080, 1, 0, 0, FIXED_ONE as i32).unwrap();
    let s = Scene::new(Mandelbrot::default(), v);
    let tasks = s.create_tasks();
    assert_eq!(tasks.len(), 64);
    assert_eq!((tasks[0].ymin(), tasks[0].ymax()), (0, 15));
    assert_eq!((tasks[63].ymin(), tasks[63].ymax()), (1008, 1079));
    for i in 1..tasks.len() {
        assert_eq!(tasks[i].ymin(), tasks[i - 1].ymax() + 1);
    }
}

#[test]
fn tasks_tile_short_images() {
    for h in 1..70usize {
        let v = Viewport::new(1, h, 1, 0, 0, FIXED_ONE as i32).unwrap();
        let s = Scene::new(Mandelbrot::default(), v);
        let tasks = s.create_tasks();
        let mut next = 0;
        for t in &tasks {
            assert_eq!(t.ymin(), next);
            assert!(t.ymax() >= t.ymin());
            next = t.ymax() + 1;
        }
        assert_eq!(next, h);
    }
}

#[test]
fn one_pixel_render_far_point() {
    // The single sample lands on 10 + 10i, which escapes at once.
    let one = FIXED_ONE;
    let scene = one_pixel_scene(11 * one, 11 * one, vec![Color::new(10, 20, 30)]);
    let img = scene.generate_image().unwrap();
    assert_eq!(img.data(), &vec![10, 20, 30]);
}

#[test]
fn one_pixel_render_known_escape() {
    // The sample lands on 1.5, which escapes after one step; the doubled
    // count 2 is 2/32 of the way along the palette.
    let scene = one_pixel_scene(5 * FIXED_ONE / 2, FIXED_ONE, vec![Color::new(0, 0, 0), Color::new(160, 160, 160)]);
    let a = scene.generate_image().unwrap();
    let b = scene.generate_image().unwrap();
    assert_eq!(a.data(), &vec![10, 10, 10]);
    assert_eq!(a.data(), b.data());
}

#[test]
fn render_twice_is_identical() {
    let v = Viewport::new(24, 16, 2, -(FIXED_ONE as i32) / 2, 0, 2 * FIXED_ONE as i32).unwrap();
    let s = Scene::new(Mandelbrot::default(), v);
    let a = s.generate_image().unwrap();
    let b = s.generate_image().unwrap();
    assert_eq!(a.data().len(), 24 * 16 * 3);
    assert_eq!(a.data(), b.data());
    let bands: Vec<Vec<u8>> = s.create_tasks().iter().map(|t| t.run()).collect();
    let c = s.assemble(bands).unwrap();
    assert_eq!(c.data(), a.data());
}

#[test]
fn assemble_rejects_wrong_length() {
    let v = Viewport::new(2, 2, 1, 0, 0, FIXED_ONE as i32).unwrap();
    let s = Scene::new(Mandelbrot::default(), v);
    match s.assemble(vec![vec![0; 6], vec![0; 5]]) {
        Err(e) => assert_eq!(e, ImageError::Creation { got_len: 11, expected: 12 }),
        Ok(_) => panic!("short data accepted"),
    }
    assert!(s.assemble(vec![vec![0; 6], vec![], vec![0; 6]]).is_ok());
}

#[test]
fn pixel_is_mean_of_samples() {
    let scene = one_pixel_scene(11 * FIXED_ONE, 11 * FIXED_ONE, vec![Color::new(10, 20, 30)]);
    let tasks = scene.create_tasks();
    assert_eq!(tasks.len(), 1);
    assert_eq!(tasks[0].calculate_pixel(0, 0), Color::new(10, 20, 30));
    assert_eq!(tasks[0].run(), vec![10, 20, 30]);
}
