//! Viewports, row-band render tasks, and assembly of whole images.
use vstd::prelude::*;
use vstd::arithmetic::div_mod::{lemma_div_is_ordered, lemma_fundamental_div_mod};

use crate::fixed::{Complex, FIXED_ONE};
use crate::fractal::Mandelbrot;
use crate::palette::Color;
use crate::utils::{average_color, average_spec, lemma_remap_monotonic, lemma_remap_range, remap, remap_spec};

verus! {

/// Bytes per pixel: red, green, blue.
pub const CHANNELS: usize = 3;

/// The number of row bands an image of some height is cut into.
pub const BAND_COUNT: usize = 64;

/// Why an image could not be produced.
#[derive(Clone, Copy, Debug, PartialEq, Eq, Structural)]
pub enum ImageError {
    /// The pixel data does not have `width * height * 3` bytes.
    Creation { got_len: usize, expected: usize },
    /// A render worker did not complete.
    Threading,
}

impl ImageError {
    /// A short human-readable description of the error.
    pub fn message(&self) -> (s: String) {
        match self {
            ImageError::Creation { .. } => String::from_str("image creation error: data length does not match the dimensions"),
            ImageError::Threading => String::from_str("threading error"),
        }
    }
}

/// A raster image: dimensions and row-major RGB bytes.
#[derive(Debug)]
pub struct Image {
    width: usize,
    height: usize,
    data: Vec<u8>,
}

impl View for Image {
    type V = (nat, nat, Seq<u8>);

    closed spec fn view(&self) -> (nat, nat, Seq<u8>) {
        (self.width as nat, self.height as nat, self.data@)
    }
}

impl Image {
    /// A black image of the given size.
    pub fn new(width: usize, height: usize) -> (img: Image)
        requires
            width * height * 3 <= usize::MAX,
        ensures
            img@ == (width as nat, height as nat, Seq::new((width * height * 3) as nat, |i: int| 0u8)),
    {
        let n: usize = width * height * Self::channel_count();
        let mut data: Vec<u8> = Vec::new();
        let mut i: usize = 0;
        while i < n
            invariant
                i <= n,
                data@ == Seq::new(i as nat, |k: int| 0u8),
            decreases n - i,
        {
            data.push(0u8);
            i = i + 1;
            assert(data@ =~= Seq::new(i as nat, |k: int| 0u8));
        }
        Image { width, height, data }
    }

    /// An image over the given bytes, refused where their number does not
    /// match the dimensions.
    pub fn from(width: usize, height: usize, data: Vec<u8>) -> (r: Result<Image, ImageError>)
        requires
            width * height * 3 <= usize::MAX,
        ensures
            data@.len() == width * height * 3 ==> (match r {
                Ok(img) => img@ == (width as nat, height as nat, data@),
                Err(_) => false,
            }),
            data@.len() != width * height * 3 ==> r == Err::<Image, ImageError>(
                ImageError::Creation { got_len: data@.len() as usize, expected: (width * height * 3) as usize },
            ),
    {
        let expected: usize = width * height * Self::channel_count();
        if expected != data.len() {
            Err(ImageError::Creation { got_len: data.len(), expected })
        } else {
            Ok(Image { width, height, data })
        }
    }

    /// Bytes per pixel.
    pub fn channel_count() -> (n: usize)
        ensures
            n == 3,
    {
        CHANNELS
    }

    pub fn width(&self) -> (w: usize)
        ensures
            w == self@.0,
    {
        self.width
    }

    pub fn height(&self) -> (h: usize)
        ensures
            h == self@.1,
    {
        self.height
    }

    pub fn data(&self) -> (d: &Vec<u8>)
        ensures
            d@ == self@.2,
    {
        &self.data
    }
}

impl Default for Image {
    /// A black 1920 by 1080 image.
    fn default() -> (img: Image)
        ensures
            img@ == (1920nat, 1080nat, Seq::new(1920 * 1080 * 3, |i: int| 0u8)),
    {
        Image::new(1920, 1080)
    }
}


/// Whether the given dimensions, supersampling factor, center and zoom (the
/// world half-height, all in fixed point) make a usable viewport: nonzero
/// sizes, a positive zoom, sub-pixel coordinates within 32 bits, a byte
/// buffer within memory, and a world rectangle whose corners are
/// representable.
pub open spec fn viewport_ok(w: int, h: int, s: int, cx: int, cy: int, zoom: int) -> bool {
    &&& 1 <= w
    &&& 1 <= h
    &&& 1 <= s
    &&& 0 < zoom
    &&& w * s <= u32::MAX
    &&& h * s <= u32::MAX
    &&& w * h * 3 <= usize::MAX
    &&& i32::MIN <= cx - zoom * w / h
    &&& cx + zoom * w / h <= i32::MAX
    &&& i32::MIN <= cy - zoom
    &&& cy + zoom <= i32::MAX
}

/// Image dimensions, world-space center and zoom (half-height, fixed
/// point), and samples per pixel axis.
#[derive(Clone, Copy, Debug)]
pub struct Viewport {
    image_width: usize,
    image_height: usize,
    super_sampling: u32,
    cx: i32,
    cy: i32,
    zoom: i32,
}

impl Viewport {
    pub closed spec fn width_spec(&self) -> int {
        self.image_width as int
    }

    pub closed spec fn height_spec(&self) -> int {
        self.image_height as int
    }

    pub closed spec fn samples_spec(&self) -> int {
        self.super_sampling as int
    }

    pub closed spec fn cx_spec(&self) -> int {
        self.cx as int
    }

    pub closed spec fn cy_spec(&self) -> int {
        self.cy as int
    }

    pub closed spec fn zoom_spec(&self) -> int {
        self.zoom as int
    }

    pub open spec fn wf(&self) -> bool {
        viewport_ok(
            self.width_spec(),
            self.height_spec(),
            self.samples_spec(),
            self.cx_spec(),
            self.cy_spec(),
            self.zoom_spec(),
        )
    }

    #[verifier::type_invariant]
    spec fn inv(&self) -> bool {
        self.wf()
    }

    /// World half-width: the zoom scaled by the aspect ratio.
    pub open spec fn half_width_spec(&self) -> int {
        self.zoom_spec() * self.width_spec() / self.height_spec()
    }

    /// Sub-pixel columns across the image.
    pub open spec fn span_x_spec(&self) -> int {
        self.width_spec() * self.samples_spec()
    }

    /// Sub-pixel rows down the image.
    pub open spec fn span_y_spec(&self) -> int {
        self.height_spec() * self.samples_spec()
    }

    /// The world point of the sub-pixel position `(qx, qy)`, in units of one
    /// sample, that is `(qx / s, qy / s)` in pixels.
    pub open spec fn world_spec(&self, qx: int, qy: int) -> Complex {
        Complex {
            re: remap_spec(
                qx,
                0,
                self.span_x_spec(),
                self.cx_spec() - self.half_width_spec(),
                self.cx_spec() + self.half_width_spec(),
            ) as i32,
            im: remap_spec(
                qy,
                0,
                self.span_y_spec(),
                self.cy_spec() - self.zoom_spec(),
                self.cy_spec() + self.zoom_spec(),
            ) as i32,
        }
    }

    /// A viewport, or nothing where the values do not make a usable one.
    pub fn new(image_width: usize, image_height: usize, super_sampling: u32, cx: i32, cy: i32, zoom: i32) -> (r: Option<Viewport>)
        ensures
            viewport_ok(
                image_width as int,
                image_height as int,
                super_sampling as int,
                cx as int,
                cy as int,
                zoom as int,
            ) <==> r is Some,
            r matches Some(v) ==> {
                &&& v.width_spec() == image_width
                &&& v.height_spec() == image_height
                &&& v.samples_spec() == super_sampling
                &&& v.cx_spec() == cx
                &&& v.cy_spec() == cy
                &&& v.zoom_spec() == zoom
            },
    {
        if image_width == 0 || image_height == 0 || super_sampling == 0 || zoom <= 0 {
            return None;
        }
        let w: u128 = image_width as u128;
        let h: u128 = image_height as u128;
        let s: u128 = super_sampling as u128;
        assert(w * s <= 0xffff_ffff_ffff_ffff * 0xffff_ffff) by (nonlinear_arith)
            requires w <= 0xffff_ffff_ffff_ffffu128, s <= 0xffff_ffffu128;
        assert(h * s <= 0xffff_ffff_ffff_ffff * 0xffff_ffff) by (nonlinear_arith)
            requires h <= 0xffff_ffff_ffff_ffffu128, s <= 0xffff_ffffu128;
        if w * s > u32::MAX as u128 || h * s > u32::MAX as u128 {
            return None;
        }
        assert(w <= 0xffff_ffff && h <= 0xffff_ffff) by (nonlinear_arith)
            requires w * s <= 0xffff_ffff, h * s <= 0xffff_ffff, 1 <= s;
        assert(w * h * 3 <= 3 * 0xffff_ffff * 0xffff_ffff) by (nonlinear_arith)
            requires w <= 0xffff_ffffu128, h <= 0xffff_ffffu128;
        if w * h * 3 > usize::MAX as u128 {
            return None;
        }
        assert(0 <= zoom * image_width <= 0x8000_0000 * 0xffff_ffff) by (nonlinear_arith)
            requires 0 < zoom < 0x8000_0000, 0 <= image_width <= 0xffff_ffff;
        let zw: i128 = zoom as i128 * image_width as i128;
        let hw: i128 = zw / image_height as i128;
        proof {
            vstd::arithmetic::div_mod::lemma_div_is_ordered(zw as int, 0x8000_0000int * 0xffff_ffff, image_height as int);
            vstd::arithmetic::div_mod::lemma_div_is_ordered(0int, zw as int, image_height as int);
            assert(0x8000_0000int * 0xffff_ffff / (image_height as int) <= 0x8000_0000int * 0xffff_ffff) by (nonlinear_arith)
                requires image_height >= 1;
        }
        if (cx as i128) - hw < i32::MIN as i128 || (cx as i128) + hw > i32::MAX as i128 {
            return None;
        }
        if (cy as i128) - (zoom as i128) < i32::MIN as i128 || (cy as i128) + (zoom as i128) > i32::MAX as i128 {
            return None;
        }
        Some(Viewport { image_width, image_height, super_sampling, cx, cy, zoom })
    }

    pub fn image_width(&self) -> (w: usize)
        ensures
            w == self.width_spec(),
    {
        self.image_width
    }

    pub fn image_height(&self) -> (h: usize)
        ensures
            h == self.height_spec(),
    {
        self.image_height
    }

    pub fn super_sampling(&self) -> (s: u32)
        ensures
            s == self.samples_spec(),
    {
        self.super_sampling
    }

    pub fn center(&self) -> (c: Complex)
        ensures
            c == (Complex { re: self.cx_spec() as i32, im: self.cy_spec() as i32 }),
    {
        Complex::new(self.cx, self.cy)
    }

    pub fn zoom(&self) -> (z: i32)
        ensures
            z == self.zoom_spec(),
    {
        self.zoom
    }

    /// The world point of the sub-pixel position `(qx, qy)`, measured in
    /// samples (a pixel spans `super_sampling` of them on each axis).
    pub fn screen_to_world(&self, qx: u64, qy: u64) -> (c: Complex)
        requires
            qx <= self.span_x_spec(),
            qy <= self.span_y_spec(),
        ensures
            c == self.world_spec(qx as int, qy as int),
    {
        proof {
            use_type_invariant(self);
            assert(1 <= self.span_x_spec() <= 0xffff_ffff && 1 <= self.span_y_spec() <= 0xffff_ffff
                && self.width_spec() <= 0xffff_ffff) by (nonlinear_arith)
                requires self.width_spec() >= 1, self.height_spec() >= 1, self.samples_spec() >= 1,
                    self.span_x_spec() == self.width_spec() * self.samples_spec(),
                    self.span_y_spec() == self.height_spec() * self.samples_spec(),
                    self.width_spec() * self.samples_spec() <= 0xffff_ffff,
                    self.height_spec() * self.samples_spec() <= 0xffff_ffff;
            assert(0 <= self.zoom * self.image_width <= 0x8000_0000 * 0xffff_ffff) by (nonlinear_arith)
                requires 0 < self.zoom < 0x8000_0000, 0 <= self.image_width <= 0xffff_ffff;
        }
        let hw: i128 = (self.zoom as i128 * self.image_width as i128) / self.image_height as i128;
        let span_x: u64 = self.image_width as u64 * self.super_sampling as u64;
        let span_y: u64 = self.image_height as u64 * self.super_sampling as u64;
        let re = remap(
            qx as i64,
            0,
            span_x as i64,
            (self.cx as i128 - hw) as i32,
            (self.cx as i128 + hw) as i32,
        );
        let im = remap(
            qy as i64,
            0,
            span_y as i64,
            (self.cy as i128 - self.zoom as i128) as i32,
            (self.cy as i128 + self.zoom as i128) as i32,
        );
        Complex::new(re, im)
    }
}

/// The corners of the image go to the corners of the world rectangle.
pub proof fn lemma_screen_to_world_corners(v: Viewport)
    requires
        v.wf(),
    ensures
        v.world_spec(0, 0) == (Complex {
            re: (v.cx_spec() - v.half_width_spec()) as i32,
            im: (v.cy_spec() - v.zoom_spec()) as i32,
        }),
        v.world_spec(v.span_x_spec(), v.span_y_spec()) == (Complex {
            re: (v.cx_spec() + v.half_width_spec()) as i32,
            im: (v.cy_spec() + v.zoom_spec()) as i32,
        }),
{
    assert(v.span_x_spec() >= 1 && v.span_y_spec() >= 1) by (nonlinear_arith)
        requires v.width_spec() >= 1, v.height_spec() >= 1, v.samples_spec() >= 1,
            v.span_x_spec() == v.width_spec() * v.samples_spec(),
            v.span_y_spec() == v.height_spec() * v.samples_spec();
    lemma_remap_range(0, 0, v.span_x_spec(), v.cx_spec() - v.half_width_spec(), v.cx_spec() + v.half_width_spec());
    lemma_remap_range(0, 0, v.span_y_spec(), v.cy_spec() - v.zoom_spec(), v.cy_spec() + v.zoom_spec());
}

/// Moving right or down in the image never moves left or down in the world.
pub proof fn lemma_screen_to_world_monotonic(v: Viewport, qx1: int, qy1: int, qx2: int, qy2: int)
    requires
        v.wf(),
        0 <= qx1 <= qx2 <= v.span_x_spec(),
        0 <= qy1 <= qy2 <= v.span_y_spec(),
    ensures
        v.world_spec(qx1, qy1).re <= v.world_spec(qx2, qy2).re,
        v.world_spec(qx1, qy1).im <= v.world_spec(qx2, qy2).im,
{
    assert(v.span_x_spec() >= 1 && v.span_y_spec() >= 1) by (nonlinear_arith)
        requires v.width_spec() >= 1, v.height_spec() >= 1, v.samples_spec() >= 1,
            v.span_x_spec() == v.width_spec() * v.samples_spec(),
            v.span_y_spec() == v.height_spec() * v.samples_spec();
    assert(v.half_width_spec() >= 0) by (nonlinear_arith)
        requires v.zoom_spec() > 0, v.width_spec() >= 1, v.height_spec() >= 1,
            v.half_width_spec() == v.zoom_spec() * v.width_spec() / v.height_spec();
    let (x0, x1) = (v.cx_spec() - v.half_width_spec(), v.cx_spec() + v.half_width_spec());
    let (y0, y1) = (v.cy_spec() - v.zoom_spec(), v.cy_spec() + v.zoom_spec());
    lemma_remap_range(qx1, 0, v.span_x_spec(), x0, x1);
    lemma_remap_range(qx2, 0, v.span_x_spec(), x0, x1);
    lemma_remap_range(qy1, 0, v.span_y_spec(), y0, y1);
    lemma_remap_range(qy2, 0, v.span_y_spec(), y0, y1);
    lemma_remap_monotonic(qx1, qx2, 0, v.span_x_spec(), x0, x1);
    lemma_remap_monotonic(qy1, qy2, 0, v.span_y_spec(), y0, y1);
}

impl Default for Viewport {
    /// 1920 by 1080 pixels, two samples per axis, centered at -0.5 with a
    /// world half-height of 2.
    fn default() -> (v: Viewport)
        ensures
            v.width_spec() == 1920,
            v.height_spec() == 1080,
            v.samples_spec() == 2,
            v.cx_spec() == -FIXED_ONE / 2,
            v.cy_spec() == 0,
            v.zoom_spec() == 2 * FIXED_ONE,
    {
        let v = Viewport {
            image_width: 1920,
            image_height: 1080,
            super_sampling: 2,
            cx: -(FIXED_ONE / 2) as i32,
            cy: 0,
            zoom: (2 * FIXED_ONE) as i32,
        };
        assert(v.wf());
        v
    }
}


/// The world point of sample `k` of pixel `(x, y)`: samples run over a
/// `s` by `s` grid inside the pixel, column of the grid first.
pub open spec fn sample_point(v: Viewport, x: int, y: int, k: int) -> Complex {
    v.world_spec(x * v.samples_spec() + k / v.samples_spec(), y * v.samples_spec() + k % v.samples_spec())
}

/// The color of sample `k` of pixel `(x, y)`: the fractal's color of twice
/// the escape-time count of the sample's world point.
pub open spec fn sample_color(v: Viewport, f: Mandelbrot, x: int, y: int, k: int) -> Color {
    f.color_spec(2 * (f.iterations_spec(sample_point(v, x, y, k)) as int))
}

/// The colors of all samples of pixel `(x, y)`.
pub open spec fn pixel_samples(v: Viewport, f: Mandelbrot, x: int, y: int) -> Seq<Color> {
    Seq::new((v.samples_spec() * v.samples_spec()) as nat, |k: int| sample_color(v, f, x, y, k))
}

/// The color of pixel `(x, y)`: the truncated mean of its samples.
pub open spec fn pixel_color(v: Viewport, f: Mandelbrot, x: int, y: int) -> Color {
    average_spec(pixel_samples(v, f, x, y))
}

/// The pixels of row `y`, left to right.
pub open spec fn row_pixels(v: Viewport, f: Mandelbrot, y: int) -> Seq<Color> {
    Seq::new(v.width_spec() as nat, |x: int| pixel_color(v, f, x, y))
}

/// The pixels of rows `lo` through `hi`, row after row.
pub open spec fn band_pixels(v: Viewport, f: Mandelbrot, lo: int, hi: int) -> Seq<Color>
    decreases hi - lo + 1,
{
    if hi < lo {
        Seq::empty()
    } else {
        band_pixels(v, f, lo, hi - 1) + row_pixels(v, f, hi)
    }
}

/// Three bytes per color, red, green, blue, in order.
pub open spec fn to_bytes(colors: Seq<Color>) -> Seq<u8>
    decreases colors.len(),
{
    if colors.len() == 0 {
        Seq::empty()
    } else {
        to_bytes(colors.drop_last()) + seq![colors.last().red, colors.last().green, colors.last().blue]
    }
}

pub proof fn lemma_to_bytes_concat(a: Seq<Color>, b: Seq<Color>)
    ensures
        to_bytes(a + b) == to_bytes(a) + to_bytes(b),
        to_bytes(a).len() == 3 * a.len(),
    decreases b.len() + a.len(),
{
    if b.len() == 0 {
        assert(a + b =~= a);
        assert(to_bytes(a) + to_bytes(b) =~= to_bytes(a));
        if a.len() > 0 {
            lemma_to_bytes_concat(a.drop_last(), b);
        }
    } else {
        assert((a + b).drop_last() =~= a + b.drop_last());
        lemma_to_bytes_concat(a, b.drop_last());
        assert((a + b).last() == b.last());
        assert(to_bytes(a + b) =~= to_bytes(a) + to_bytes(b));
    }
}

/// A band of rows is the band up to `mid` followed by the band after it.
pub proof fn lemma_band_split(v: Viewport, f: Mandelbrot, lo: int, mid: int, hi: int)
    requires
        lo <= mid + 1,
        mid <= hi,
    ensures
        band_pixels(v, f, lo, hi) == band_pixels(v, f, lo, mid) + band_pixels(v, f, mid + 1, hi),
    decreases hi - mid,
{
    if hi == mid {
        assert(band_pixels(v, f, mid + 1, hi) =~= Seq::<Color>::empty());
        assert(band_pixels(v, f, lo, hi) =~= band_pixels(v, f, lo, mid) + band_pixels(v, f, mid + 1, hi));
    } else {
        lemma_band_split(v, f, lo, mid, hi - 1);
        assert(band_pixels(v, f, lo, hi) =~= band_pixels(v, f, lo, mid) + band_pixels(v, f, mid + 1, hi));
    }
}

/// A band of rows holds one row of pixels per row.
pub proof fn lemma_band_len(v: Viewport, f: Mandelbrot, lo: int, hi: int)
    requires
        lo <= hi + 1,
        0 <= v.width_spec(),
    ensures
        band_pixels(v, f, lo, hi).len() == (hi - lo + 1) * v.width_spec(),
    decreases hi - lo + 1,
{
    if hi >= lo {
        lemma_band_len(v, f, lo, hi - 1);
        assert((hi - 1 - lo + 1) * v.width_spec() + v.width_spec() == (hi - lo + 1) * v.width_spec()) by (nonlinear_arith);
        assert(row_pixels(v, f, hi).len() == v.width_spec());
    } else {
        assert(hi - lo + 1 == 0);
        assert((hi - lo + 1) * v.width_spec() == 0);
    }
}

/// The number of row bands of an image of height `h`.
pub open spec fn band_count(h: int) -> int {
    if h >= BAND_COUNT { BAND_COUNT as int } else { h }
}

/// Rows per band (the last band also takes the remainder).
pub open spec fn band_step(h: int) -> int {
    h / band_count(h)
}

/// First row of band `i`.
pub open spec fn band_lo(h: int, i: int) -> int {
    i * band_step(h)
}

/// Last row of band `i`.
pub open spec fn band_hi(h: int, i: int) -> int {
    if i + 1 == band_count(h) { h - 1 } else { (i + 1) * band_step(h) - 1 }
}

proof fn lemma_step_facts(h: int)
    requires
        1 <= h,
    ensures
        1 <= band_count(h) <= h,
        1 <= band_step(h),
        band_count(h) * band_step(h) <= h,
{
    let n = band_count(h);
    lemma_fundamental_div_mod(h, n);
    lemma_div_is_ordered(n, h, n);
    vstd::arithmetic::div_mod::lemma_div_multiples_vanish(1, n);
    assert(n * 1 == n);
    assert(n * (h / n) <= h);
}

/// The bands of an image of height `h` follow one another without gap or
/// overlap: the first starts at row 0, each starts right after the one
/// before, none is empty, and the last ends at row `h - 1`.
pub proof fn lemma_bands_adjacent(h: int)
    requires
        1 <= h,
    ensures
        band_count(h) >= 1,
        band_lo(h, 0) == 0,
        band_hi(h, band_count(h) - 1) == h - 1,
        forall|i: int| 0 <= i < band_count(h) ==> 0 <= #[trigger] band_lo(h, i) <= band_hi(h, i) < h,
        forall|i: int| 0 <= i < band_count(h) - 1 ==> #[trigger] band_hi(h, i) + 1 == band_lo(h, i + 1),
{
    lemma_step_facts(h);
    let n = band_count(h);
    let st = band_step(h);
    assert forall|i: int| 0 <= i < n implies 0 <= #[trigger] band_lo(h, i) <= band_hi(h, i) < h by {
        assert(0 <= i * st) by (nonlinear_arith) requires 0 <= i, 1 <= st;
        assert((i + 1) * st == i * st + st) by (nonlinear_arith);
        assert((n - 1) * st == n * st - st) by (nonlinear_arith);
        if i + 1 < n {
            assert((i + 1) * st <= (n - 1) * st) by (nonlinear_arith) requires i + 1 <= n - 1, 1 <= st;
        } else {
            assert(i * st == (n - 1) * st);
        }
    }
    assert(band_lo(h, 0) == 0 * st);
}

/// Every row of an image of height `h` lies in exactly one band, and bands
/// come in ascending order of rows.
pub proof fn lemma_bands_tile(h: int, y: int)
    requires
        0 <= y < h,
    ensures
        exists|i: int| 0 <= i < band_count(h) && #[trigger] band_lo(h, i) <= y <= band_hi(h, i),
        forall|i: int, j: int|
            0 <= i < band_count(h) && 0 <= j < band_count(h) && #[trigger] band_lo(h, i) <= y <= band_hi(h, i)
                && #[trigger] band_lo(h, j) <= y <= band_hi(h, j) ==> i == j,
        forall|i: int, j: int| 0 <= i < j < band_count(h) ==> #[trigger] band_hi(h, i) < #[trigger] band_lo(h, j),
{
    lemma_step_facts(h);
    lemma_bands_adjacent(h);
    let n = band_count(h);
    let st = band_step(h);
    assert forall|i: int, j: int| 0 <= i < j < n implies #[trigger] band_hi(h, i) < #[trigger] band_lo(h, j) by {
        assert((i + 1) * st <= j * st) by (nonlinear_arith) requires i + 1 <= j, 1 <= st;
        assert(band_lo(h, i + 1) == (i + 1) * st);
        assert(band_hi(h, i) + 1 == band_lo(h, i + 1));
    }
    lemma_fundamental_div_mod(y, st);
    let q = y / st;
    let i = if q < n - 1 { q } else { n - 1 };
    assert(0 <= q) by {
        lemma_div_is_ordered(0, y, st);
    }
    assert(i * st <= q * st) by (nonlinear_arith) requires 0 <= i <= q, 1 <= st;
    assert(st * q == q * st);
    if i < n - 1 {
        assert((q + 1) * st == q * st + st) by (nonlinear_arith);
    }
    assert(band_lo(h, i) <= y <= band_hi(h, i));
}

/// A unit of rendering work: the inclusive row band `ymin..=ymax` of one
/// viewport and fractal.
pub struct RenderTask<'a> {
    viewport: &'a Viewport,
    fractal: &'a Mandelbrot,
    ymin: usize,
    ymax: usize,
}

impl<'a> RenderTask<'a> {
    pub closed spec fn viewport_spec(&self) -> Viewport {
        *self.viewport
    }

    pub closed spec fn fractal_spec(&self) -> Mandelbrot {
        *self.fractal
    }

    pub closed spec fn ymin_spec(&self) -> int {
        self.ymin as int
    }

    pub closed spec fn ymax_spec(&self) -> int {
        self.ymax as int
    }

    #[verifier::type_invariant]
    spec fn inv(&self) -> bool {
        self.ymin <= self.ymax < self.viewport.height_spec()
    }

    /// The bytes of this band, row after row.
    pub open spec fn bytes_spec(&self) -> Seq<u8> {
        to_bytes(band_pixels(self.viewport_spec(), self.fractal_spec(), self.ymin_spec(), self.ymax_spec()))
    }

    pub fn ymin(&self) -> (y: usize)
        ensures
            y == self.ymin_spec(),
    {
        self.ymin
    }

    pub fn ymax(&self) -> (y: usize)
        ensures
            y == self.ymax_spec(),
    {
        self.ymax
    }

    /// The world point of a sub-pixel position, as the viewport maps it.
    pub fn screen_to_world(&self, qx: u64, qy: u64) -> (c: Complex)
        requires
            qx <= self.viewport_spec().span_x_spec(),
            qy <= self.viewport_spec().span_y_spec(),
        ensures
            c == self.viewport_spec().world_spec(qx as int, qy as int),
    {
        self.viewport.screen_to_world(qx, qy)
    }

    /// The color of pixel `(x, y)`: the mean of its supersampled colors.
    pub fn calculate_pixel(&self, x: usize, y: usize) -> (c: Color)
        requires
            x < self.viewport_spec().width_spec(),
            y < self.viewport_spec().height_spec(),
        ensures
            c == pixel_color(self.viewport_spec(), self.fractal_spec(), x as int, y as int),
    {
        let ghost v = self.viewport_spec();
        let ghost f = self.fractal_spec();
        proof {
            use_type_invariant(self.viewport);
        }
        let s: u64 = self.viewport.super_sampling() as u64;
        let w: u64 = self.viewport.image_width() as u64;
        let h: u64 = self.viewport.image_height() as u64;
        proof {
            assert(w * s <= 0xffff_ffff && h * s <= 0xffff_ffff && s <= 0xffff_ffff);
            assert(s * s <= 0xffff_ffff * 0xffff_ffff) by (nonlinear_arith)
                requires s <= 0xffff_ffff;
        }
        let n: u64 = s * s;
        let mut colors: Vec<Color> = Vec::new();
        let mut k: u64 = 0;
        while k < n
            invariant
                v == self.viewport_spec(),
                f == self.fractal_spec(),
                s == v.samples_spec(),
                w == v.width_spec(),
                h == v.height_spec(),
                1 <= s,
                w * s <= 0xffff_ffff,
                h * s <= 0xffff_ffff,
                x < w,
                y < h,
                n == s * s,
                k <= n,
                colors@.len() == k,
                forall|j: int| 0 <= j < k ==> colors@[j] == #[trigger] sample_color(v, f, x as int, y as int, j),
            decreases n - k,
        {
            let sx: u64 = k / s;
            let sy: u64 = k % s;
            proof {
                lemma_fundamental_div_mod(k as int, s as int);
                assert(sx < s) by (nonlinear_arith)
                    requires k < s * s, k == s * sx + sy, 0 <= sy, 1 <= s, sx == k / s;
                assert(x * s + sx < w * s && y * s + sy < h * s) by (nonlinear_arith)
                    requires x < w, y < h, sx < s, sy < s, 0 <= sx, 0 <= sy;
            }
            let qx: u64 = x as u64 * s + sx;
            let qy: u64 = y as u64 * s + sy;
            let c = self.viewport.screen_to_world(qx, qy);
            let it = self.fractal.get_iterations(c);
            let doubled: u32 = if it > u32::MAX / 2 { u32::MAX } else { 2 * it };
            let col = self.fractal.get_color(doubled);
            proof {
                assert(f.color_spec(doubled as int) == f.color_spec(2 * (it as int)));
                assert(col == sample_color(v, f, x as int, y as int, k as int));
            }
            colors.push(col);
            k = k + 1;
        }
        proof {
            assert(colors@ =~= pixel_samples(v, f, x as int, y as int));
        }
        average_color(colors.as_slice())
    }

    /// The bytes of this band: three per pixel, left to right, top to bottom.
    pub fn run(&self) -> (data: Vec<u8>)
        ensures
            data@ == self.bytes_spec(),
    {
        let ghost v = self.viewport_spec();
        let ghost f = self.fractal_spec();
        proof {
            use_type_invariant(self);
        }
        let ymin = self.ymin;
        let ymax = self.ymax;
        let w: usize = self.viewport.image_width();
        let mut data: Vec<u8> = Vec::new();
        let mut y: usize = ymin;
        let ghost mut done: Seq<Color> = Seq::empty();
        assert(band_pixels(v, f, ymin as int, ymin - 1) =~= Seq::<Color>::empty());
        while y <= ymax
            invariant
                v == self.viewport_spec(),
                f == self.fractal_spec(),
                ymin == self.ymin_spec(),
                ymax == self.ymax_spec(),
                ymax < v.height_spec(),
                w == v.width_spec(),
                ymin <= y <= ymax + 1,
                done == band_pixels(v, f, ymin as int, y - 1),
                data@ == to_bytes(done),
            decreases ymax + 1 - y,
        {
            let mut x: usize = 0;
            let ghost before = done;
            while x < w
                invariant
                    v == self.viewport_spec(),
                    f == self.fractal_spec(),
                    ymax < v.height_spec(),
                    w == v.width_spec(),
                    y <= ymax,
                    x <= w,
                    done == before + row_pixels(v, f, y as int).take(x as int),
                    data@ == to_bytes(done),
                decreases w - x,
            {
                let color = self.calculate_pixel(x, y);
                data.push(color.r());
                data.push(color.g());
                data.push(color.b());
                proof {
                    let next = done.push(color);
                    assert(next.drop_last() =~= done);
                    assert(data@ =~= to_bytes(next));
                    assert(before + row_pixels(v, f, y as int).take(x + 1) =~= next);
                    done = next;
                }
                x = x + 1;
            }
            proof {
                assert(row_pixels(v, f, y as int).take(w as int) =~= row_pixels(v, f, y as int));
                assert(band_pixels(v, f, ymin as int, y as int) == before + row_pixels(v, f, y as int));
            }
            y = y + 1;
        }
        data
    }
}

/// The bytes of each band, one after another.
pub open spec fn concat_bands(bands: Seq<Vec<u8>>) -> Seq<u8>
    decreases bands.len(),
{
    if bands.len() == 0 {
        Seq::empty()
    } else {
        concat_bands(bands.drop_last()) + bands.last()@
    }
}

/// A fractal seen through a viewport: the unit that renders one image.
#[derive(Clone, Debug)]
pub struct Scene {
    fractal: Mandelbrot,
    viewport: Viewport,
}

impl Scene {
    pub closed spec fn fractal_spec(&self) -> Mandelbrot {
        self.fractal
    }

    pub closed spec fn viewport_spec(&self) -> Viewport {
        self.viewport
    }

    /// The bytes of the whole image, row after row.
    pub open spec fn image_bytes(&self) -> Seq<u8> {
        to_bytes(band_pixels(self.viewport_spec(), self.fractal_spec(), 0, self.viewport_spec().height_spec() - 1))
    }

    pub fn new(fractal: Mandelbrot, viewport: Viewport) -> (s: Scene)
        ensures
            s.fractal_spec() == fractal,
            s.viewport_spec() == viewport,
    {
        Scene { fractal, viewport }
    }

    pub fn viewport(&self) -> (v: &Viewport)
        ensures
            *v == self.viewport_spec(),
    {
        &self.viewport
    }

    pub fn fractal(&self) -> (f: &Mandelbrot)
        ensures
            *f == self.fractal_spec(),
    {
        &self.fractal
    }

    /// One task per row band, in ascending row order, covering every row
    /// exactly once.
    pub fn create_tasks(&self) -> (tasks: Vec<RenderTask<'_>>)
        ensures
            tasks@.len() == band_count(self.viewport_spec().height_spec()),
            forall|i: int| 0 <= i < tasks@.len() ==> {
                &&& (#[trigger] tasks@[i]).viewport_spec() == self.viewport_spec()
                &&& tasks@[i].fractal_spec() == self.fractal_spec()
                &&& tasks@[i].ymin_spec() == band_lo(self.viewport_spec().height_spec(), i)
                &&& tasks@[i].ymax_spec() == band_hi(self.viewport_spec().height_spec(), i)
            },
    {
        proof {
            use_type_invariant(&self.viewport);
        }
        let h: usize = self.viewport.image_height();
        let ghost hi = h as int;
        proof {
            lemma_bands_adjacent(hi);
            lemma_step_facts(hi);
        }
        let n: usize = if h >= BAND_COUNT { BAND_COUNT } else { h };
        let step: usize = h / n;
        let mut tasks: Vec<RenderTask<'_>> = Vec::new();
        let mut i: usize = 0;
        while i < n
            invariant
                hi == h,
                h == self.viewport_spec().height_spec(),
                n == band_count(hi),
                step == band_step(hi),
                n * step <= h,
                1 <= step,
                i <= n,
                forall|j: int| 0 <= j < n ==> 0 <= #[trigger] band_lo(hi, j) <= band_hi(hi, j) < hi,
                tasks@.len() == i,
                forall|j: int| 0 <= j < i ==> {
                    &&& (#[trigger] tasks@[j]).viewport_spec() == self.viewport_spec()
                    &&& tasks@[j].fractal_spec() == self.fractal_spec()
                    &&& tasks@[j].ymin_spec() == band_lo(hi, j)
                    &&& tasks@[j].ymax_spec() == band_hi(hi, j)
                },
            decreases n - i,
        {
            proof {
                assert((i + 1) * step <= n * step) by (nonlinear_arith) requires i + 1 <= n, 1 <= step;
                assert(band_lo(hi, i as int) <= band_hi(hi, i as int) < hi);
            }
            let lo: usize = i * step;
            let top: usize = if i + 1 == n { h - 1 } else { (i + 1) * step - 1 };
            tasks.push(RenderTask { viewport: &self.viewport, fractal: &self.fractal, ymin: lo, ymax: top });
            i = i + 1;
        }
        tasks
    }

    /// The whole image, band by band in row order.
    pub fn generate_image(&self) -> (r: Result<Image, ImageError>)
        ensures
            match r {
                Ok(img) => img@ == (
                    self.viewport_spec().width_spec() as nat,
                    self.viewport_spec().height_spec() as nat,
                    self.image_bytes(),
                ),
                Err(_) => false,
            },
    {
        proof {
            use_type_invariant(&self.viewport);
        }
        let ghost v = self.viewport_spec();
        let ghost f = self.fractal_spec();
        let ghost h = v.height_spec();
        let tasks = self.create_tasks();
        proof {
            lemma_bands_adjacent(h);
        }
        let mut data: Vec<u8> = Vec::new();
        let mut i: usize = 0;
        assert(band_pixels(v, f, 0, -1) =~= Seq::<Color>::empty());
        while i < tasks.len()
            invariant
                v == self.viewport_spec(),
                f == self.fractal_spec(),
                h == v.height_spec(),
                1 <= h,
                tasks@.len() == band_count(h),
                band_lo(h, 0) == 0,
                band_hi(h, band_count(h) - 1) == h - 1,
                forall|j: int| 0 <= j < band_count(h) ==> 0 <= #[trigger] band_lo(h, j) <= band_hi(h, j) < h,
                forall|j: int| 0 <= j < band_count(h) - 1 ==> #[trigger] band_hi(h, j) + 1 == band_lo(h, j + 1),
                forall|j: int| 0 <= j < tasks@.len() ==> {
                    &&& (#[trigger] tasks@[j]).viewport_spec() == self.viewport_spec()
                    &&& tasks@[j].fractal_spec() == self.fractal_spec()
                    &&& tasks@[j].ymin_spec() == band_lo(h, j)
                    &&& tasks@[j].ymax_spec() == band_hi(h, j)
                },
                i <= tasks@.len(),
                i == 0 ==> data@ == Seq::<u8>::empty(),
                i > 0 ==> data@ == to_bytes(band_pixels(v, f, 0, band_hi(h, i - 1))),
            decreases tasks@.len() - i,
        {
            let mut band = tasks[i].run();
            proof {
                let lo = band_lo(h, i as int);
                let top = band_hi(h, i as int);
                if i > 0 {
                    assert(band_hi(h, i - 1) + 1 == lo);
                    lemma_band_split(v, f, 0, lo - 1, top);
                } else {
                    assert(band_pixels(v, f, 0, -1) =~= Seq::<Color>::empty());
                    lemma_band_split(v, f, 0, -1, top);
                }
                lemma_to_bytes_concat(band_pixels(v, f, 0, lo - 1), band_pixels(v, f, lo, top));
                assert(to_bytes(Seq::<Color>::empty()) =~= Seq::<u8>::empty());
            }
            data.append(&mut band);
            i = i + 1;
        }
        proof {
            lemma_band_len(v, f, 0, h - 1);
            lemma_to_bytes_concat(band_pixels(v, f, 0, h - 1), Seq::empty());
            assert(v.width_spec() * h * 3 == 3 * (h * v.width_spec())) by (nonlinear_arith);
        }
        Image::from(self.viewport.image_width(), self.viewport.image_height(), data)
    }

    /// An image from bands rendered elsewhere, joined in the order given;
    /// refused where the bytes do not fill the viewport exactly.
    pub fn assemble(&self, bands: Vec<Vec<u8>>) -> (r: Result<Image, ImageError>)
        ensures
            concat_bands(bands@).len() == self.viewport_spec().width_spec() * self.viewport_spec().height_spec() * 3
                ==> (match r {
                Ok(img) => img@ == (
                    self.viewport_spec().width_spec() as nat,
                    self.viewport_spec().height_spec() as nat,
                    concat_bands(bands@),
                ),
                Err(_) => false,
            }),
            concat_bands(bands@).len() != self.viewport_spec().width_spec() * self.viewport_spec().height_spec() * 3
                ==> r == Err::<Image, ImageError>(ImageError::Creation {
                got_len: concat_bands(bands@).len() as usize,
                expected: (self.viewport_spec().width_spec() * self.viewport_spec().height_spec() * 3) as usize,
            }),
    {
        proof {
            use_type_invariant(&self.viewport);
        }
        let mut data: Vec<u8> = Vec::new();
        let mut rest = bands;
        let ghost all = rest@;
        let mut i: usize = 0;
        let n = rest.len();
        while i < n
            invariant
                n == all.len(),
                rest@.len() == all.len(),
                i <= n,
                forall|j: int| i <= j < n ==> (#[trigger] rest@[j])@ == all[j]@,
                data@ == concat_bands(all.take(i as int)),
            decreases n - i,
        {
            let mut band: Vec<u8> = Vec::new();
            std::mem::swap(&mut band, &mut rest[i]);
            proof {
                assert(all.take(i + 1).drop_last() =~= all.take(i as int));
            }
            data.append(&mut band);
            i = i + 1;
        }
        proof {
            assert(all.take(n as int) =~= all);
        }
        Image::from(self.viewport.image_width(), self.viewport.image_height(), data)
    }
}

/// Rendering is a function of the scene alone: two images that both meet
/// what rendering a scene promises hold the same dimensions and bytes.
pub proof fn lemma_render_idempotent(scene: Scene, a: Image, b: Image)
    requires
        a@ == (
            scene.viewport_spec().width_spec() as nat,
            scene.viewport_spec().height_spec() as nat,
            scene.image_bytes(),
        ),
        b@ == (
            scene.viewport_spec().width_spec() as nat,
            scene.viewport_spec().height_spec() as nat,
            scene.image_bytes(),
        ),
    ensures
        a@ == b@,
        a@.2.len() == b@.2.len(),
{
}

impl Default for Scene {
    /// The default fractal through the default viewport.
    fn default() -> (s: Scene)
        ensures
            s.viewport_spec().width_spec() == 1920,
            s.viewport_spec().height_spec() == 1080,
            s.fractal_spec().max_iterations_spec() == 128,
    {
        Scene { fractal: Mandelbrot::default(), viewport: Viewport::default() }
    }
}

} // verus!
