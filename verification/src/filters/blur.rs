use vstd::prelude::*;
use crate::base::raster::{Rgba, RgbaImage};

verus! {

/// The gray level of a pixel: the mean of its red, green and blue, rounded down.
pub open spec fn gray_level(p: Rgba) -> u8 {
    ((p[0] as int + p[1] as int + p[2] as int) / 3) as u8
}

/// The gray level is the mean of red, green and blue rounded down: three times it
/// is at most their sum and more than the sum less three. So it treats the three
/// channels alike (swapping or rotating them keeps it), lies between the least and
/// the greatest of them, and a pixel already gray keeps its level.
pub proof fn lemma_gray_level_is_mean(p: Rgba, q: Rgba)
    ensures
        3 * gray_level(p) <= p[0] + p[1] + p[2] < 3 * gray_level(p) + 3,
        q[0] == p[1] && q[1] == p[0] && q[2] == p[2] ==> gray_level(q) == gray_level(p),
        q[0] == p[1] && q[1] == p[2] && q[2] == p[0] ==> gray_level(q) == gray_level(p),
        gray_level(p) <= p[0] || gray_level(p) <= p[1] || gray_level(p) <= p[2],
        gray_level(p) >= p[0] || gray_level(p) >= p[1] || gray_level(p) >= p[2],
        p[0] == p[1] && p[1] == p[2] ==> gray_level(p) == p[0],
{
}

/// The gray level of every pixel of a row-major pixel sequence.
pub open spec fn gray_levels_of(s: Seq<Rgba>) -> Seq<u8> {
    s.map_values(|p: Rgba| gray_level(p))
}

/// The gray level of every pixel of `image`, row by row.
pub fn gray_levels(image: &RgbaImage) -> (r: Vec<u8>)
    ensures
        r@ == gray_levels_of(image.data()),
{
    let src = image.as_pixels();
    let n = src.len();
    let mut out: Vec<u8> = Vec::new();
    let mut i: usize = 0;
    while i < n
        invariant
            n == src@.len(),
            i <= n,
            out@.len() == i,
            forall|k: int| 0 <= k < i ==> #[trigger] out@[k] == gray_level(src@[k]),
        decreases n - i,
    {
        let p = src[i];
        let sum: u16 = p[0] as u16 + p[1] as u16 + p[2] as u16;
        out.push((sum / 3) as u8);
        i = i + 1;
    }
    proof {
        assert(out@ =~= gray_levels_of(image.data()));
    }
    out
}

/// The pixel whose red, green and blue are `level` and whose alpha is that of `p`.
pub open spec fn gray_pixel_with_alpha(level: u8, p: Rgba) -> Rgba {
    [level, level, level, p[3]]
}

/// `image` with its colors replaced by the gray `levels` (row by row), alpha kept.
pub fn with_gray_levels(image: &RgbaImage, levels: &Vec<u8>) -> (r: RgbaImage)
    requires
        levels@.len() == image.data().len(),
    ensures
        r.w() == image.w(),
        r.h() == image.h(),
        r.data().len() == image.data().len(),
        forall|k: int|
            0 <= k < image.data().len() ==> #[trigger] r.data()[k] == gray_pixel_with_alpha(levels@[k], image.data()[k]),
{
    let src = image.as_pixels();
    let n = src.len();
    let mut out: Vec<Rgba> = Vec::new();
    let mut i: usize = 0;
    while i < n
        invariant
            n == src@.len(),
            n == levels@.len(),
            i <= n,
            out@.len() == i,
            forall|k: int| 0 <= k < i ==> #[trigger] out@[k] == gray_pixel_with_alpha(levels@[k], src@[k]),
        decreases n - i,
    {
        let g = levels[i];
        out.push([g, g, g, src[i][3]]);
        i = i + 1;
    }
    match RgbaImage::from_pixels(image.width(), image.height(), out) {
        Some(img) => img,
        None => {
            proof {
                assert(false);
            }
            image.blank_like()
        },
    }
}

/// `v` held to `0 ..= hi`: positions past an edge repeat the edge pixel.
pub open spec fn clamp_to(v: int, hi: int) -> int {
    if v < 0 {
        0
    } else if v > hi {
        hi
    } else {
        v
    }
}

/// The sum of `f(lo)`, `f(lo + 1)`, ..., `f(lo + n - 1)`.
pub open spec fn window_sum(f: spec_fn(int) -> int, lo: int, n: nat) -> int
    decreases n,
{
    if n == 0 {
        0
    } else {
        window_sum(f, lo, (n - 1) as nat) + f(lo + n - 1)
    }
}

/// The first pass of the box filter at `(x, y)`: the mean, rounded down, of the
/// `2 * rx + 1` levels of row `y` centred on `x`, edge pixels repeated.
pub open spec fn row_mean(levels: Seq<u8>, w: int, rx: int, x: int, y: int) -> int {
    window_sum(|j: int| levels[y * w + clamp_to(j, w - 1)] as int, x - rx, (2 * rx + 1) as nat) / (2 * rx + 1)
}

/// The box filter at `(x, y)`: the mean, rounded down, of the first pass over the
/// `2 * ry + 1` rows centred on `y`, edge rows repeated.
pub open spec fn box_mean(levels: Seq<u8>, w: int, h: int, rx: int, ry: int, x: int, y: int) -> int {
    window_sum(|j: int| row_mean(levels, w, rx, x, clamp_to(j, h - 1)), y - ry, (2 * ry + 1) as nat) / (2
        * ry + 1)
}

/// What `imageproc::filter::box_filter` returns, row by row, for the gray image
/// `width` by `height` with the given levels and radii: a mean over rows, then
/// over columns, each rounded down (`box_mean`).
pub open spec fn box_filtered(width: u32, height: u32, levels: Seq<u8>, x_radius: u32, y_radius: u32) -> Seq<u8> {
    Seq::new(
        width as nat * height as nat,
        |k: int|
            box_mean(
                levels,
                width as int,
                height as int,
                x_radius as int,
                y_radius as int,
                k % (width as int),
                k / (width as int),
            ) as u8,
    )
}

/// Whether `box_filter` can run on a `width` by `height` image with these radii
/// without its `u32` running sums overflowing (an empty image is returned at once).
pub open spec fn box_filter_fits(width: u32, height: u32, x_radius: u32, y_radius: u32) -> bool {
    width == 0 || height == 0 || ((width + 2 * x_radius) * 255 <= u32::MAX && (height + 2 * y_radius) * 255
        <= u32::MAX)
}

/// Calls `imageproc::filter::box_filter` on the gray image with the given levels.
/// Its source sums each row through a running sum over the row padded with its
/// edge pixels, divides by the kernel width, and then does the same down each
/// column of that result: the result is `box_filtered` of the arguments.
#[verifier::external_body]
fn box_filter_levels(width: u32, height: u32, levels: &Vec<u8>, x_radius: u32, y_radius: u32) -> (r: Vec<u8>)
    requires
        levels@.len() == width as nat * height as nat,
        box_filter_fits(width, height, x_radius, y_radius),
    ensures
        r@ == box_filtered(width, height, levels@, x_radius, y_radius),
        r@.len() == levels@.len(),
{
    let gray = image::GrayImage::from_raw(width, height, levels.clone()).unwrap();
    imageproc::filter::box_filter(&gray, x_radius, y_radius).into_raw()
}

/// Box blur filter
#[derive(Clone)]
pub struct BoxBlur {
    /// The radius of the blur
    pub radius: u32,
    pub name: String,
    pub description: String,
}

impl BoxBlur {
    /// The name the filter is listed under.
    pub open spec fn label(&self) -> Seq<char> {
        self.name@
    }

    /// The filter's description text.
    pub open spec fn summary(&self) -> Seq<char> {
        self.description@
    }

    /// The blur radius.
    pub open spec fn blur_radius(&self) -> u32 {
        self.radius
    }

    /// A box blur with the given radius, raised to 1 when it is 0.
    pub fn new(radius: u32) -> (r: Self)
        ensures
            r.blur_radius() == if radius == 0 {
                1
            } else {
                radius
            },
            r.label() == "Box Blur"@,
            r.summary() == "Applies a box blur to the image"@,
    {
        let radius = if radius < 1 {
            1
        } else {
            radius
        };
        Self {
            radius,
            name: "Box Blur".to_string(),
            description: "Applies a box blur to the image".to_string(),
        }
    }

    /// Blurs the gray levels of `image` with a square box of this radius; the result
    /// is gray, with the alpha of `image`.
    pub fn apply(&self, image: &RgbaImage) -> (r: RgbaImage)
        requires
            box_filter_fits(image.w() as u32, image.h() as u32, self.blur_radius(), self.blur_radius()),
        ensures
            r.w() == image.w(),
            r.h() == image.h(),
            r.data().len() == image.data().len(),
            forall|k: int|
                0 <= k < image.data().len() ==> #[trigger] r.data()[k] == gray_pixel_with_alpha(
                    box_filtered(
                        image.w() as u32,
                        image.h() as u32,
                        gray_levels_of(image.data()),
                        self.blur_radius(),
                        self.blur_radius(),
                    )[k],
                    image.data()[k],
                ),
    {
        let _n = image.pixel_count();
        let gray = gray_levels(image);
        let blurred = box_filter_levels(image.width(), image.height(), &gray, self.radius, self.radius);
        with_gray_levels(image, &blurred)
    }

    /// The filter's name.
    pub fn name(&self) -> (r: &str)
        ensures
            r@ == self.label(),
    {
        self.name.as_str()
    }

    /// The filter's description.
    pub fn description(&self) -> (r: &str)
        ensures
            r@ == self.summary(),
    {
        self.description.as_str()
    }
}

} // verus!
