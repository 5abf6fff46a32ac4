pub mod artistic;
pub mod blur;
pub mod color;
pub mod distort;
pub mod region;

use vstd::prelude::*;
use crate::base::raster::{Rgba, RgbaImage, transparent};

verus! {

/// The color negative of a pixel; alpha is kept.
pub open spec fn inverted(p: Rgba) -> Rgba {
    [(255 - p[0]) as u8, (255 - p[1]) as u8, (255 - p[2]) as u8, p[3]]
}

/// The color negative of every pixel of a row-major pixel sequence.
pub open spec fn inverted_all(s: Seq<Rgba>) -> Seq<Rgba> {
    s.map_values(|p: Rgba| inverted(p))
}

/// Inverts the colors of an image, keeping alpha.
pub fn apply_invert(image: &RgbaImage) -> (r: RgbaImage)
    ensures
        r.w() == image.w(),
        r.h() == image.h(),
        r.data() == inverted_all(image.data()),
{
    let src = image.as_pixels();
    let n = src.len();
    let mut out: Vec<Rgba> = Vec::new();
    let mut i: usize = 0;
    while i < n
        invariant
            n == src@.len(),
            i <= n,
            out@.len() == i,
            forall|k: int| 0 <= k < i ==> #[trigger] out@[k] == inverted(src@[k]),
        decreases n - i,
    {
        let p = src[i];
        out.push([255 - p[0], 255 - p[1], 255 - p[2], p[3]]);
        i = i + 1;
    }
    proof {
        assert(out@ =~= inverted_all(image.data()));
    }
    match RgbaImage::from_pixels(image.width(), image.height(), out) {
        Some(img) => img,
        None => {
            proof {
                assert(false);
            }
            image.blank_like()
        },
    }
}

/// Inverting twice gives every pixel back.
pub proof fn lemma_invert_twice(s: Seq<Rgba>)
    ensures
        inverted_all(inverted_all(s)) =~= s,
{
    assert forall|k: int| 0 <= k < s.len() implies #[trigger] inverted_all(inverted_all(s))[k] == s[k] by {
        let p = s[k];
        assert(inverted(inverted(p)) =~= p);
    }
}

/// The `width` by `height` region of `image` whose top-left corner is `(x, y)`;
/// positions outside the image are transparent black.
pub fn extract_region(image: &RgbaImage, x: u32, y: u32, width: u32, height: u32) -> (r: RgbaImage)
    requires
        x as nat + width as nat <= 0x1_0000_0000,
        y as nat + height as nat <= 0x1_0000_0000,
        width as nat * height as nat <= usize::MAX,
    ensures
        r.w() == width,
        r.h() == height,
        forall|i: int, j: int| r.in_bounds(i, j) ==> #[trigger] r.at(i, j) == image.crop_source(
            x as int,
            y as int,
            i,
            j,
        ),
{
    image.cropped(x, y, width, height)
}

/// How many columns of a region starting at `x` with `width` columns lie inside an
/// image `image_width` wide.
pub open spec fn covered_span(start: int, span: int, limit: int) -> int {
    if start >= limit {
        0
    } else if start + span <= limit {
        span
    } else {
        limit - start
    }
}

/// Whether `patch` is large enough for the part of the region at `(x, y)` that
/// lies inside `image`.
pub open spec fn patch_covers(image: &RgbaImage, patch: &RgbaImage, x: int, y: int, width: int, height: int) -> bool {
    let cw = covered_span(x, width, image.w() as int);
    let ch = covered_span(y, height, image.h() as int);
    cw == 0 || ch == 0 || (patch.w() >= cw && patch.h() >= ch)
}

/// `out` is `image` with the region at `(x, y)` replaced, inside the image, by the
/// corresponding pixels of `patch`.
pub open spec fn region_replaced(image: &RgbaImage, patch: &RgbaImage, x: int, y: int, width: int, height: int, out: &RgbaImage) -> bool {
    &&& out.w() == image.w()
    &&& out.h() == image.h()
    &&& forall|a: int, b: int|
        out.in_bounds(a, b) ==> #[trigger] out.at(a, b) == if x <= a < x + width && y <= b < y + height {
            patch.at(a - x, b - y)
        } else {
            image.at(a, b)
        }
}

fn covered_span_exec(start: u32, span: u32, limit: u32) -> (r: u32)
    requires
        start as nat + span as nat <= 0x1_0000_0000,
    ensures
        r == covered_span(start as int, span as int, limit as int),
{
    if start >= limit {
        0
    } else if span <= limit - start {
        span
    } else {
        limit - start
    }
}

/// Writes `patch` back over the region at `(x, y)` of `image`; `None` when the part
/// of the region inside the image reaches past `patch`.
pub fn merge_region(image: &RgbaImage, patch: &RgbaImage, x: u32, y: u32, width: u32, height: u32) -> (r: Option<RgbaImage>)
    requires
        x as nat + width as nat <= 0x1_0000_0000,
        y as nat + height as nat <= 0x1_0000_0000,
    ensures
        r is Some <==> patch_covers(image, patch, x as int, y as int, width as int, height as int),
        r matches Some(out) ==> region_replaced(image, patch, x as int, y as int, width as int, height as int, &out),
{
    let cw = covered_span_exec(x, width, image.width());
    let ch = covered_span_exec(y, height, image.height());
    if cw != 0 && ch != 0 && (patch.width() < cw || patch.height() < ch) {
        return None;
    }
    let mut result = image.clone();
    if cw != 0 && ch != 0 {
        result.paste(patch, x, y, cw, ch);
    }
    Some(result)
}

/// Applies `filter` to the `width` by `height` region of `image` at `(x, y)` and
/// writes its result back into a copy of `image`. The result is `None` when the
/// filter returns an image too small for the part of the region that lies inside
/// `image`.
pub fn apply_filter_to_region<F: Fn(&RgbaImage) -> RgbaImage>(
    image: &RgbaImage,
    filter: F,
    x: u32,
    y: u32,
    width: u32,
    height: u32,
) -> (r: Option<RgbaImage>)
    requires
        x as nat + width as nat <= 0x1_0000_0000,
        y as nat + height as nat <= 0x1_0000_0000,
        width as nat * height as nat <= usize::MAX,
        forall|region: &RgbaImage| #[trigger] filter.requires((region,)),
    ensures
        exists|region: RgbaImage, filtered: RgbaImage|
            {
                &&& region.w() == width
                &&& region.h() == height
                &&& forall|i: int, j: int| #[trigger]
                    region.in_bounds(i, j) ==> region.at(i, j) == image.crop_source(x as int, y as int, i, j)
                &&& filter.ensures((&region,), filtered)
                &&& (r is Some <==> patch_covers(image, &filtered, x as int, y as int, width as int, height as int))
                &&& (r matches Some(out) ==> region_replaced(
                    image,
                    &filtered,
                    x as int,
                    y as int,
                    width as int,
                    height as int,
                    &out,
                ))
            },
{
    let region = extract_region(image, x, y, width, height);
    let filtered = filter(&region);
    merge_region(image, &filtered, x, y, width, height)
}

/// Row ranges `start .. end` of the `n` horizontal strips that `height` rows are
/// cut into: each strip has `height / n` rows and the last also takes the rest.
pub open spec fn strip_start(height: int, n: int, i: int) -> int {
    i * (height / n)
}

/// End row (exclusive) of strip `i`.
pub open spec fn strip_end(height: int, n: int, i: int) -> int {
    if i == n - 1 {
        (i + 1) * (height / n) + height % n
    } else {
        (i + 1) * (height / n)
    }
}

/// The row ranges of the `num_strips` strips that `height` rows are cut into
/// for parallel filtering.
pub fn strip_rows(height: u32, num_strips: u32) -> (r: Vec<(u32, u32)>)
    requires
        num_strips >= 1,
    ensures
        r@.len() == num_strips,
        forall|i: int|
            0 <= i < num_strips ==> #[trigger] r@[i] == (
                strip_start(height as int, num_strips as int, i) as u32,
                strip_end(height as int, num_strips as int, i) as u32,
            ),
        forall|i: int|
            0 <= i < num_strips ==> 0 <= #[trigger] strip_start(height as int, num_strips as int, i)
                <= strip_end(height as int, num_strips as int, i) <= height,
        r@[0].0 == 0,
        r@[num_strips - 1].1 == height,
        forall|i: int| 0 <= i < num_strips - 1 ==> (#[trigger] r@[i]).1 == r@[i + 1].0,
{
    let strip_height = height / num_strips;
    let remainder = height % num_strips;
    let mut rows: Vec<(u32, u32)> = Vec::new();
    let mut i: u32 = 0;
    while i < num_strips
        invariant
            num_strips >= 1,
            strip_height == height / num_strips,
            remainder == height % num_strips,
            i <= num_strips,
            rows@.len() == i,
            forall|k: int|
                0 <= k < i ==> #[trigger] rows@[k] == (
                    strip_start(height as int, num_strips as int, k) as u32,
                    strip_end(height as int, num_strips as int, k) as u32,
                ),
        decreases num_strips - i,
    {
        proof {
            lemma_strip_bounds(height as int, num_strips as int, i as int);
        }
        let start_y = i * strip_height;
        let mut end_y = start_y + strip_height;
        if i == num_strips - 1 {
            end_y = end_y + remainder;
        }
        rows.push((start_y, end_y));
        i = i + 1;
    }
    proof {
        assert forall|k: int| 0 <= k < num_strips implies 0 <= #[trigger] strip_start(height as int, num_strips as int, k)
            <= strip_end(height as int, num_strips as int, k) <= height by {
            lemma_strip_bounds(height as int, num_strips as int, k);
        }
        lemma_strips_tile(height as int, num_strips as int);
        assert forall|i: int| 0 <= i < num_strips - 1 implies (#[trigger] rows@[i]).1 == rows@[i + 1].0 by {
            lemma_strip_bounds(height as int, num_strips as int, i);
            lemma_strip_bounds(height as int, num_strips as int, i + 1);
            assert(strip_end(height as int, num_strips as int, i) == strip_start(height as int, num_strips as int, i + 1));
        }
        lemma_strip_bounds(height as int, num_strips as int, 0);
        lemma_strip_bounds(height as int, num_strips as int, num_strips - 1);
    }
    rows
}

/// Every strip lies within the rows, and the strip arithmetic stays below `height`.
proof fn lemma_strip_bounds(height: int, n: int, i: int)
    requires
        0 <= height,
        1 <= n,
        0 <= i < n,
    ensures
        0 <= strip_start(height, n, i) <= strip_start(height, n, i) + height / n == (i + 1) * (height / n),
        strip_end(height, n, i) <= height,
        strip_start(height, n, i) <= strip_end(height, n, i),
{
    let s = height / n;
    let rem = height % n;
    assert(n * s + rem == height) by (nonlinear_arith)
        requires
            s == height / n,
            rem == height % n,
            n >= 1,
    ;
    assert(0 <= s);
    assert(0 <= rem);
    assert(0 <= i * s) by (nonlinear_arith)
        requires
            0 <= i,
            0 <= s,
    ;
    assert((i + 1) * s == i * s + s) by (nonlinear_arith);
    assert((i + 1) * s <= n * s) by (nonlinear_arith)
        requires
            i + 1 <= n,
            0 <= s,
    ;
}

/// The strips cut every row range into consecutive pieces: the first starts at
/// row 0, each ends where the next starts, and the last ends at `height`.
pub proof fn lemma_strips_tile(height: int, n: int)
    requires
        0 <= height,
        1 <= n,
    ensures
        strip_start(height, n, 0) == 0,
        strip_end(height, n, n - 1) == height,
        forall|i: int| 0 <= i < n - 1 ==> #[trigger] strip_end(height, n, i) == strip_start(height, n, i + 1),
{
    let s = height / n;
    assert(n * s + height % n == height) by (nonlinear_arith)
        requires
            s == height / n,
            n >= 1,
    ;
    assert(strip_start(height, n, 0) == 0);
    assert((n - 1 + 1) * s == n * s);
}

/// The pixel that downscaling by `scale` puts at `(x, y)`: the source pixel
/// `(x * scale, y * scale)`.
pub fn downscale(image: &RgbaImage, scale: u32) -> (r: RgbaImage)
    requires
        scale > 0,
    ensures
        r.w() == image.w() / (scale as nat),
        r.h() == image.h() / (scale as nat),
        forall|x: int, y: int| r.in_bounds(x, y) ==> #[trigger] r.at(x, y) == image.at(x * scale, y * scale),
{
    let iw = image.width();
    let ih = image.height();
    let width = iw / scale;
    let height = ih / scale;
    proof {
        assert(width as nat * height as nat <= image.w() * image.h()) by (nonlinear_arith)
            requires
                width <= image.w(),
                height <= image.h(),
        ;
    }
    let _n = image.pixel_count();
    let mut small = RgbaImage::new(width, height);
    let mut y: u32 = 0;
    while y < height
        invariant
            scale > 0,
            iw == image.w(),
            ih == image.h(),
            width == image.w() / (scale as nat),
            height == image.h() / (scale as nat),
            small.w() == width,
            small.h() == height,
            y <= height,
            forall|a: int, b: int|
                small.in_bounds(a, b) ==> #[trigger] small.at(a, b) == if b < y {
                    image.at(a * scale, b * scale)
                } else {
                    transparent()
                },
        decreases height - y,
    {
        let mut x: u32 = 0;
        while x < width
            invariant
                scale > 0,
                iw == image.w(),
                ih == image.h(),
                width == image.w() / (scale as nat),
                height == image.h() / (scale as nat),
                small.w() == width,
                small.h() == height,
                y < height,
                x <= width,
                forall|a: int, b: int|
                    small.in_bounds(a, b) ==> #[trigger] small.at(a, b) == if b < y || (b == y && a < x) {
                        image.at(a * scale, b * scale)
                    } else {
                        transparent()
                    },
            decreases width - x,
        {
            proof {
                assert(x * scale < image.w()) by (nonlinear_arith)
                    requires
                        x < width,
                        width == image.w() / (scale as nat),
                        scale > 0,
                ;
                assert(y * scale < image.h()) by (nonlinear_arith)
                    requires
                        y < height,
                        height == image.h() / (scale as nat),
                        scale > 0,
                ;
            }
            let p = image.get_pixel(x * scale, y * scale);
            small.put_pixel(x, y, p);
            x = x + 1;
        }
        y = y + 1;
    }
    small
}

} // verus!
