use vstd::prelude::*;
use crate::base::raster::{Rgba, RgbaImage};
use crate::filters::region::{block_mean, mean_of_block, block_sum, row_sum, channel, lemma_block_sum_bounds, lemma_row_sum_bounds, lemma_block_sum_scaled, lemma_mean_fits, lemma_block_sum_const};

verus! {

/// First position of the block of `size` positions that holds `v`.
pub open spec fn block_start(v: int, size: int) -> int {
    (v / size) * size
}

/// End (exclusive) of the block of `size` positions that holds `v`, cut at `limit`.
pub open spec fn block_end(v: int, size: int, limit: int) -> int {
    if block_start(v, size) + size <= limit {
        block_start(v, size) + size
    } else {
        limit
    }
}

/// The pixel that pixelating with blocks of `size` puts at `(x, y)`: the mean of
/// the block, cut at the image border, that holds it.
pub open spec fn pixelated_at(img: RgbaImage, size: int, x: int, y: int) -> Rgba {
    block_mean(
        img,
        block_start(x, size),
        block_end(x, size, img.w() as int),
        block_start(y, size),
        block_end(y, size, img.h() as int),
    )
}

/// Pixels of one block get one color.
pub proof fn lemma_block_uniform(img: RgbaImage, size: int, x1: int, y1: int, x2: int, y2: int)
    requires
        block_start(x1, size) == block_start(x2, size),
        block_start(y1, size) == block_start(y2, size),
    ensures
        pixelated_at(img, size, x1, y1) == pixelated_at(img, size, x2, y2),
{
}

/// With blocks of one pixel, pixelating changes nothing.
pub proof fn lemma_unit_blocks(img: RgbaImage, x: int, y: int)
    requires
        img.in_bounds(x, y),
    ensures
        pixelated_at(img, 1, x, y) == img.at(x, y),
{
    broadcast use vstd::array::group_array_axioms;

    assert(block_start(x, 1) == x);
    assert(block_start(y, 1) == y);
    let p = img.at(x, y);
    assert forall|c: int| 0 <= c < 4 implies block_sum(img, channel(c), x, x + 1, y, y + 1) == p[c] as int by {
        assert(block_sum(img, channel(c), x, x + 1, y, y) == 0);
        assert(row_sum(img, channel(c), y, x, x) == 0);
        assert(row_sum(img, channel(c), y, x, x + 1) == p[c] as int);
    }
    assert(block_end(x, 1, img.w() as int) == x + 1);
    assert(block_end(y, 1, img.h() as int) == y + 1);
    assert(block_sum(img, channel(0), x, x + 1, y, y + 1) / 1 == p[0] as int);
    assert(block_sum(img, channel(1), x, x + 1, y, y + 1) / 1 == p[1] as int);
    assert(block_sum(img, channel(2), x, x + 1, y, y + 1) / 1 == p[2] as int);
    assert(block_sum(img, channel(3), x, x + 1, y, y + 1) / 1 == p[3] as int);
    let q = pixelated_at(img, 1, x, y);
    assert(q == block_mean(img, x, x + 1, y, y + 1));
    assert((x + 1 - x) * (y + 1 - y) == 1) by (nonlinear_arith);
    assert(q[0] == p[0] && q[1] == p[1] && q[2] == p[2] && q[3] == p[3]);
    assert(q =~= p);
}

/// A position between `k * size` and `(k + 1) * size` lies in the block starting
/// at `k * size`.
proof fn lemma_in_block(v: int, size: int, k: int)
    requires
        size > 0,
        k >= 0,
        k * size <= v < k * size + size,
    ensures
        block_start(v, size) == k * size,
{
    vstd::arithmetic::div_mod::lemma_fundamental_div_mod_converse(v, size, k, v - k * size);
}

/// Applies a pixelation (mosaic) effect to the image
pub struct PixelateFilter {
    pub block_size: u32,
    pub name: String,
    pub description: String,
}

impl PixelateFilter {
    /// The name the filter is listed under.
    pub open spec fn label(&self) -> Seq<char> {
        self.name@
    }

    /// The filter's description text.
    pub open spec fn summary(&self) -> Seq<char> {
        self.description@
    }

    /// The side of the square blocks.
    pub open spec fn size(&self) -> u32 {
        self.block_size
    }

    /// A pixelate filter with square blocks of side `block_size`.
    pub fn new(block_size: u32) -> (r: Self)
        ensures
            r.size() == block_size,
            r.label() == "Pixelate"@,
            r.summary() == "Creates a pixelated effect by averaging blocks of pixels"@,
    {
        Self {
            block_size,
            name: "Pixelate".to_string(),
            description: "Creates a pixelated effect by averaging blocks of pixels".to_string(),
        }
    }

    /// Cuts the image into blocks of `block_size` by `block_size` pixels from the
    /// top-left corner (blocks at the right and bottom borders are cut short) and
    /// paints each block with its mean color.
    pub fn apply(&self, image: &RgbaImage) -> (r: RgbaImage)
        requires
            self.size() > 0,
        ensures
            r.w() == image.w(),
            r.h() == image.h(),
            forall|x: int, y: int| #[trigger]
                r.in_bounds(x, y) ==> r.at(x, y) == pixelated_at(*image, self.size() as int, x, y),
    {
        let bs = self.block_size as u64;
        let w = image.width() as u64;
        let h = image.height() as u64;
        let ghost g = *image;
        let ghost s = bs as int;
        let mut out = image.clone();
        let mut by: u64 = 0;
        let ghost mut kb: int = 0;
        while by < h
            invariant
                s == bs,
                bs > 0,
                bs <= 0xffff_ffff,
                g == *image,
                w == image.w(),
                h == image.h(),
                w <= 0xffff_ffff,
                h <= 0xffff_ffff,
                out.w() == image.w(),
                out.h() == image.h(),
                kb >= 0,
                by == kb * s,
                by <= h + bs,
                forall|a: int, b: int| out.in_bounds(a, b) ==> #[trigger] out.at(a, b) == if b < by {
                        pixelated_at(g, s, a, b)
                    } else {
                        g.at(a, b)
                    },
            decreases h + bs - by,
        {
            let by1 = if by + bs <= h {
                by + bs
            } else {
                h
            };
            let mut bx: u64 = 0;
            let ghost mut kx: int = 0;
            while bx < w
                invariant
                    s == bs,
                    bs > 0,
                    bs <= 0xffff_ffff,
                    g == *image,
                    w == image.w(),
                    h == image.h(),
                    w <= 0xffff_ffff,
                    h <= 0xffff_ffff,
                    out.w() == image.w(),
                    out.h() == image.h(),
                    kb >= 0,
                    by == kb * s,
                    by < h,
                    by1 == if by + bs <= h { by + bs } else { h as int },
                    kx >= 0,
                    bx == kx * s,
                    bx <= w + bs,
                    forall|a: int, b: int| out.in_bounds(a, b) ==> #[trigger] out.at(a, b) == if b < by || (b < by1 && a < bx) {
                            pixelated_at(g, s, a, b)
                        } else {
                            g.at(a, b)
                        },
                decreases w + bs - bx,
            {
                let bx1 = if bx + bs <= w {
                    bx + bs
                } else {
                    w
                };
                let m = mean_of_block(image, bx as u32, bx1 as u32, by as u32, by1 as u32);
                let mut yy: u64 = by;
                while yy < by1
                    invariant
                        s == bs,
                        bs > 0,
                        g == *image,
                        w == image.w(),
                        h == image.h(),
                        w <= 0xffff_ffff,
                        h <= 0xffff_ffff,
                        out.w() == image.w(),
                        out.h() == image.h(),
                        kb >= 0,
                        by == kb * s,
                        by1 == if by + bs <= h { by + bs } else { h as int },
                        kx >= 0,
                        bx == kx * s,
                        bx < w,
                        bx1 == if bx + bs <= w { bx + bs } else { w as int },
                        m == block_mean(g, bx as int, bx1 as int, by as int, by1 as int),
                        by <= yy <= by1,
                        forall|a: int, b: int| out.in_bounds(a, b) ==> #[trigger] out.at(a, b) == if b < by || (b < by1 && a < bx) || (b
                                < yy && bx <= a < bx1) {
                                pixelated_at(g, s, a, b)
                            } else {
                                g.at(a, b)
                            },
                    decreases by1 - yy,
                {
                    proof {
                        lemma_in_block(yy as int, s, kb);
                    }
                    let mut xx: u64 = bx;
                    while xx < bx1
                        invariant
                            s == bs,
                            bs > 0,
                            g == *image,
                            w == image.w(),
                            h == image.h(),
                            w <= 0xffff_ffff,
                            h <= 0xffff_ffff,
                            out.w() == image.w(),
                            out.h() == image.h(),
                            kb >= 0,
                            by == kb * s,
                            by1 == if by + bs <= h { by + bs } else { h as int },
                            kx >= 0,
                            bx == kx * s,
                            bx < w,
                            bx1 == if bx + bs <= w { bx + bs } else { w as int },
                            m == block_mean(g, bx as int, bx1 as int, by as int, by1 as int),
                            by <= yy < by1,
                            block_start(yy as int, s) == by,
                            bx <= xx <= bx1,
                            forall|a: int, b: int| out.in_bounds(a, b) ==> #[trigger] out.at(a, b) == if b < by || (b < by1 && a < bx) || (b
                                    < yy && bx <= a < bx1) || (b == yy && bx <= a < xx) {
                                    pixelated_at(g, s, a, b)
                                } else {
                                    g.at(a, b)
                                },
                        decreases bx1 - xx,
                    {
                        proof {
                            lemma_in_block(xx as int, s, kx);
                            assert(pixelated_at(g, s, xx as int, yy as int) == m);
                        }
                        out.put_pixel(xx as u32, yy as u32, m);
                        xx = xx + 1;
                    }
                    yy = yy + 1;
                }
                bx = bx + bs;
                proof {
                    kx = kx + 1;
                    assert(bx == kx * s) by (nonlinear_arith)
                        requires
                            bx == (kx - 1) * s + s,
                    ;
                }
            }
            by = by + bs;
            proof {
                kb = kb + 1;
                assert(by == kb * s) by (nonlinear_arith)
                    requires
                        by == (kb - 1) * s + s,
                ;
            }
        }
        out
    }

    /// The filter's name.
    pub fn name(&self) -> (r: &str)
        ensures
            r@ == self.label(),
    {
        self.name.as_str()
    }

    /// The filter's description.
    pub fn description(&self) -> (r: &str)
        ensures
            r@ == self.summary(),
    {
        self.description.as_str()
    }
}

/// The intensity level, among `levels` levels, of a pixel: its gray level scaled
/// from `0 ..= 255` to `0 ..= levels - 1`, rounded down.
pub open spec fn intensity_level(p: Rgba, levels: int) -> int {
    ((p[0] as int + p[1] as int + p[2] as int) / 3) * (levels - 1) / 255
}

/// 1 for pixels of intensity level `l`, 0 for the others.
pub open spec fn level_indicator(l: int, levels: int) -> spec_fn(Rgba) -> int {
    |p: Rgba| if intensity_level(p, levels) == l { 1int } else { 0int }
}

/// Channel `c` of pixels of intensity level `l`, 0 for the others.
pub open spec fn level_channel(l: int, levels: int, c: int) -> spec_fn(Rgba) -> int {
    |p: Rgba| if intensity_level(p, levels) == l { p[c] as int } else { 0int }
}

/// First column (or row) of the neighborhood of radius `r` around `v`.
pub open spec fn reach_start(v: int, r: int) -> int {
    if v >= r { v - r } else { 0 }
}

/// End (exclusive) of the neighborhood of radius `r` around `v`, cut at `limit`.
pub open spec fn reach_end(v: int, r: int, limit: int) -> int {
    if v + r + 1 <= limit { v + r + 1 } else { limit }
}

/// How many pixels of the neighborhood of `(x, y)` have intensity level `l`.
pub open spec fn level_count(img: RgbaImage, r: int, levels: int, x: int, y: int, l: int) -> int {
    block_sum(
        img,
        level_indicator(l, levels),
        reach_start(x, r),
        reach_end(x, r, img.w() as int),
        reach_start(y, r),
        reach_end(y, r, img.h() as int),
    )
}

/// The sum of channel `c` over the pixels of level `l` in the neighborhood of `(x, y)`.
pub open spec fn level_channel_sum(img: RgbaImage, r: int, levels: int, x: int, y: int, l: int, c: int) -> int {
    block_sum(
        img,
        level_channel(l, levels, c),
        reach_start(x, r),
        reach_end(x, r, img.w() as int),
        reach_start(y, r),
        reach_end(y, r, img.h() as int),
    )
}

/// The largest of the first `n` counts (0 when `n` is 0).
pub open spec fn max_count(counts: Seq<int>, n: int) -> int
    decreases n,
{
    if n <= 0 {
        0
    } else if counts[n - 1] > max_count(counts, n - 1) {
        counts[n - 1]
    } else {
        max_count(counts, n - 1)
    }
}

/// The first of the first `n` positions that holds the largest count (0 when
/// every count is 0).
pub open spec fn dominant(counts: Seq<int>, n: int) -> int
    decreases n,
{
    if n <= 0 {
        0
    } else if counts[n - 1] > max_count(counts, n - 1) {
        n - 1
    } else {
        dominant(counts, n - 1)
    }
}

/// The level counts of the neighborhood of `(x, y)`.
pub open spec fn level_counts(img: RgbaImage, r: int, levels: int, x: int, y: int) -> Seq<int> {
    Seq::new(levels as nat, |l: int| level_count(img, r, levels, x, y, l))
}

/// The pixel that the oil painting effect puts at `(x, y)`: the per-channel mean
/// over the pixels of the most frequent intensity level in the neighborhood of
/// radius `r` (the lowest such level on a tie).
pub open spec fn oil_painted_at(img: RgbaImage, r: int, levels: int, x: int, y: int) -> Rgba {
    let counts = level_counts(img, r, levels, x, y);
    let l = dominant(counts, levels);
    let n = max_count(counts, levels);
    if n > 0 {
        [
            (level_channel_sum(img, r, levels, x, y, l, 0) / n) as u8,
            (level_channel_sum(img, r, levels, x, y, l, 1) / n) as u8,
            (level_channel_sum(img, r, levels, x, y, l, 2) / n) as u8,
            (level_channel_sum(img, r, levels, x, y, l, 3) / n) as u8,
        ]
    } else {
        img.at(x, y)
    }
}

/// Oil painting leaves an image of a single color unchanged: every neighborhood
/// holds only that color's intensity level, whose mean is the color itself.
pub proof fn lemma_uniform_unchanged(img: RgbaImage, r: int, levels: int, x: int, y: int, c: Rgba)
    requires
        levels >= 1,
        r >= 0,
        img.in_bounds(x, y),
        forall|i: int, j: int| img.in_bounds(i, j) ==> #[trigger] img.at(i, j) == c,
    ensures
        oil_painted_at(img, r, levels, x, y) == c,
{
    let x0 = reach_start(x, r);
    let x1 = reach_end(x, r, img.w() as int);
    let y0 = reach_start(y, r);
    let y1 = reach_end(y, r, img.h() as int);
    let area = (x1 - x0) * (y1 - y0);
    assert(area > 0) by (nonlinear_arith)
        requires
            x0 < x1,
            y0 < y1,
            area == (x1 - x0) * (y1 - y0),
    ;
    let lv = intensity_level(c, levels);
    let avg = (c[0] as int + c[1] as int + c[2] as int) / 3;
    assert(0 <= avg <= 255);
    assert(0 <= lv <= levels - 1) by (nonlinear_arith)
        requires
            lv == avg * (levels - 1) / 255,
            0 <= avg <= 255,
            levels >= 1,
    ;
    let counts = level_counts(img, r, levels, x, y);
    assert forall|l: int| 0 <= l < levels implies #[trigger] counts[l] == if l == lv {
        area
    } else {
        0
    } by {
        let k = if l == lv { 1int } else { 0int };
        assert forall|i: int, j: int| x0 <= i < x1 && y0 <= j < y1 implies #[trigger] level_indicator(l, levels)(
            img.at(i, j),
        ) == k by {
            assert(img.in_bounds(i, j));
        }
        lemma_block_sum_const(img, level_indicator(l, levels), x0, x1, y0, y1, k);
    }
    lemma_dominant(counts, levels);
    let d = dominant(counts, levels);
    let m = max_count(counts, levels);
    assert(counts[lv] == area);
    assert(m == area);
    assert(d == lv);
    assert forall|ch: int| 0 <= ch < 4 implies #[trigger] (level_channel_sum(img, r, levels, x, y, lv, ch)
        / area) == c[ch] as int by {
        assert forall|i: int, j: int| x0 <= i < x1 && y0 <= j < y1 implies #[trigger] level_channel(lv, levels, ch)(
            img.at(i, j),
        ) == c[ch] as int by {
            assert(img.in_bounds(i, j));
        }
        lemma_block_sum_const(img, level_channel(lv, levels, ch), x0, x1, y0, y1, c[ch] as int);
        let v = c[ch] as int;
        assert(v * area / area == v) by (nonlinear_arith)
            requires
                area > 0,
        ;
    }
    assert(level_channel_sum(img, r, levels, x, y, lv, 0) / area == c[0] as int);
    assert(level_channel_sum(img, r, levels, x, y, lv, 1) / area == c[1] as int);
    assert(level_channel_sum(img, r, levels, x, y, lv, 2) / area == c[2] as int);
    assert(level_channel_sum(img, r, levels, x, y, lv, 3) / area == c[3] as int);
    assert(oil_painted_at(img, r, levels, x, y) =~= c);
}

/// The dominant position holds the largest count, no count is larger, and every
/// earlier position holds a smaller one.
pub proof fn lemma_dominant(counts: Seq<int>, n: int)
    requires
        0 < n <= counts.len(),
        forall|i: int| 0 <= i < n ==> 0 <= #[trigger] counts[i],
    ensures
        0 <= dominant(counts, n) < n,
        max_count(counts, n) > 0 ==> counts[dominant(counts, n)] == max_count(counts, n),
        forall|i: int| 0 <= i < n ==> #[trigger] counts[i] <= max_count(counts, n),
        forall|i: int| 0 <= i < dominant(counts, n) ==> #[trigger] counts[i] < max_count(counts, n),
    decreases n,
{
    assert(max_count(counts, 0) == 0);
    if n > 1 {
        lemma_dominant(counts, n - 1);
    }
    if counts[n - 1] > max_count(counts, n - 1) {
        assert(dominant(counts, n) == n - 1);
        assert(max_count(counts, n) == counts[n - 1]);
    } else {
        assert(dominant(counts, n) == dominant(counts, n - 1));
        assert(max_count(counts, n) == max_count(counts, n - 1));
    }
}

fn zeros_u64(n: usize) -> (v: Vec<u64>)
    ensures
        v@.len() == n,
        forall|i: int| 0 <= i < n ==> #[trigger] v@[i] == 0,
{
    let mut v: Vec<u64> = Vec::new();
    let mut i: usize = 0;
    while i < n
        invariant
            i <= n,
            v@.len() == i,
            forall|k: int| 0 <= k < i ==> #[trigger] v@[k] == 0,
        decreases n - i,
    {
        v.push(0);
        i = i + 1;
    }
    v
}

fn zeros_u128(n: usize) -> (v: Vec<u128>)
    ensures
        v@.len() == n,
        forall|i: int| 0 <= i < n ==> #[trigger] v@[i] == 0,
{
    let mut v: Vec<u128> = Vec::new();
    let mut i: usize = 0;
    while i < n
        invariant
            i <= n,
            v@.len() == i,
            forall|k: int| 0 <= k < i ==> #[trigger] v@[k] == 0,
        decreases n - i,
    {
        v.push(0);
        i = i + 1;
    }
    v
}

/// The oil painting pixel at `(x, y)`.
fn oil_pixel(img: &RgbaImage, radius: u32, levels: u32, x: u32, y: u32) -> (r: Rgba)
    requires
        img.in_bounds(x as int, y as int),
        levels >= 1,
    ensures
        r == oil_painted_at(*img, radius as int, levels as int, x as int, y as int),
{
    let w = img.width() as u64;
    let h = img.height() as u64;
    let rr = radius as u64;
    let nx0: u64 = if x as u64 >= rr { x as u64 - rr } else { 0 };
    let nx1: u64 = if x as u64 + rr + 1 <= w { x as u64 + rr + 1 } else { w };
    let ny0: u64 = if y as u64 >= rr { y as u64 - rr } else { 0 };
    let ny1: u64 = if y as u64 + rr + 1 <= h { y as u64 + rr + 1 } else { h };
    let n = levels as usize;
    let mut counts = zeros_u64(n);
    let mut s0 = zeros_u128(n);
    let mut s1 = zeros_u128(n);
    let mut s2 = zeros_u128(n);
    let mut s3 = zeros_u128(n);
    let ghost g = *img;
    let ghost lv = levels as int;
    let ghost rad = radius as int;
    let ghost cw: int = nx1 - nx0;
    let mut ny: u64 = ny0;
    while ny < ny1
        invariant
            g == *img,
            lv == levels,
            lv >= 1,
            n == levels,
            w == img.w(),
            h == img.h(),
            w <= 0xffff_ffff,
            h <= 0xffff_ffff,
            nx0 < nx1 <= w,
            ny0 <= ny <= ny1 <= h,
            cw == nx1 - nx0,
            counts@.len() == n,
            s0@.len() == n,
            s1@.len() == n,
            s2@.len() == n,
            s3@.len() == n,
            forall|l: int| 0 <= l < n ==> #[trigger] counts@[l] as int == block_sum(g, level_indicator(l, lv), nx0 as int, nx1 as int, ny0 as int, ny as int),
            forall|l: int| 0 <= l < n ==> #[trigger] s0@[l] as int == block_sum(g, level_channel(l, lv, 0), nx0 as int, nx1 as int, ny0 as int, ny as int),
            forall|l: int| 0 <= l < n ==> #[trigger] s1@[l] as int == block_sum(g, level_channel(l, lv, 1), nx0 as int, nx1 as int, ny0 as int, ny as int),
            forall|l: int| 0 <= l < n ==> #[trigger] s2@[l] as int == block_sum(g, level_channel(l, lv, 2), nx0 as int, nx1 as int, ny0 as int, ny as int),
            forall|l: int| 0 <= l < n ==> #[trigger] s3@[l] as int == block_sum(g, level_channel(l, lv, 3), nx0 as int, nx1 as int, ny0 as int, ny as int),
        decreases ny1 - ny,
    {
        let mut nx: u64 = nx0;
        while nx < nx1
            invariant
                g == *img,
                lv == levels,
                lv >= 1,
                n == levels,
                w == img.w(),
                h == img.h(),
                w <= 0xffff_ffff,
                h <= 0xffff_ffff,
                nx0 <= nx <= nx1 <= w,
                nx0 < nx1,
                ny0 <= ny < ny1 <= h,
                cw == nx1 - nx0,
                counts@.len() == n,
                s0@.len() == n,
                s1@.len() == n,
                s2@.len() == n,
                s3@.len() == n,
                forall|l: int| 0 <= l < n ==> #[trigger] counts@[l] as int == block_sum(g, level_indicator(l, lv), nx0 as int, nx1 as int, ny0 as int, ny as int) + row_sum(g, level_indicator(l, lv), ny as int, nx0 as int, nx as int),
                forall|l: int| 0 <= l < n ==> #[trigger] s0@[l] as int == block_sum(g, level_channel(l, lv, 0), nx0 as int, nx1 as int, ny0 as int, ny as int) + row_sum(g, level_channel(l, lv, 0), ny as int, nx0 as int, nx as int),
                forall|l: int| 0 <= l < n ==> #[trigger] s1@[l] as int == block_sum(g, level_channel(l, lv, 1), nx0 as int, nx1 as int, ny0 as int, ny as int) + row_sum(g, level_channel(l, lv, 1), ny as int, nx0 as int, nx as int),
                forall|l: int| 0 <= l < n ==> #[trigger] s2@[l] as int == block_sum(g, level_channel(l, lv, 2), nx0 as int, nx1 as int, ny0 as int, ny as int) + row_sum(g, level_channel(l, lv, 2), ny as int, nx0 as int, nx as int),
                forall|l: int| 0 <= l < n ==> #[trigger] s3@[l] as int == block_sum(g, level_channel(l, lv, 3), nx0 as int, nx1 as int, ny0 as int, ny as int) + row_sum(g, level_channel(l, lv, 3), ny as int, nx0 as int, nx as int),
            decreases nx1 - nx,
        {
            let p = img.get_pixel(nx as u32, ny as u32);
            let intensity: u64 = (p[0] as u64 + p[1] as u64 + p[2] as u64) / 3;
            proof {
                assert(intensity * (levels as u64 - 1) <= 255 * 0xffff_ffff) by (nonlinear_arith)
                    requires
                        intensity <= 255,
                        1 <= levels <= 0xffff_ffff,
                ;
                assert(intensity * (levels - 1) / 255 <= levels - 1) by (nonlinear_arith)
                    requires
                        intensity <= 255,
                        1 <= levels,
                ;
            }
            let lvl: usize = (intensity * (levels as u64 - 1) / 255) as usize;
            proof {
                let li = lvl as int;
                assert(li == intensity_level(p, lv));
                assert(cw * (ny - ny0) + (nx - nx0) < 0xffff_ffff_ffff_ffff) by (nonlinear_arith)
                    requires
                        0 <= nx - nx0 < cw <= 0xffff_ffff,
                        0 <= ny - ny0 < 0xffff_ffff,
                ;
                lemma_block_sum_bounds(g, level_indicator(li, lv), nx0 as int, nx1 as int, ny0 as int, ny as int, 1);
                lemma_row_sum_bounds(g, level_indicator(li, lv), ny as int, nx0 as int, nx as int, 1);
                assert(1 * (cw * (ny - ny0)) == cw * (ny - ny0));
                assert(255 * (cw * (ny - ny0)) + 255 * (nx - nx0) < 0x1_0000_0000_0000_0000_0000_0000_0000_0000 - 256) by (nonlinear_arith)
                    requires
                        0 <= nx - nx0 < cw <= 0xffff_ffff,
                        0 <= ny - ny0 < 0xffff_ffff,
                ;
                assert(forall|q: Rgba| 0 <= #[trigger] level_channel(li, lv, 0)(q) <= 255);
assert(forall|q: Rgba| 0 <= #[trigger] level_channel(li, lv, 1)(q) <= 255);
assert(forall|q: Rgba| 0 <= #[trigger] level_channel(li, lv, 2)(q) <= 255);
assert(forall|q: Rgba| 0 <= #[trigger] level_channel(li, lv, 3)(q) <= 255);
                lemma_block_sum_bounds(g, level_channel(li, lv, 0), nx0 as int, nx1 as int, ny0 as int, ny as int, 255);
                lemma_row_sum_bounds(g, level_channel(li, lv, 0), ny as int, nx0 as int, nx as int, 255);
                lemma_block_sum_bounds(g, level_channel(li, lv, 1), nx0 as int, nx1 as int, ny0 as int, ny as int, 255);
                lemma_row_sum_bounds(g, level_channel(li, lv, 1), ny as int, nx0 as int, nx as int, 255);
                lemma_block_sum_bounds(g, level_channel(li, lv, 2), nx0 as int, nx1 as int, ny0 as int, ny as int, 255);
                lemma_row_sum_bounds(g, level_channel(li, lv, 2), ny as int, nx0 as int, nx as int, 255);
                lemma_block_sum_bounds(g, level_channel(li, lv, 3), nx0 as int, nx1 as int, ny0 as int, ny as int, 255);
                lemma_row_sum_bounds(g, level_channel(li, lv, 3), ny as int, nx0 as int, nx as int, 255);
            }
            let c = counts[lvl];
            counts.set(lvl, c + 1);
            let v0 = s0[lvl];
            s0.set(lvl, v0 + p[0] as u128);
            let v1 = s1[lvl];
            s1.set(lvl, v1 + p[1] as u128);
            let v2 = s2[lvl];
            s2.set(lvl, v2 + p[2] as u128);
            let v3 = s3[lvl];
            s3.set(lvl, v3 + p[3] as u128);
            nx = nx + 1;
        }
        ny = ny + 1;
    }
    let ghost cs = level_counts(g, rad, lv, x as int, y as int);
    proof {
        assert forall|l: int| 0 <= l < n implies #[trigger] cs[l] == counts@[l] as int by {}
    }
    let mut best: u64 = 0;
    let mut best_i: usize = 0;
    let mut i: usize = 0;
    while i < n
        invariant
            n == levels,
            cs.len() == n,
            counts@.len() == n,
            forall|l: int| 0 <= l < n ==> #[trigger] cs[l] == counts@[l] as int,
            i <= n,
            best as int == max_count(cs, i as int),
            best_i as int == dominant(cs, i as int),
            best_i < n,
        decreases n - i,
    {
        if counts[i] > best {
            best = counts[i];
            best_i = i;
        }
        i = i + 1;
    }
    if best > 0 {
        proof {
            let l = best_i as int;
            lemma_dominant(cs, n as int);
            assert(best as int == counts@[l] as int);
            assert(forall|q: Rgba| #[trigger] level_channel(l, lv, 0)(q) <= 255 * level_indicator(l, lv)(q));
            assert(forall|q: Rgba| #[trigger] level_channel(l, lv, 1)(q) <= 255 * level_indicator(l, lv)(q));
            assert(forall|q: Rgba| #[trigger] level_channel(l, lv, 2)(q) <= 255 * level_indicator(l, lv)(q));
            assert(forall|q: Rgba| #[trigger] level_channel(l, lv, 3)(q) <= 255 * level_indicator(l, lv)(q));
            lemma_block_sum_scaled(g, level_channel(l, lv, 0), level_indicator(l, lv), nx0 as int, nx1 as int, ny0 as int, ny1 as int);
            lemma_block_sum_scaled(g, level_channel(l, lv, 1), level_indicator(l, lv), nx0 as int, nx1 as int, ny0 as int, ny1 as int);
            lemma_block_sum_scaled(g, level_channel(l, lv, 2), level_indicator(l, lv), nx0 as int, nx1 as int, ny0 as int, ny1 as int);
            lemma_block_sum_scaled(g, level_channel(l, lv, 3), level_indicator(l, lv), nx0 as int, nx1 as int, ny0 as int, ny1 as int);
            assert(forall|q: Rgba| 0 <= #[trigger] level_channel(l, lv, 0)(q) <= 255);
assert(forall|q: Rgba| 0 <= #[trigger] level_channel(l, lv, 1)(q) <= 255);
assert(forall|q: Rgba| 0 <= #[trigger] level_channel(l, lv, 2)(q) <= 255);
assert(forall|q: Rgba| 0 <= #[trigger] level_channel(l, lv, 3)(q) <= 255);
            lemma_block_sum_bounds(g, level_channel(l, lv, 0), nx0 as int, nx1 as int, ny0 as int, ny1 as int, 255);
            lemma_block_sum_bounds(g, level_channel(l, lv, 1), nx0 as int, nx1 as int, ny0 as int, ny1 as int, 255);
            lemma_block_sum_bounds(g, level_channel(l, lv, 2), nx0 as int, nx1 as int, ny0 as int, ny1 as int, 255);
            lemma_block_sum_bounds(g, level_channel(l, lv, 3), nx0 as int, nx1 as int, ny0 as int, ny1 as int, 255);
            lemma_mean_fits(s0@[l] as int, best as int);
            lemma_mean_fits(s1@[l] as int, best as int);
            lemma_mean_fits(s2@[l] as int, best as int);
            lemma_mean_fits(s3@[l] as int, best as int);
        }
        let b = best as u128;
        [(s0[best_i] / b) as u8, (s1[best_i] / b) as u8, (s2[best_i] / b) as u8, (s3[best_i] / b) as u8]
    } else {
        img.get_pixel(x, y)
    }
}

/// Applies Oil Painting effect
pub struct OilPaintingFilter {
    pub radius: u32,
    pub intensity_levels: u32,
    pub name: String,
    pub description: String,
}

impl OilPaintingFilter {
    /// The name the filter is listed under.
    pub open spec fn label(&self) -> Seq<char> {
        self.name@
    }

    /// The filter's description text.
    pub open spec fn summary(&self) -> Seq<char> {
        self.description@
    }

    /// The neighborhood radius.
    pub open spec fn reach(&self) -> u32 {
        self.radius
    }

    /// The number of intensity levels.
    pub open spec fn levels(&self) -> u32 {
        self.intensity_levels
    }

    /// An oil painting filter with the given neighborhood radius and number of
    /// intensity levels.
    pub fn new(radius: u32, intensity_levels: u32) -> (r: Self)
        ensures
            r.reach() == radius,
            r.levels() == intensity_levels,
            r.label() == "Oil Painting"@,
            r.summary() == "Creates an oil painting effect by analyzing color intensities"@,
    {
        Self {
            radius,
            intensity_levels,
            name: "Oil Painting".to_string(),
            description: "Creates an oil painting effect by analyzing color intensities".to_string(),
        }
    }

    /// Paints each pixel with the mean color of the most frequent intensity level
    /// in its neighborhood. A non-empty image needs at least one level.
    pub fn apply(&self, image: &RgbaImage) -> (r: RgbaImage)
        requires
            self.levels() >= 1 || image.w() == 0 || image.h() == 0,
        ensures
            r.w() == image.w(),
            r.h() == image.h(),
            forall|x: int, y: int|
                r.in_bounds(x, y) ==> #[trigger] r.at(x, y) == oil_painted_at(
                    *image,
                    self.reach() as int,
                    self.levels() as int,
                    x,
                    y,
                ),
    {
        let w = image.width();
        let h = image.height();
        let ghost g = *image;
        let mut out = image.clone();
        let mut y: u32 = 0;
        while y < h
            invariant
                g == *image,
                w == image.w(),
                h == image.h(),
                self.levels() >= 1 || w == 0 || h == 0,
                out.w() == w,
                out.h() == h,
                y <= h,
                forall|a: int, b: int|
                    out.in_bounds(a, b) ==> #[trigger] out.at(a, b) == if b < y {
                        oil_painted_at(g, self.reach() as int, self.levels() as int, a, b)
                    } else {
                        g.at(a, b)
                    },
            decreases h - y,
        {
            let mut x: u32 = 0;
            while x < w
                invariant
                    g == *image,
                    w == image.w(),
                    h == image.h(),
                    self.levels() >= 1 || w == 0 || h == 0,
                    out.w() == w,
                    out.h() == h,
                    y < h,
                    x <= w,
                    forall|a: int, b: int|
                        out.in_bounds(a, b) ==> #[trigger] out.at(a, b) == if b < y || (b == y && a < x) {
                            oil_painted_at(g, self.reach() as int, self.levels() as int, a, b)
                        } else {
                            g.at(a, b)
                        },
                decreases w - x,
            {
                let p = oil_pixel(image, self.radius, self.intensity_levels, x, y);
                out.put_pixel(x, y, p);
                x = x + 1;
            }
            y = y + 1;
        }
        out
    }

    /// The filter's name.
    pub fn name(&self) -> (r: &str)
        ensures
            r@ == self.label(),
    {
        self.name.as_str()
    }

    /// The filter's description.
    pub fn description(&self) -> (r: &str)
        ensures
            r@ == self.summary(),
    {
        self.description.as_str()
    }
}

/// The intensity the cartoon effect measures edges on: the gray level of a pixel.
pub open spec fn cartoon_intensity_of(p: Rgba) -> int {
    (p[0] as int + p[1] as int + p[2] as int) / 3
}

/// The gray level of a pixel, as the cartoon effect's edge detector reads it.
pub fn cartoon_intensity(p: Rgba) -> (r: i32)
    ensures
        r == cartoon_intensity_of(p),
{
    ((p[0] as i32 + p[1] as i32 + p[2] as i32) / 3) as i32
}

/// The horizontal Sobel response at `(x, y)`.
pub open spec fn sobel_x_of(img: RgbaImage, x: int, y: int) -> int {
    -cartoon_intensity_of(img.at(x - 1, y - 1)) - 2 * cartoon_intensity_of(img.at(x - 1, y))
        - cartoon_intensity_of(img.at(x - 1, y + 1)) + cartoon_intensity_of(img.at(x + 1, y - 1)) + 2
        * cartoon_intensity_of(img.at(x + 1, y)) + cartoon_intensity_of(img.at(x + 1, y + 1))
}

/// The vertical Sobel response at `(x, y)`.
pub open spec fn sobel_y_of(img: RgbaImage, x: int, y: int) -> int {
    -cartoon_intensity_of(img.at(x - 1, y - 1)) - 2 * cartoon_intensity_of(img.at(x, y - 1))
        - cartoon_intensity_of(img.at(x + 1, y - 1)) + cartoon_intensity_of(img.at(x - 1, y + 1)) + 2
        * cartoon_intensity_of(img.at(x, y + 1)) + cartoon_intensity_of(img.at(x + 1, y + 1))
}

/// The horizontal Sobel response at an inner pixel `(x, y)`.
pub fn sobel_x(image: &RgbaImage, x: u32, y: u32) -> (r: i32)
    requires
        1 <= x < image.w() - 1,
        1 <= y < image.h() - 1,
    ensures
        r == sobel_x_of(*image, x as int, y as int),
{
    let _w = image.width();
    let _h = image.height();
    let p00 = cartoon_intensity(image.get_pixel(x - 1, y - 1));
    let p01 = cartoon_intensity(image.get_pixel(x - 1, y));
    let p02 = cartoon_intensity(image.get_pixel(x - 1, y + 1));
    let p20 = cartoon_intensity(image.get_pixel(x + 1, y - 1));
    let p21 = cartoon_intensity(image.get_pixel(x + 1, y));
    let p22 = cartoon_intensity(image.get_pixel(x + 1, y + 1));
    -p00 - 2 * p01 - p02 + p20 + 2 * p21 + p22
}

/// The vertical Sobel response at an inner pixel `(x, y)`.
pub fn sobel_y(image: &RgbaImage, x: u32, y: u32) -> (r: i32)
    requires
        1 <= x < image.w() - 1,
        1 <= y < image.h() - 1,
    ensures
        r == sobel_y_of(*image, x as int, y as int),
{
    let _w = image.width();
    let _h = image.height();
    let p00 = cartoon_intensity(image.get_pixel(x - 1, y - 1));
    let p10 = cartoon_intensity(image.get_pixel(x, y - 1));
    let p20 = cartoon_intensity(image.get_pixel(x + 1, y - 1));
    let p02 = cartoon_intensity(image.get_pixel(x - 1, y + 1));
    let p12 = cartoon_intensity(image.get_pixel(x, y + 1));
    let p22 = cartoon_intensity(image.get_pixel(x + 1, y + 1));
    -p00 - 2 * p10 - p20 + p02 + 2 * p12 + p22
}

/// `value` rounded down to a multiple of `256 / levels`, capped at 255.
pub open spec fn quantized(value: int, levels: int) -> int {
    let step: int = 256int / levels;
    let level: int = (value / step) * step;
    if level < 255 {
        level
    } else {
        255
    }
}

/// Reduces a channel value to one of `levels` evenly spaced values.
pub fn quantize(value: u8, levels: u32) -> (r: u8)
    requires
        1 <= levels <= 256,
    ensures
        r == quantized(value as int, levels as int),
{
    let step = 256u32 / levels;
    proof {
        assert(step >= 1) by (nonlinear_arith)
            requires
                step as int == 256int / (levels as int),
                1 <= levels <= 256,
        ;
        assert((value as int / step as int) * step as int <= value as int) by (nonlinear_arith)
            requires
                step >= 1,
                value >= 0,
        ;
    }
    let level = (value as u32 / step) * step;
    if level < 255 {
        level as u8
    } else {
        255
    }
}

/// Kinds of noise the noise filter adds.
#[derive(Debug, Clone, Copy)]
pub enum NoiseType {
    Gaussian,
    SaltAndPepper,
    Speckle,
}

} // verus!
