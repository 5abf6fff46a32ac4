use vstd::prelude::*;
use crate::base::raster::{Rgba, RgbaImage};

verus! {

/// The sum of `f` over the pixels `(x, yy)` of row `yy` with `x0 <= x < x1`.
pub open spec fn row_sum(img: RgbaImage, f: spec_fn(Rgba) -> int, yy: int, x0: int, x1: int) -> int
    decreases x1 - x0,
{
    if x1 <= x0 {
        0
    } else {
        row_sum(img, f, yy, x0, x1 - 1) + f(img.at(x1 - 1, yy))
    }
}

/// The sum of `f` over the pixels of the rectangle `x0 .. x1` by `y0 .. y1`.
pub open spec fn block_sum(img: RgbaImage, f: spec_fn(Rgba) -> int, x0: int, x1: int, y0: int, y1: int) -> int
    decreases y1 - y0,
{
    if y1 <= y0 {
        0
    } else {
        block_sum(img, f, x0, x1, y0, y1 - 1) + row_sum(img, f, y1 - 1, x0, x1)
    }
}

/// Channel `c` (0 red, 1 green, 2 blue, 3 alpha) of a pixel, as a number.
pub open spec fn channel(c: int) -> spec_fn(Rgba) -> int {
    |p: Rgba| p[c] as int
}

/// A row sum of values between 0 and `m` lies between 0 and `m` times the length.
pub proof fn lemma_row_sum_bounds(img: RgbaImage, f: spec_fn(Rgba) -> int, yy: int, x0: int, x1: int, m: int)
    requires
        x0 <= x1,
        0 <= m,
        forall|p: Rgba| 0 <= #[trigger] f(p) <= m,
    ensures
        0 <= row_sum(img, f, yy, x0, x1) <= m * (x1 - x0),
    decreases x1 - x0,
{
    if x1 > x0 {
        lemma_row_sum_bounds(img, f, yy, x0, x1 - 1, m);
        let v = f(img.at(x1 - 1, yy));
        assert(m * (x1 - 1 - x0) + m == m * (x1 - x0)) by (nonlinear_arith);
    }
}

/// A block sum of values between 0 and `m` lies between 0 and `m` times the area.
pub proof fn lemma_block_sum_bounds(img: RgbaImage, f: spec_fn(Rgba) -> int, x0: int, x1: int, y0: int, y1: int, m: int)
    requires
        x0 <= x1,
        y0 <= y1,
        0 <= m,
        forall|p: Rgba| 0 <= #[trigger] f(p) <= m,
    ensures
        0 <= block_sum(img, f, x0, x1, y0, y1) <= m * ((x1 - x0) * (y1 - y0)),
    decreases y1 - y0,
{
    if y1 > y0 {
        lemma_block_sum_bounds(img, f, x0, x1, y0, y1 - 1, m);
        lemma_row_sum_bounds(img, f, y1 - 1, x0, x1, m);
        assert(m * ((x1 - x0) * (y1 - 1 - y0)) + m * (x1 - x0) == m * ((x1 - x0) * (y1 - y0)))
            by (nonlinear_arith);
    }
}

/// Where each value of `f` is at most 255 times the matching value of `g`, so is
/// the row sum.
pub proof fn lemma_row_sum_scaled(img: RgbaImage, f: spec_fn(Rgba) -> int, g: spec_fn(Rgba) -> int, yy: int, x0: int, x1: int)
    requires
        forall|p: Rgba| #[trigger] f(p) <= 255 * g(p),
    ensures
        row_sum(img, f, yy, x0, x1) <= 255 * row_sum(img, g, yy, x0, x1),
    decreases x1 - x0,
{
    if x1 > x0 {
        lemma_row_sum_scaled(img, f, g, yy, x0, x1 - 1);
        let p = img.at(x1 - 1, yy);
        assert(f(p) <= 255 * g(p));
    }
}

/// Where each value of `f` is at most 255 times the matching value of `g`, so is
/// the block sum.
pub proof fn lemma_block_sum_scaled(img: RgbaImage, f: spec_fn(Rgba) -> int, g: spec_fn(Rgba) -> int, x0: int, x1: int, y0: int, y1: int)
    requires
        forall|p: Rgba| #[trigger] f(p) <= 255 * g(p),
    ensures
        block_sum(img, f, x0, x1, y0, y1) <= 255 * block_sum(img, g, x0, x1, y0, y1),
    decreases y1 - y0,
{
    if y1 > y0 {
        lemma_block_sum_scaled(img, f, g, x0, x1, y0, y1 - 1);
        lemma_row_sum_scaled(img, f, g, y1 - 1, x0, x1);
    }
}

/// A row sum over pixels on which `f` is `k` is `k` times the length.
pub proof fn lemma_row_sum_const(img: RgbaImage, f: spec_fn(Rgba) -> int, yy: int, x0: int, x1: int, k: int)
    requires
        x0 <= x1,
        forall|i: int| x0 <= i < x1 ==> #[trigger] f(img.at(i, yy)) == k,
    ensures
        row_sum(img, f, yy, x0, x1) == k * (x1 - x0),
    decreases x1 - x0,
{
    if x1 > x0 {
        lemma_row_sum_const(img, f, yy, x0, x1 - 1, k);
        assert(f(img.at(x1 - 1, yy)) == k);
        assert(k * (x1 - 1 - x0) + k == k * (x1 - x0)) by (nonlinear_arith);
        assert(row_sum(img, f, yy, x0, x1) == row_sum(img, f, yy, x0, x1 - 1) + f(img.at(x1 - 1, yy)));
    } else {
        assert(k * (x1 - x0) == 0) by (nonlinear_arith)
            requires
                x1 == x0,
        ;
    }
}

/// A block sum over pixels on which `f` is `k` is `k` times the area.
pub proof fn lemma_block_sum_const(img: RgbaImage, f: spec_fn(Rgba) -> int, x0: int, x1: int, y0: int, y1: int, k: int)
    requires
        x0 <= x1,
        y0 <= y1,
        forall|i: int, j: int| x0 <= i < x1 && y0 <= j < y1 ==> #[trigger] f(img.at(i, j)) == k,
    ensures
        block_sum(img, f, x0, x1, y0, y1) == k * ((x1 - x0) * (y1 - y0)),
    decreases y1 - y0,
{
    if y1 > y0 {
        lemma_block_sum_const(img, f, x0, x1, y0, y1 - 1, k);
        assert forall|i: int| x0 <= i < x1 implies #[trigger] f(img.at(i, y1 - 1)) == k by {}
        lemma_row_sum_const(img, f, y1 - 1, x0, x1, k);
        assert(k * ((x1 - x0) * (y1 - 1 - y0)) + k * (x1 - x0) == k * ((x1 - x0) * (y1 - y0)))
            by (nonlinear_arith);
    } else {
        assert(k * ((x1 - x0) * (y1 - y0)) == 0) by (nonlinear_arith)
            requires
                y1 == y0,
        ;
    }
}

/// Every channel value lies between 0 and 255.
pub proof fn lemma_channel_bounds(c: int)
    ensures
        forall|p: Rgba| 0 <= #[trigger] channel(c)(p) <= 255,
{
}

/// The per-channel mean over the non-empty rectangle `x0 .. x1` by `y0 .. y1`,
/// each rounded down.
pub open spec fn block_mean(img: RgbaImage, x0: int, x1: int, y0: int, y1: int) -> Rgba {
    let area = (x1 - x0) * (y1 - y0);
    [
        (block_sum(img, channel(0), x0, x1, y0, y1) / area) as u8,
        (block_sum(img, channel(1), x0, x1, y0, y1) / area) as u8,
        (block_sum(img, channel(2), x0, x1, y0, y1) / area) as u8,
        (block_sum(img, channel(3), x0, x1, y0, y1) / area) as u8,
    ]
}

/// A sum of `n` values of at most 255, divided by `n`, is at most 255.
pub proof fn lemma_mean_fits(s: int, n: int)
    requires
        0 < n,
        0 <= s <= 255 * n,
    ensures
        0 <= s / n <= 255,
{
    assert(s / n <= 255) by (nonlinear_arith)
        requires
            0 < n,
            0 <= s <= 255 * n,
    ;
    assert(0 <= s / n) by (nonlinear_arith)
        requires
            0 < n,
            0 <= s,
    ;
}

/// The per-channel mean of the rectangle `x0 .. x1` by `y0 .. y1` of `img`.
pub fn mean_of_block(img: &RgbaImage, x0: u32, x1: u32, y0: u32, y1: u32) -> (r: Rgba)
    requires
        x0 < x1 <= img.w(),
        y0 < y1 <= img.h(),
    ensures
        r == block_mean(*img, x0 as int, x1 as int, y0 as int, y1 as int),
{
    let mut s0: u128 = 0;
    let mut s1: u128 = 0;
    let mut s2: u128 = 0;
    let mut s3: u128 = 0;
    let mut count: u64 = 0;
    let ghost g = *img;
    let ghost cw: int = x1 - x0;
    let mut yy: u32 = y0;
    while yy < y1
        invariant
            x0 < x1 <= img.w(),
            y0 <= yy <= y1 <= img.h(),
            y0 < y1,
            g == *img,
            cw == x1 - x0,
            count as int == cw * (yy - y0),
            s0 as int == block_sum(g, channel(0), x0 as int, x1 as int, y0 as int, yy as int),
            s1 as int == block_sum(g, channel(1), x0 as int, x1 as int, y0 as int, yy as int),
            s2 as int == block_sum(g, channel(2), x0 as int, x1 as int, y0 as int, yy as int),
            s3 as int == block_sum(g, channel(3), x0 as int, x1 as int, y0 as int, yy as int),
        decreases y1 - yy,
    {
        let mut xx: u32 = x0;
        while xx < x1
            invariant
                x0 < x1 <= img.w(),
                y0 <= yy < y1 <= img.h(),
                x0 <= xx <= x1,
                g == *img,
                cw == x1 - x0,
                count as int == cw * (yy - y0) + (xx - x0),
                s0 as int == block_sum(g, channel(0), x0 as int, x1 as int, y0 as int, yy as int) + row_sum(g, channel(0), yy as int, x0 as int, xx as int),
                s1 as int == block_sum(g, channel(1), x0 as int, x1 as int, y0 as int, yy as int) + row_sum(g, channel(1), yy as int, x0 as int, xx as int),
                s2 as int == block_sum(g, channel(2), x0 as int, x1 as int, y0 as int, yy as int) + row_sum(g, channel(2), yy as int, x0 as int, xx as int),
                s3 as int == block_sum(g, channel(3), x0 as int, x1 as int, y0 as int, yy as int) + row_sum(g, channel(3), yy as int, x0 as int, xx as int),
            decreases x1 - xx,
        {
            proof {
                assert(cw * (yy - y0) + (xx - x0) < 0xffff_ffff_ffff_ffff) by (nonlinear_arith)
                    requires
                        0 <= xx - x0 < cw <= 0xffff_ffff,
                        0 <= yy - y0 < 0xffff_ffff,
                ;
                lemma_channel_bounds(0);
                lemma_channel_bounds(1);
                lemma_channel_bounds(2);
                lemma_channel_bounds(3);
                lemma_block_sum_bounds(g, channel(0), x0 as int, x1 as int, y0 as int, yy as int, 255);
                lemma_block_sum_bounds(g, channel(1), x0 as int, x1 as int, y0 as int, yy as int, 255);
                lemma_block_sum_bounds(g, channel(2), x0 as int, x1 as int, y0 as int, yy as int, 255);
                lemma_block_sum_bounds(g, channel(3), x0 as int, x1 as int, y0 as int, yy as int, 255);
                lemma_row_sum_bounds(g, channel(0), yy as int, x0 as int, xx as int, 255);
                lemma_row_sum_bounds(g, channel(1), yy as int, x0 as int, xx as int, 255);
                lemma_row_sum_bounds(g, channel(2), yy as int, x0 as int, xx as int, 255);
                lemma_row_sum_bounds(g, channel(3), yy as int, x0 as int, xx as int, 255);
                assert(255 * (cw * (yy - y0)) + 255 * (xx - x0) < 0x1_0000_0000_0000_0000_0000_0000_0000_0000 - 256) by (nonlinear_arith)
                    requires
                        0 <= xx - x0 < cw <= 0xffff_ffff,
                        0 <= yy - y0 < 0xffff_ffff,
                ;
            }
            let p = img.get_pixel(xx, yy);
            s0 = s0 + p[0] as u128;
            s1 = s1 + p[1] as u128;
            s2 = s2 + p[2] as u128;
            s3 = s3 + p[3] as u128;
            count = count + 1;
            xx = xx + 1;
        }
        proof {
            assert(cw * (yy - y0) + cw == cw * (yy + 1 - y0)) by (nonlinear_arith);
        }
        yy = yy + 1;
    }
    proof {
        let area = cw * (y1 - y0);
        assert(cw * (y1 - y0) > 0) by (nonlinear_arith)
            requires
                cw > 0,
                y1 > y0,
        ;
        lemma_channel_bounds(0);
        lemma_channel_bounds(1);
        lemma_channel_bounds(2);
        lemma_channel_bounds(3);
        lemma_block_sum_bounds(g, channel(0), x0 as int, x1 as int, y0 as int, y1 as int, 255);
        lemma_block_sum_bounds(g, channel(1), x0 as int, x1 as int, y0 as int, y1 as int, 255);
        lemma_block_sum_bounds(g, channel(2), x0 as int, x1 as int, y0 as int, y1 as int, 255);
        lemma_block_sum_bounds(g, channel(3), x0 as int, x1 as int, y0 as int, y1 as int, 255);
        lemma_mean_fits(s0 as int, area);
        lemma_mean_fits(s1 as int, area);
        lemma_mean_fits(s2 as int, area);
        lemma_mean_fits(s3 as int, area);
    }
    let n = count as u128;
    [(s0 / n) as u8, (s1 / n) as u8, (s2 / n) as u8, (s3 / n) as u8]
}

} // verus!
