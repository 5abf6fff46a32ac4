use vstd::prelude::*;
use crate::base::raster::{Rgba, RgbaImage};

verus! {

/// Level `v` after the lookup table `table`, or `v` itself when there is none.
pub open spec fn through(table: Option<&[u8; 256]>, v: u8) -> u8 {
    match table {
        Some(t) => t@[v as int],
        None => v,
    }
}

/// A pixel after the curves: each color channel goes through the composite table
/// first, when there is one, then through its own table; alpha is kept.
pub open spec fn curved(
    p: Rgba,
    composite: Option<&[u8; 256]>,
    red: Option<&[u8; 256]>,
    green: Option<&[u8; 256]>,
    blue: Option<&[u8; 256]>,
) -> Rgba {
    [
        through(red, through(composite, p[0])),
        through(green, through(composite, p[1])),
        through(blue, through(composite, p[2])),
        p[3],
    ]
}

fn look_up(table: Option<&[u8; 256]>, v: u8) -> (r: u8)
    ensures
        r == through(table, v),
{
    match table {
        Some(t) => t[v as usize],
        None => v,
    }
}

/// Applies tone curves, given as lookup tables of the 256 levels, to every pixel
/// of `image`; see `curved`.
pub fn apply_curve_tables(
    image: &RgbaImage,
    composite: Option<&[u8; 256]>,
    red: Option<&[u8; 256]>,
    green: Option<&[u8; 256]>,
    blue: Option<&[u8; 256]>,
) -> (r: RgbaImage)
    ensures
        r.w() == image.w(),
        r.h() == image.h(),
        r.data().len() == image.data().len(),
        forall|k: int|
            0 <= k < image.data().len() ==> #[trigger] r.data()[k] == curved(
                image.data()[k],
                composite,
                red,
                green,
                blue,
            ),
{
    let src = image.as_pixels();
    let n = src.len();
    let mut out: Vec<Rgba> = Vec::new();
    let mut i: usize = 0;
    while i < n
        invariant
            n == src@.len(),
            i <= n,
            out@.len() == i,
            forall|k: int| 0 <= k < i ==> #[trigger] out@[k] == curved(src@[k], composite, red, green, blue),
        decreases n - i,
    {
        let p = src[i];
        let q = [
            look_up(red, look_up(composite, p[0])),
            look_up(green, look_up(composite, p[1])),
            look_up(blue, look_up(composite, p[2])),
            p[3],
        ];
        assert(q =~= curved(p, composite, red, green, blue));
        out.push(q);
        i = i + 1;
    }
    match RgbaImage::from_pixels(image.width(), image.height(), out) {
        Some(img) => img,
        None => {
            proof {
                assert(false);
            }
            image.blank_like()
        },
    }
}

/// The identity table leaves a channel as it is, so curves made only of identity
/// tables leave the image unchanged.
pub proof fn lemma_identity_tables(
    p: Rgba,
    composite: Option<&[u8; 256]>,
    red: Option<&[u8; 256]>,
    green: Option<&[u8; 256]>,
    blue: Option<&[u8; 256]>,
)
    requires
        forall|t: &[u8; 256], v: int|
            (composite == Some(t) || red == Some(t) || green == Some(t) || blue == Some(t)) && 0 <= v < 256
                ==> #[trigger] t@[v] == v,
    ensures
        curved(p, composite, red, green, blue) == p,
{
    assert(curved(p, composite, red, green, blue) =~= p);
}

} // verus!
