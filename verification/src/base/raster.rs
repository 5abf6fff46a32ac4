use vstd::prelude::*;

verus! {

/// An 8-bit RGBA pixel: red, green, blue and alpha, in that order.
pub type Rgba = [u8; 4];

/// The fully transparent black pixel that fresh buffers are filled with.
pub open spec fn transparent() -> Rgba {
    [0u8, 0u8, 0u8, 0u8]
}

/// Row-major positions inside a `w` by `h` raster lie in `0 .. w * h`.
pub proof fn lemma_pixel_index(w: nat, h: nat, x: int, y: int)
    requires
        0 <= x < w,
        0 <= y < h,
    ensures
        0 <= y * w + x < w * h,
{
    assert(0 <= y * w + x < w * h) by (nonlinear_arith)
        requires
            0 <= x < w,
            0 <= y < h,
    ;
}

/// Distinct in-bounds coordinates have distinct row-major positions.
pub proof fn lemma_pixel_index_injective(w: nat, x1: int, y1: int, x2: int, y2: int)
    requires
        0 <= x1 < w,
        0 <= x2 < w,
        0 <= y1,
        0 <= y2,
        y1 * w + x1 == y2 * w + x2,
    ensures
        x1 == x2,
        y1 == y2,
{
    if y1 < y2 {
        assert(y1 * w + w <= y2 * w) by (nonlinear_arith)
            requires
                y1 < y2,
                0 <= y1,
        ;
    } else if y2 < y1 {
        assert(y2 * w + w <= y1 * w) by (nonlinear_arith)
            requires
                y2 < y1,
                0 <= y2,
        ;
    }
}


/// `width * height`, computed without overflow.
pub fn checked_area(width: u32, height: u32) -> (r: u64)
    ensures
        r == width as nat * height as nat,
{
    proof {
        assert(width as nat * height as nat <= 0xffff_ffff_ffff_ffffnat) by (nonlinear_arith)
            requires
                width <= 0xffff_ffff,
                height <= 0xffff_ffff,
        ;
    }
    (width as u64) * (height as u64)
}

/// An RGBA raster image with 8 bits per channel, stored row by row.
#[derive(Debug)]
pub struct RgbaImage {
    width: u32,
    height: u32,
    pixels: Vec<Rgba>,
}

impl RgbaImage {
    #[verifier::type_invariant]
    spec fn inv(&self) -> bool {
        self.pixels@.len() == self.width as nat * self.height as nat
    }

    /// Width in pixels.
    pub closed spec fn w(&self) -> nat {
        self.width as nat
    }

    /// Height in pixels.
    pub closed spec fn h(&self) -> nat {
        self.height as nat
    }

    /// The pixels in row-major order.
    pub closed spec fn data(&self) -> Seq<Rgba> {
        self.pixels@
    }

    /// The pixel at column `x`, row `y`.
    pub open spec fn at(&self, x: int, y: int) -> Rgba {
        self.data()[y * self.w() + x]
    }

    /// Whether `(x, y)` names a pixel of the image.
    pub open spec fn in_bounds(&self, x: int, y: int) -> bool {
        0 <= x < self.w() && 0 <= y < self.h()
    }

    /// Whether two images have the same size and the same pixels.
    pub open spec fn same_as(&self, other: &RgbaImage) -> bool {
        &&& self.w() == other.w()
        &&& self.h() == other.h()
        &&& forall|x: int, y: int| self.in_bounds(x, y) ==> #[trigger] self.at(x, y) == other.at(x, y)
    }

    /// A `width` by `height` image whose pixels are all transparent black.
    pub fn new(width: u32, height: u32) -> (img: Self)
        requires
            width as nat * height as nat <= usize::MAX,
        ensures
            img.w() == width,
            img.h() == height,
            forall|x: int, y: int| img.in_bounds(x, y) ==> #[trigger] img.at(x, y) == transparent(),
    {
        Self::filled(width, height, [0u8, 0u8, 0u8, 0u8])
    }

    /// A `width` by `height` image whose pixels all equal `color`.
    pub fn filled(width: u32, height: u32, color: Rgba) -> (img: Self)
        requires
            width as nat * height as nat <= usize::MAX,
        ensures
            img.w() == width,
            img.h() == height,
            forall|x: int, y: int| img.in_bounds(x, y) ==> #[trigger] img.at(x, y) == color,
    {
        let n: usize = width as usize * height as usize;
        let mut pixels: Vec<Rgba> = Vec::new();
        let mut i: usize = 0;
        while i < n
            invariant
                i <= n,
                pixels@.len() == i,
                forall|k: int| 0 <= k < i ==> pixels@[k] == color,
            decreases n - i,
        {
            pixels.push(color);
            i = i + 1;
        }
        let img = RgbaImage { width, height, pixels };
        proof {
            assert forall|x: int, y: int| img.in_bounds(x, y) implies #[trigger] img.at(x, y) == color by {
                lemma_pixel_index(width as nat, height as nat, x, y);
            }
        }
        img
    }

    /// Builds an image from row-major pixels; `None` when their number is not
    /// `width * height`.
    pub fn from_pixels(width: u32, height: u32, pixels: Vec<Rgba>) -> (r: Option<Self>)
        ensures
            r is Some <==> pixels@.len() == width as nat * height as nat,
            r matches Some(img) ==> img.w() == width && img.h() == height && img.data() == pixels@,
    {
        let n: u64 = checked_area(width, height);
        if (pixels.len() as u64) == n {
            Some(RgbaImage { width, height, pixels })
        } else {
            None
        }
    }

    /// The row-major pixels.
    pub fn as_pixels(&self) -> (r: &Vec<Rgba>)
        ensures
            r@ == self.data(),
            r@.len() == self.w() * self.h(),
    {
        proof {
            use_type_invariant(self);
        }
        &self.pixels
    }

    /// Number of pixels, `width * height`.
    pub fn pixel_count(&self) -> (n: usize)
        ensures
            n as nat == self.w() * self.h(),
            n as nat == self.data().len(),
    {
        proof {
            use_type_invariant(self);
        }
        self.pixels.len()
    }

    /// Width in pixels.
    pub fn width(&self) -> (r: u32)
        ensures
            r == self.w(),
    {
        self.width
    }

    /// Height in pixels.
    pub fn height(&self) -> (r: u32)
        ensures
            r == self.h(),
    {
        self.height
    }


    /// Row-major position of the in-bounds pixel `(x, y)`.
    fn index_of(&self, x: u32, y: u32) -> (i: usize)
        requires
            self.in_bounds(x as int, y as int),
        ensures
            i as int == y as int * self.w() + x as int,
            i < self.data().len(),
    {
        let yy: usize = y as usize;
        let ww: usize = self.width as usize;
        let xx: usize = x as usize;
        let len: usize = self.pixels.len();
        proof {
            use_type_invariant(self);
            lemma_pixel_index(self.w(), self.h(), x as int, y as int);
            assert(yy as int == y as int && ww as int == self.w() && xx as int == x as int);
            assert(yy * ww + xx < self.data().len());
        }
        yy * ww + xx
    }

    /// The pixel at `(x, y)`.
    pub fn get_pixel(&self, x: u32, y: u32) -> (p: Rgba)
        requires
            self.in_bounds(x as int, y as int),
        ensures
            p == self.at(x as int, y as int),
    {
        proof {
            use_type_invariant(self);
            lemma_pixel_index(self.w(), self.h(), x as int, y as int);
        }
        let i: usize = self.index_of(x, y);
        self.pixels[i]
    }

    /// Overwrites the pixel at `(x, y)`; every other pixel is kept.
    pub fn put_pixel(&mut self, x: u32, y: u32, p: Rgba)
        requires
            old(self).in_bounds(x as int, y as int),
        ensures
            final(self).w() == old(self).w(),
            final(self).h() == old(self).h(),
            final(self).data() == old(self).data().update(y as int * old(self).w() + x as int, p),
            forall|i: int, j: int|
                final(self).in_bounds(i, j) ==> #[trigger] final(self).at(i, j) == if i == x && j == y {
                    p
                } else {
                    old(self).at(i, j)
                },
    {
        proof {
            use_type_invariant(&*self);
            lemma_pixel_index(self.w(), self.h(), x as int, y as int);
        }
        let i: usize = self.index_of(x, y);
        let mut taken = RgbaImage { width: 0, height: 0, pixels: Vec::new() };
        std::mem::swap(self, &mut taken);
        let RgbaImage { width, height, mut pixels } = taken;
        pixels.set(i, p);
        *self = RgbaImage { width, height, pixels };
        proof {
            assert forall|a: int, b: int| self.in_bounds(a, b) implies #[trigger] self.at(a, b) == if a == x && b == y {
                p
            } else {
                old(self).at(a, b)
            } by {
                lemma_pixel_index(self.w(), self.h(), a, b);
                if a != x || b != y {
                    if b * self.w() + a == y * self.w() + x {
                        lemma_pixel_index_injective(self.w(), a, b, x as int, y as int);
                    }
                }
            }
        }
    }
}


impl RgbaImage {
    /// The pixel that cropping at offset `(x, y)` puts at `(i, j)`: the source pixel
    /// `(x + i, y + j)` when it exists, transparent black otherwise.
    pub open spec fn crop_source(&self, x: int, y: int, i: int, j: int) -> Rgba {
        if self.in_bounds(x + i, y + j) {
            self.at(x + i, y + j)
        } else {
            transparent()
        }
    }

    /// The pixel that resizing puts at `(i, j)`: the old pixel when it exists,
    /// transparent black otherwise.
    pub open spec fn resize_source(&self, i: int, j: int) -> Rgba {
        if self.in_bounds(i, j) {
            self.at(i, j)
        } else {
            transparent()
        }
    }

    /// A transparent image of the same size.
    pub fn blank_like(&self) -> (img: Self)
        ensures
            img.w() == self.w(),
            img.h() == self.h(),
            forall|x: int, y: int| img.in_bounds(x, y) ==> #[trigger] img.at(x, y) == transparent(),
    {
        let _n = self.pixel_count();
        RgbaImage::new(self.width(), self.height())
    }

    /// The `width` by `height` window whose top-left corner is `(x, y)`; positions
    /// outside this image become transparent black.
    pub fn cropped(&self, x: u32, y: u32, width: u32, height: u32) -> (r: Self)
        requires
            x as nat + width as nat <= 0x1_0000_0000,
            y as nat + height as nat <= 0x1_0000_0000,
            width as nat * height as nat <= usize::MAX,
        ensures
            r.w() == width,
            r.h() == height,
            forall|i: int, j: int| r.in_bounds(i, j) ==> #[trigger] r.at(i, j) == self.crop_source(x as int, y as int, i, j),
    {
        let mut out = RgbaImage::new(width, height);
        let mut j: u32 = 0;
        while j < height
            invariant
                out.w() == width,
                out.h() == height,
                j <= height,
                x as nat + width as nat <= 0x1_0000_0000,
                y as nat + height as nat <= 0x1_0000_0000,
                forall|a: int, b: int|
                    out.in_bounds(a, b) ==> #[trigger] out.at(a, b) == if b < j {
                        self.crop_source(x as int, y as int, a, b)
                    } else {
                        transparent()
                    },
            decreases height - j,
        {
            let mut i: u32 = 0;
            while i < width
                invariant
                    out.w() == width,
                    out.h() == height,
                    j < height,
                    i <= width,
                    x as nat + width as nat <= 0x1_0000_0000,
                    y as nat + height as nat <= 0x1_0000_0000,
                    forall|a: int, b: int|
                        out.in_bounds(a, b) ==> #[trigger] out.at(a, b) == if b < j || (b == j && a < i) {
                            self.crop_source(x as int, y as int, a, b)
                        } else {
                            transparent()
                        },
                decreases width - i,
            {
                let src_x = i + x;
                let src_y = j + y;
                if src_x < self.width() && src_y < self.height() {
                    let p = self.get_pixel(src_x, src_y);
                    out.put_pixel(i, j, p);
                }
                i = i + 1;
            }
            j = j + 1;
        }
        out
    }

    /// A `width` by `height` image holding this image's pixels at the same
    /// positions where they fit, transparent black elsewhere.
    pub fn resized(&self, width: u32, height: u32) -> (r: Self)
        requires
            width as nat * height as nat <= usize::MAX,
        ensures
            r.w() == width,
            r.h() == height,
            forall|i: int, j: int| r.in_bounds(i, j) ==> #[trigger] r.at(i, j) == self.resize_source(i, j),
    {
        let mut out = RgbaImage::new(width, height);
        let copy_width = if width < self.width() { width } else { self.width() };
        let copy_height = if height < self.height() { height } else { self.height() };
        let mut j: u32 = 0;
        while j < copy_height
            invariant
                out.w() == width,
                out.h() == height,
                copy_width as nat == if width < self.w() { width as nat } else { self.w() },
                copy_height as nat == if height < self.h() { height as nat } else { self.h() },
                j <= copy_height,
                forall|a: int, b: int|
                    out.in_bounds(a, b) ==> #[trigger] out.at(a, b) == if b < j && a < copy_width {
                        self.resize_source(a, b)
                    } else {
                        transparent()
                    },
            decreases copy_height - j,
        {
            let mut i: u32 = 0;
            while i < copy_width
                invariant
                    out.w() == width,
                    out.h() == height,
                    copy_width as nat == if width < self.w() { width as nat } else { self.w() },
                    copy_height as nat == if height < self.h() { height as nat } else { self.h() },
                    j < copy_height,
                    i <= copy_width,
                    forall|a: int, b: int|
                        out.in_bounds(a, b) ==> #[trigger] out.at(a, b) == if (b < j && a < copy_width) || (b == j
                            && a < i) {
                            self.resize_source(a, b)
                        } else {
                            transparent()
                        },
                decreases copy_width - i,
            {
                let p = self.get_pixel(i, j);
                out.put_pixel(i, j, p);
                i = i + 1;
            }
            j = j + 1;
        }
        out
    }

    /// Copies the `width` by `height` top-left part of `patch` into this image with
    /// its corner at `(x, y)`, skipping positions that fall outside this image.
    pub fn paste(&mut self, patch: &RgbaImage, x: u32, y: u32, width: u32, height: u32)
        requires
            patch.w() >= width,
            patch.h() >= height,
            x as nat + width as nat <= 0x1_0000_0000,
            y as nat + height as nat <= 0x1_0000_0000,
        ensures
            final(self).w() == old(self).w(),
            final(self).h() == old(self).h(),
            forall|a: int, b: int|
                final(self).in_bounds(a, b) ==> #[trigger] final(self).at(a, b) == if x <= a < x + width && y <= b < y
                    + height {
                    patch.at(a - x, b - y)
                } else {
                    old(self).at(a, b)
                },
    {
        let ghost orig = *self;
        let mut j: u32 = 0;
        while j < height
            invariant
                self.w() == orig.w(),
                self.h() == orig.h(),
                patch.w() >= width,
                patch.h() >= height,
                j <= height,
                x as nat + width as nat <= 0x1_0000_0000,
                y as nat + height as nat <= 0x1_0000_0000,
                forall|a: int, b: int|
                    self.in_bounds(a, b) ==> #[trigger] self.at(a, b) == if x <= a < x + width && y <= b < y + j {
                        patch.at(a - x, b - y)
                    } else {
                        orig.at(a, b)
                    },
            decreases height - j,
        {
            let mut i: u32 = 0;
            while i < width
                invariant
                    self.w() == orig.w(),
                    self.h() == orig.h(),
                    patch.w() >= width,
                    patch.h() >= height,
                    j < height,
                    i <= width,
                    x as nat + width as nat <= 0x1_0000_0000,
                    y as nat + height as nat <= 0x1_0000_0000,
                    forall|a: int, b: int|
                        self.in_bounds(a, b) ==> #[trigger] self.at(a, b) == if (x <= a < x + width && y <= b < y + j)
                            || (b == y + j && x <= a < x + i) {
                            patch.at(a - x, b - y)
                        } else {
                            orig.at(a, b)
                        },
                decreases width - i,
            {
                if i + x < self.width() && j + y < self.height() {
                    let p = patch.get_pixel(i, j);
                    self.put_pixel(i + x, j + y, p);
                }
                i = i + 1;
            }
            j = j + 1;
        }
    }
}

impl Clone for RgbaImage {
    /// A pixel-for-pixel copy.
    fn clone(&self) -> (r: Self)
        ensures
            r.w() == self.w(),
            r.h() == self.h(),
            r.data() == self.data(),
    {
        proof {
            use_type_invariant(self);
        }
        let mut pixels: Vec<Rgba> = Vec::new();
        let n = self.pixels.len();
        let mut i: usize = 0;
        while i < n
            invariant
                i <= n,
                n == self.pixels@.len(),
                pixels@ == self.pixels@.subrange(0, i as int),
            decreases n - i,
        {
            pixels.push(self.pixels[i]);
            i = i + 1;
        }
        RgbaImage { width: self.width, height: self.height, pixels }
    }
}

/// An 8-bit single-channel (luma) raster image, stored row by row.
#[derive(Debug)]
pub struct GrayImage {
    width: u32,
    height: u32,
    pixels: Vec<u8>,
}

impl GrayImage {
    #[verifier::type_invariant]
    spec fn inv(&self) -> bool {
        self.pixels@.len() == self.width as nat * self.height as nat
    }

    /// Width in pixels.
    pub closed spec fn w(&self) -> nat {
        self.width as nat
    }

    /// Height in pixels.
    pub closed spec fn h(&self) -> nat {
        self.height as nat
    }

    /// The pixels in row-major order.
    pub closed spec fn data(&self) -> Seq<u8> {
        self.pixels@
    }

    /// The value at column `x`, row `y`.
    pub open spec fn at(&self, x: int, y: int) -> u8 {
        self.data()[y * self.w() + x]
    }

    /// Whether `(x, y)` names a pixel of the image.
    pub open spec fn in_bounds(&self, x: int, y: int) -> bool {
        0 <= x < self.w() && 0 <= y < self.h()
    }

    /// A `width` by `height` image of zeros.
    pub fn new(width: u32, height: u32) -> (img: Self)
        requires
            width as nat * height as nat <= usize::MAX,
        ensures
            img.w() == width,
            img.h() == height,
            img.data().len() == width as nat * height as nat,
            forall|x: int, y: int| img.in_bounds(x, y) ==> #[trigger] img.at(x, y) == 0,
    {
        let n: usize = width as usize * height as usize;
        let mut pixels: Vec<u8> = Vec::new();
        let mut i: usize = 0;
        while i < n
            invariant
                i <= n,
                pixels@.len() == i,
                forall|k: int| 0 <= k < i ==> pixels@[k] == 0,
            decreases n - i,
        {
            pixels.push(0u8);
            i = i + 1;
        }
        let img = GrayImage { width, height, pixels };
        proof {
            assert forall|x: int, y: int| img.in_bounds(x, y) implies #[trigger] img.at(x, y) == 0 by {
                lemma_pixel_index(width as nat, height as nat, x, y);
            }
        }
        img
    }

    /// Builds an image from row-major values; `None` when their number is not
    /// `width * height`.
    pub fn from_pixels(width: u32, height: u32, pixels: Vec<u8>) -> (r: Option<Self>)
        ensures
            r is Some <==> pixels@.len() == width as nat * height as nat,
            r matches Some(img) ==> img.w() == width && img.h() == height && img.data() == pixels@,
    {
        let n: u64 = checked_area(width, height);
        if (pixels.len() as u64) == n {
            Some(GrayImage { width, height, pixels })
        } else {
            None
        }
    }

    /// The row-major values.
    pub fn as_pixels(&self) -> (r: &Vec<u8>)
        ensures
            r@ == self.data(),
            r@.len() == self.w() * self.h(),
    {
        proof {
            use_type_invariant(self);
        }
        &self.pixels
    }

    /// Number of pixels, `width * height`.
    pub fn pixel_count(&self) -> (n: usize)
        ensures
            n as nat == self.w() * self.h(),
            n as nat == self.data().len(),
    {
        proof {
            use_type_invariant(self);
        }
        self.pixels.len()
    }

    /// Width in pixels.
    pub fn width(&self) -> (r: u32)
        ensures
            r == self.w(),
    {
        self.width
    }

    /// Height in pixels.
    pub fn height(&self) -> (r: u32)
        ensures
            r == self.h(),
    {
        self.height
    }


    /// Row-major position of the in-bounds pixel `(x, y)`.
    fn index_of(&self, x: u32, y: u32) -> (i: usize)
        requires
            self.in_bounds(x as int, y as int),
        ensures
            i as int == y as int * self.w() + x as int,
            i < self.data().len(),
    {
        let yy: usize = y as usize;
        let ww: usize = self.width as usize;
        let xx: usize = x as usize;
        let len: usize = self.pixels.len();
        proof {
            use_type_invariant(self);
            lemma_pixel_index(self.w(), self.h(), x as int, y as int);
            assert(yy as int == y as int && ww as int == self.w() && xx as int == x as int);
            assert(yy * ww + xx < self.data().len());
        }
        yy * ww + xx
    }

    /// The value at `(x, y)`.
    pub fn get_pixel(&self, x: u32, y: u32) -> (p: u8)
        requires
            self.in_bounds(x as int, y as int),
        ensures
            p == self.at(x as int, y as int),
    {
        proof {
            use_type_invariant(self);
            lemma_pixel_index(self.w(), self.h(), x as int, y as int);
        }
        let i: usize = self.index_of(x, y);
        self.pixels[i]
    }

    /// Overwrites the value at `(x, y)`; every other value is kept.
    pub fn put_pixel(&mut self, x: u32, y: u32, p: u8)
        requires
            old(self).in_bounds(x as int, y as int),
        ensures
            final(self).w() == old(self).w(),
            final(self).h() == old(self).h(),
            final(self).data() == old(self).data().update(y as int * old(self).w() + x as int, p),
            forall|i: int, j: int|
                final(self).in_bounds(i, j) ==> #[trigger] final(self).at(i, j) == if i == x && j == y {
                    p
                } else {
                    old(self).at(i, j)
                },
    {
        proof {
            use_type_invariant(&*self);
            lemma_pixel_index(self.w(), self.h(), x as int, y as int);
        }
        let i: usize = self.index_of(x, y);
        let mut taken = GrayImage { width: 0, height: 0, pixels: Vec::new() };
        std::mem::swap(self, &mut taken);
        let GrayImage { width, height, mut pixels } = taken;
        pixels.set(i, p);
        *self = GrayImage { width, height, pixels };
        proof {
            assert forall|a: int, b: int| self.in_bounds(a, b) implies #[trigger] self.at(a, b) == if a == x && b == y {
                p
            } else {
                old(self).at(a, b)
            } by {
                lemma_pixel_index(self.w(), self.h(), a, b);
                if a != x || b != y {
                    if b * self.w() + a == y * self.w() + x {
                        lemma_pixel_index_injective(self.w(), a, b, x as int, y as int);
                    }
                }
            }
        }
    }
}

impl Clone for GrayImage {
    /// A pixel-for-pixel copy.
    fn clone(&self) -> (r: Self)
        ensures
            r.w() == self.w(),
            r.h() == self.h(),
            r.data() == self.data(),
    {
        proof {
            use_type_invariant(self);
        }
        let mut pixels: Vec<u8> = Vec::new();
        let n = self.pixels.len();
        let mut i: usize = 0;
        while i < n
            invariant
                i <= n,
                n == self.pixels@.len(),
                pixels@ == self.pixels@.subrange(0, i as int),
            decreases n - i,
        {
            pixels.push(self.pixels[i]);
            i = i + 1;
        }
        GrayImage { width: self.width, height: self.height, pixels }
    }
}

} // verus!
