use vstd::prelude::*;

verus! {

/// Prepares RAW support; there is nothing to set up, so it always succeeds.
pub fn init() -> (r: Result<(), String>)
    ensures
        r is Ok,
{
    Ok(())
}

/// Undeveloped sensor data: three bytes per pixel, row by row.
#[derive(Debug, Clone)]
pub struct RawImage {
    width: u32,
    height: u32,
    data: Vec<u8>,
}

impl RawImage {
    /// Width in pixels.
    pub closed spec fn w(&self) -> nat {
        self.width as nat
    }

    /// Height in pixels.
    pub closed spec fn h(&self) -> nat {
        self.height as nat
    }

    /// The sensor bytes.
    pub closed spec fn bytes(&self) -> Seq<u8> {
        self.data@
    }

    /// Width in pixels.
    pub fn width(&self) -> (r: u32)
        ensures
            r == self.w(),
    {
        self.width
    }

    /// Height in pixels.
    pub fn height(&self) -> (r: u32)
        ensures
            r == self.h(),
    {
        self.height
    }
}

/// How the colour of each pixel is rebuilt from the sensor's colour filter pattern.
#[derive(Debug, Clone, Copy, PartialEq, Eq, Structural)]
pub enum DemosaicAlgorithm {
    Bilinear,
    /// Variable Number of Gradients
    VNG,
    /// Patterned Pixel Grouping
    PPG,
    /// Adaptive Homogeneity-Directed
    AHD,
    /// Directionally Constrained Bilateral
    DCB,
}

/// The white balance applied when a RAW image is developed.
#[derive(Debug, Clone, PartialEq, Eq, Structural)]
pub enum WhiteBalance {
    AsShot,
    Auto,
    Daylight,
    Cloudy,
    Shade,
    Tungsten,
    Fluorescent,
    Flash,
    Custom { temperature: u32, tint: i32 },
}

/// Reads RAW files.
pub struct RawProcessor;

impl RawProcessor {
    /// A RAW processor.
    pub fn new() -> (r: Self) {
        Self
    }

    /// Loads a RAW file. Decoding is not implemented yet: whatever the path (of any
    /// type, such as `std::path::Path`), the result is a black 1000 by 750 image.
    pub fn load_file<P: ?Sized>(&self, _path: &P) -> (r: Result<RawImage, String>)
        ensures
            r matches Ok(img) ==> img.w() == 1000 && img.h() == 750 && img.bytes().len() == 1000 * 750 * 3
                && forall|i: int| 0 <= i < img.bytes().len() ==> #[trigger] img.bytes()[i] == 0,
            r is Ok,
    {
        let data = vec![0u8; 1000 * 750 * 3];
        Ok(RawImage { width: 1000, height: 750, data })
    }
}

} // verus!
