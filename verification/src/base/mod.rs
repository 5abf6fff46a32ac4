pub mod raster;
pub mod selection;
pub mod history;
pub mod layer;
pub mod document;
pub mod settings;
pub mod layers;
pub mod canvas;
pub mod curves;

use vstd::prelude::*;

verus! {

/// Color space chosen for new documents in the preferences.
#[derive(Debug, Clone, PartialEq)]
pub enum ColorSpace {
    SRGB,
    AdobeRGB,
    ProPhotoRGB,
    CMYK,
    Grayscale,
    LAB,
    HSL,
    HDR,
    Custom(String),
}

/// Bit depth chosen for new documents in the preferences.
#[derive(Debug, Clone, Copy, PartialEq, Eq, Structural)]
pub enum BitDepth {
    Bit8,
    Bit16,
    Bit32,
}

} // verus!
