use vstd::prelude::*;
use crate::base::raster::RgbaImage;
use crate::filters::{apply_invert, inverted_all};

verus! {

/// Inverts the colors of an image.
pub struct InvertFilter {
    pub name: String,
    pub description: String,
}

impl InvertFilter {
    /// The name the filter is listed under.
    pub open spec fn label(&self) -> Seq<char> {
        self.name@
    }

    /// The filter's description text.
    pub open spec fn summary(&self) -> Seq<char> {
        self.description@
    }

    /// The invert filter.
    pub fn new() -> (r: Self)
        ensures
            r.label() == "Invert"@,
            r.summary() == "Inverts the colors of the image"@,
    {
        Self { name: "Invert".to_string(), description: "Inverts the colors of the image".to_string() }
    }

    /// The color negative of `image`, alpha kept.
    pub fn apply(&self, image: &RgbaImage) -> (r: RgbaImage)
        ensures
            r.w() == image.w(),
            r.h() == image.h(),
            r.data() == inverted_all(image.data()),
    {
        apply_invert(image)
    }

    /// The filter's name.
    pub fn name(&self) -> (r: &str)
        ensures
            r@ == self.label(),
    {
        self.name.as_str()
    }

    /// The filter's description.
    pub fn description(&self) -> (r: &str)
        ensures
            r@ == self.summary(),
    {
        self.description.as_str()
    }
}

} // verus!
