use vstd::prelude::*;

verus! {

/// What the vector tool draws.
#[derive(Debug, Clone, Copy, PartialEq, Eq, Structural)]
pub enum VectorMode {
    Path,
    Rectangle,
    Ellipse,
    Polygon,
    Star,
    Pen,
}

} // verus!
