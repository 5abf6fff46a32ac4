use vstd::prelude::*;

verus! {

/// How the handles of a path node relate: a sharp corner, or a smooth, symmetric or free bezier point.
#[derive(Debug, Clone, Copy, PartialEq, Eq, Structural)]
pub enum PathNodeType {
    Point,
    Smooth,
    Symmetric,
    Asymmetric,
}

} // verus!
