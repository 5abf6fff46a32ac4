use vstd::prelude::*;

verus! {

/// Dash pattern of a stroke.
#[derive(Debug, Clone, Copy, PartialEq, Eq, Structural)]
pub enum LineDash {
    Solid,
    Dashed,
    Dotted,
    DashDot,
    Hidden,
}

} // verus!
