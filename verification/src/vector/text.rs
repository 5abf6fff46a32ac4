use vstd::prelude::*;

verus! {

/// Horizontal alignment of vector text.
#[derive(Debug, Clone, Copy, PartialEq, Eq, Structural)]
pub enum TextAlignment {
    Left,
    Center,
    Right,
    Justified,
}

/// Vertical alignment of vector text.
#[derive(Debug, Clone, Copy, PartialEq, Eq, Structural)]
pub enum TextVerticalAlignment {
    Top,
    Middle,
    Bottom,
}

/// Where vector text may wrap.
#[derive(Debug, Clone, Copy, PartialEq, Eq, Structural)]
pub enum TextWrap {
    NoWrap,
    Word,
    Character,
}

/// Font weight of vector text.
#[derive(Debug, Clone, Copy, PartialEq, Eq, Structural)]
pub enum FontWeight {
    Normal,
    Bold,
}

/// Font style of vector text.
#[derive(Debug, Clone, Copy, PartialEq, Eq, Structural)]
pub enum FontStyle {
    Normal,
    Italic,
}

} // verus!
