use vstd::prelude::*;

verus! {

/// Direction of the wave distortion.
#[derive(Debug, Clone, Copy)]
pub enum WaveDirection {
    Horizontal,
    Vertical,
    Both,
}

} // verus!
