use vstd::prelude::*;

verus! {

/// The selectable color styles; the gradients themselves belong to the
/// rendering collaborator.
#[derive(Clone, Copy, Eq, PartialEq, Ord, PartialOrd, Debug, Structural)]
pub enum ColorGradient {
    Rainbow,
    BlackWhite,
    Petrol,
}

/// The selectable light styles; lighting itself belongs to the rendering
/// collaborator.
#[derive(Clone, Copy, Eq, PartialEq, Ord, PartialOrd, Debug, Structural)]
pub enum LightMode {
    Normal,
    Bloom,
}

} // verus!
