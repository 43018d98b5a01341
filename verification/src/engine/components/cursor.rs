use vstd::prelude::*;

verus! {

/// Indicates the direction of the derivative of a square wave function, as is the case for mouse
/// button presses. Thus, when a mouse button press goes from released to pressed, its flank is
/// `Down`, and `Up` in the other direction.
#[derive(Debug, Clone, Copy, PartialEq, Eq, Structural)]
pub enum FlankDirection {
    /// When a binary function goes from 0 to 1, its flank goes `Up`.
    Up,
    /// When a binary function goes from 1 to 0, its flank goes `Down`.
    Down,
}

} // verus!
