use vstd::prelude::*;

verus! {

/// Performs collision detection on the objects of an assembly.
#[derive(Debug, Clone, Copy, Default)]
pub struct Physics {}

} // verus!
