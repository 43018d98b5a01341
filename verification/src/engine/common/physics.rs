use vstd::prelude::*;

verus! {

/// The `PhysicsController` provides means to perform collision detection and other physics
/// operations.
#[derive(Debug, Clone, Copy, Default)]
pub struct PhysicsController;

} // verus!
