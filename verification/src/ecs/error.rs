use vstd::prelude::*;
use crate::ecs::entity::Entity;

verus! {

/// The errors that operations on an `Assembly` or a `World` may report.
#[derive(Debug, Clone, Copy, PartialEq, Eq, Structural)]
pub enum EcsError {
    /// Could not find the specified component(s).
    ComponentNotFound,
    /// The specified component(s) were found more than once.
    MultipleComponentsFound,
    /// The entity was not found in the assembly.
    EntityNotFound(Entity),
    /// The system's requirements were not satisfied.
    UnsatisfiedRequirements,
}

} // verus!
