use vstd::prelude::*;
use crate::ecs::component_group::ComponentTrait;

verus! {

/// The `Description` component encodes information that describes a particular entity.
#[derive(Clone, Debug, PartialEq, Eq)]
pub struct Description {
    /// Holds the name of the connected entity or object.
    pub name: String,
}

impl Description {
    /// Creates a new `Description` component.
    pub fn new(name: &str) -> (d: Self)
        ensures
            d.name@ == name@,
    {
        Description { name: name.to_owned() }
    }
}

impl ComponentTrait for Description {}

} // verus!
