use vstd::prelude::*;
use crate::ecs::component_group::ComponentTrait;

verus! {

/// The `TooltipData` component allows objects to display information about themselves upon
/// hovering the mouse cursor over the object in 3-space.
#[derive(Clone, Debug, PartialEq, Eq)]
pub struct TooltipData {
    /// The text shown by the tooltip.
    pub text: String,
}

impl TooltipData {
    /// Creates a new `TooltipData` component.
    pub fn new(text: &str) -> (t: Self)
        ensures
            t.text@ == text@,
    {
        TooltipData { text: text.to_owned() }
    }
}

impl ComponentTrait for TooltipData {}

} // verus!
