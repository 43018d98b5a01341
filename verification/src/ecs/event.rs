use vstd::prelude::*;
use vstd::std_specs::convert::FromSpec;

verus! {

/// `EcsEvent` defines a set of foundational events that will cause `World` to do different
/// things, independent of the actual events later used by the engine.
#[derive(Debug, Clone, Copy, PartialEq, Eq, Structural)]
pub enum EcsEvent {
    Shutdown,
    ImmediateShutdown,
    Ready,
}

/// Every engine event must implement the trait `EventTrait`, as some events must be converted to
/// `EcsEvent`s for `World` to interact properly with the engine.
pub trait EventTrait: Sized + Clone + From<EcsEvent> {
    /// Specifies a type (ex. bitflags) that may select multiple events.
    type EventFlag;

    /// The foundational event that this event stands for, if any.
    spec fn spec_ecs_event(&self) -> Option<EcsEvent>;

    /// `true` if the filter selects the current enum variant.
    spec fn spec_match_filter(&self, filter: Self::EventFlag) -> bool;

    /// Returns true if the specified filter selects the current enum variant.
    fn match_filter(&self, filter: Self::EventFlag) -> (r: bool)
        ensures
            r == self.spec_match_filter(filter),
    ;

    /// Attempts to convert to a `EcsEvent`.
    fn as_ecs_event(&self) -> (r: Option<EcsEvent>)
        ensures
            r == self.spec_ecs_event(),
    ;

    /// Converting a foundational event gives what the conversion's specification states, and
    /// the event made stands for the foundational event it was made from.
    proof fn lemma_ecs_round_trip(e: EcsEvent)
        ensures
            <Self as FromSpec<EcsEvent>>::obeys_from_spec(),
            <Self as FromSpec<EcsEvent>>::from_spec(e).spec_ecs_event() == Some(e),
    ;
}

} // verus!
