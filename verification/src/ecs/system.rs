use std::time::Duration;
use vstd::prelude::*;
use crate::ecs::event::EventTrait;
use crate::ecs::loop_stage::LoopStageFlag;
use crate::ecs::assembly::Assembly;

verus! {

/// Describes the return signature of functions that may dispatch new events. The first element
/// contains events that shall be dispatched immediately, and events in the second element
/// shall be dispatched in the next loop iteration.
pub type DispatchEvents<E> = (Option<Vec<E>>, Option<Vec<E>>);

/// Every system encodes behaviour. `World` calls a system's stage methods only for the stages
/// that the system's loop stage filter selects.
pub trait SystemTrait<E: EventTrait, A>: Sized {
    /// `true` if the assembly satisfies the requirements of the system.
    spec fn spec_requirements_met(&self, entities: Assembly) -> bool;

    /// The loop stages that the system subscribes to.
    spec fn spec_loop_stage_filter(&self) -> LoopStageFlag;

    /// The events that the system subscribes to.
    spec fn spec_event_filter(&self) -> E::EventFlag;

    /// `true` if handling `event` may take the system from `self` to `after`, the assembly from
    /// `entities` to `entities_after` and the auxiliary object from `aux` to `aux_after`, and
    /// return `r`.
    spec fn spec_handles(
        &self,
        after: Self,
        entities: Assembly,
        entities_after: Assembly,
        aux: A,
        aux_after: A,
        event: E,
        r: DispatchEvents<E>,
    ) -> bool;

    /// `true` if a fixed-step update may take the system, the assembly and the auxiliary
    /// object from the first to the second of each pair of values, and return `r`.
    spec fn spec_updates(
        &self,
        after: Self,
        entities: Assembly,
        entities_after: Assembly,
        aux: A,
        aux_after: A,
        time: Duration,
        delta_time: Duration,
        r: DispatchEvents<E>,
    ) -> bool;

    /// `true` if a variable-step update may take the system, the assembly and the auxiliary
    /// object from the first to the second of each pair of values, and return `r`.
    spec fn spec_dynamic_updates(
        &self,
        after: Self,
        entities: Assembly,
        entities_after: Assembly,
        aux: A,
        aux_after: A,
        time: Duration,
        delta_time: Duration,
        r: DispatchEvents<E>,
    ) -> bool;

    /// `true` if a render call may take the system from `self` to `after` and the auxiliary
    /// object from `aux` to `aux_after`.
    spec fn spec_renders(
        &self,
        after: Self,
        entities: Assembly,
        aux: A,
        aux_after: A,
        time: Duration,
        delta_time: Duration,
    ) -> bool;

    /// Returns `true` if the supplied assembly satisfies the requirements of the current system.
    /// Can be used to require components or specific sets of them.
    fn verify_requirements(&self, entities: &Assembly) -> (r: bool)
        ensures
            r == self.spec_requirements_met(*entities),
    ;

    /// Returns a bitmask that corresponds to a combination of `LoopStage`s. Based on that value,
    /// `World` will thus regularly call the other methods.
    fn get_loop_stage_filter(&self) -> (f: LoopStageFlag)
        ensures
            f == self.spec_loop_stage_filter(),
    ;

    /// Returns a bitmask that corresponds to a combination of events. Based on that value, `World`
    /// will call `handle_event` only with the selected events.
    fn get_event_filter(&self) -> (f: E::EventFlag)
        ensures
            f == self.spec_event_filter(),
    ;

    /// Processes events received by the `World`, and in turn, by the engine. May optionally return
    /// two sets of events; the first of which will be dispatched immediately, while the second set
    /// will be handled in the next main loop iteration.
    fn handle_event(&mut self, entities: &mut Assembly, aux: &mut A, event: &E) -> (r: DispatchEvents<E>)
        requires
            old(entities).wf(),
        ensures
            final(entities).wf(),
            old(self).spec_handles(*final(self), *old(entities), *final(entities), *old(aux), *final(aux), *event, r),
    ;

    /// Updates the game simulation at a fixed time step. May optionally return two sets of
    /// events, as `handle_event` does.
    fn update(
        &mut self,
        entities: &mut Assembly,
        aux: &mut A,
        time: &Duration,
        delta_time: &Duration,
    ) -> (r: DispatchEvents<E>)
        requires
            old(entities).wf(),
        ensures
            final(entities).wf(),            old(self).spec_updates(
                *final(self),
                *old(entities),
                *final(entities),
                *old(aux),
                *final(aux),
                *time,
                *delta_time,
                r,
            ),
    ;

    /// Updates the game simulation at a variable time step. May optionally return two sets of
    /// events, as `handle_event` does.
    fn dynamic_update(
        &mut self,
        entities: &mut Assembly,
        aux: &mut A,
        time: &Duration,
        delta_time: &Duration,
    ) -> (r: DispatchEvents<E>)
        requires
            old(entities).wf(),
        ensures
            final(entities).wf(),            old(self).spec_dynamic_updates(
                *final(self),
                *old(entities),
                *final(entities),
                *old(aux),
                *final(aux),
                *time,
                *delta_time,
                r,
            ),
    ;

    /// Renders the `World` state.
    fn render(&mut self, entities: &Assembly, aux: &mut A, time: &Duration, delta_time: &Duration)
        ensures
            old(self).spec_renders(*final(self), *entities, *old(aux), *final(aux), *time, *delta_time),
    ;
}

} // verus!
