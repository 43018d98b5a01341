use std::time::Duration;
use vstd::prelude::*;
use crate::ecs::assembly::Assembly;
use crate::ecs::loop_stage::LoopStageFlag;
use crate::ecs::system::{DispatchEvents, SystemTrait};
use crate::engine::event::{EngineEvent, EngineEventFlag};

verus! {

/// Defines a system that watches all events on the bus and leaves them as they are.
#[derive(Debug, Clone, Copy, Default)]
pub struct EventMonitor;

impl EventMonitor {
    /// Creates a new `EventMonitor` instance.
    pub fn new() -> (m: Self) {
        EventMonitor
    }
}

impl<A> SystemTrait<EngineEvent, A> for EventMonitor {
    open spec fn spec_requirements_met(&self, entities: Assembly) -> bool {
        true
    }

    open spec fn spec_loop_stage_filter(&self) -> LoopStageFlag {
        LoopStageFlag { bits: LoopStageFlag::HANDLE_EVENT }
    }

    open spec fn spec_event_filter(&self) -> EngineEventFlag {
        EngineEventFlag { bits: EngineEventFlag::ALL_EVENTS }
    }

    /// Handling an event changes nothing and returns no events.
    open spec fn spec_handles(
        &self,
        after: Self,
        entities: Assembly,
        entities_after: Assembly,
        aux: A,
        aux_after: A,
        event: EngineEvent,
        r: DispatchEvents<EngineEvent>,
    ) -> bool {
        after == *self && entities_after == entities && aux_after == aux && r.0 is None && r.1 is None
    }

    /// Updating changes nothing and returns no events.
    open spec fn spec_updates(
        &self,
        after: Self,
        entities: Assembly,
        entities_after: Assembly,
        aux: A,
        aux_after: A,
        time: Duration,
        delta_time: Duration,
        r: DispatchEvents<EngineEvent>,
    ) -> bool {
        after == *self && entities_after == entities && aux_after == aux && r.0 is None && r.1 is None
    }

    /// Updating changes nothing and returns no events.
    open spec fn spec_dynamic_updates(
        &self,
        after: Self,
        entities: Assembly,
        entities_after: Assembly,
        aux: A,
        aux_after: A,
        time: Duration,
        delta_time: Duration,
        r: DispatchEvents<EngineEvent>,
    ) -> bool {
        after == *self && entities_after == entities && aux_after == aux && r.0 is None && r.1 is None
    }

    /// Rendering leaves the system and the auxiliary object as they are.
    open spec fn spec_renders(
        &self,
        after: Self,
        entities: Assembly,
        aux: A,
        aux_after: A,
        time: Duration,
        delta_time: Duration,
    ) -> bool {
        after == *self && aux_after == aux
    }

    fn verify_requirements(&self, entities: &Assembly) -> (r: bool) {
        true
    }

    fn get_loop_stage_filter(&self) -> (f: LoopStageFlag) {
        LoopStageFlag::new(LoopStageFlag::HANDLE_EVENT)
    }

    fn get_event_filter(&self) -> (f: EngineEventFlag) {
        EngineEventFlag::new(EngineEventFlag::ALL_EVENTS)
    }

    fn handle_event(&mut self, entities: &mut Assembly, aux: &mut A, event: &EngineEvent) -> (r:
        DispatchEvents<EngineEvent>)
        ensures
            r.0 is None && r.1 is None,
    {
        (None, None)
    }

    fn update(
        &mut self,
        entities: &mut Assembly,
        aux: &mut A,
        time: &Duration,
        delta_time: &Duration,
    ) -> (r: DispatchEvents<EngineEvent>)
        ensures
            r.0 is None && r.1 is None,
    {
        (None, None)
    }

    fn dynamic_update(
        &mut self,
        entities: &mut Assembly,
        aux: &mut A,
        time: &Duration,
        delta_time: &Duration,
    ) -> (r: DispatchEvents<EngineEvent>)
        ensures
            r.0 is None && r.1 is None,
    {
        (None, None)
    }

    fn render(&mut self, entities: &Assembly, aux: &mut A, time: &Duration, delta_time: &Duration) {
    }
}

} // verus!
