use std::time::Duration;
use std::ops::Deref;
use vstd::prelude::*;
use crate::ecs::event::{EcsEvent, EventTrait};
use crate::ecs::loop_stage::{LoopStage, stage_selected};
use crate::ecs::assembly::Assembly;
use crate::ecs::system::{SystemTrait, DispatchEvents};
use crate::ecs::error::EcsError;
use vstd::std_specs::convert::FromSpec;

verus! {

/// The greatest depth of nested immediate dispatches; a chain of immediate events longer than
/// this is cut off (no machine has the stack to follow it this far).
pub const MAX_DISPATCH_DEPTH: u64 = 0xffff_ffff_ffff_ffff;

/// `true` if the queue holds an event that stands for an immediate shutdown.
pub open spec fn holds_immediate_shutdown<E: EventTrait>(queue: Seq<E>) -> bool {
    exists|i: int| 0 <= i < queue.len() && (#[trigger] queue[i]).spec_ecs_event() == Some(EcsEvent::ImmediateShutdown)
}

/// `true` if every system that the stage does not select is the same in both lists.
pub open spec fn unselected_unchanged<E: EventTrait, A, S: SystemTrait<E, A>>(
    stage: LoopStage,
    before: Seq<S>,
    after: Seq<S>,
) -> bool {
    &&& after.len() == before.len()
    &&& forall|i: int|
        0 <= i < before.len() && !stage_selected(stage, (#[trigger] before[i]).spec_loop_stage_filter())
            ==> after[i] == before[i]
}

/// `true` if a system's turn in a render round takes it from `system` to `after` and the
/// auxiliary object from `aux` to `aux_after`: a system that the render stage selects renders,
/// any other system is skipped and leaves both as they are.
pub open spec fn render_turn<E: EventTrait, A, S: SystemTrait<E, A>>(
    system: S,
    after: S,
    entities: Assembly,
    aux: A,
    aux_after: A,
    time: Duration,
    delta_time: Duration,
) -> bool {
    if stage_selected(LoopStage::Render, system.spec_loop_stage_filter()) {
        system.spec_renders(after, entities, aux, aux_after, time, delta_time)
    } else {
        after == system && aux_after == aux
    }
}

/// `true` if the systems take their turns in order, from `before` to `after`, with the auxiliary
/// object passing through `auxs`: `auxs[j]` before the turn of system `j`, `auxs[j + 1]` after it.
pub open spec fn render_trace<E: EventTrait, A, S: SystemTrait<E, A>>(
    before: Seq<S>,
    after: Seq<S>,
    entities: Assembly,
    auxs: Seq<A>,
    time: Duration,
    delta_time: Duration,
) -> bool {
    &&& after.len() == before.len()
    &&& auxs.len() == before.len() + 1
    &&& forall|j: int|
        #![trigger before[j]]
        0 <= j < before.len() ==> render_turn(before[j], after[j], entities, auxs[j], auxs[j + 1], time, delta_time)
}

/// `true` if one render round over the systems `before`, in order, can end with the systems
/// `after` and take the auxiliary object from `aux` to `aux_after`.
pub open spec fn rendered<E: EventTrait, A, S: SystemTrait<E, A>>(
    before: Seq<S>,
    after: Seq<S>,
    entities: Assembly,
    aux: A,
    aux_after: A,
    time: Duration,
    delta_time: Duration,
) -> bool {
    exists|auxs: Seq<A>|
        #[trigger] render_trace(before, after, entities, auxs, time, delta_time) && auxs[0] == aux
            && auxs[before.len() as int] == aux_after
}

/// What the world holds, as far as the systems can change it: the systems, the assembly, the
/// auxiliary object and the queued events.
pub struct WorldState<E, A, S> {
    pub systems: Seq<S>,
    pub assembly: Assembly,
    pub aux: A,
    pub queue: Seq<E>,
}

/// A stage method that the world calls on its systems.
pub enum StageCall<E> {
    Update(Duration, Duration),
    DynamicUpdate(Duration, Duration),
    HandleEvent(E),
}

/// `true` if the world calls the stage method on `system`: the system subscribes to the stage
/// and, for an event, to the event.
pub open spec fn is_called<E: EventTrait, A, S: SystemTrait<E, A>>(call: StageCall<E>, system: S) -> bool {
    match call {
        StageCall::Update(..) => stage_selected(LoopStage::Update, system.spec_loop_stage_filter()),
        StageCall::DynamicUpdate(..) => stage_selected(LoopStage::DynamicUpdate, system.spec_loop_stage_filter()),
        StageCall::HandleEvent(event) => stage_selected(LoopStage::HandleEvent, system.spec_loop_stage_filter())
            && event.spec_match_filter(system.spec_event_filter()),
    }
}

/// `true` if a system's turn takes it from `system` to `after`, the assembly from `entities` to
/// `entities_after` and the auxiliary object from `aux` to `aux_after`, with the result `r`: a
/// called system runs the stage method, any other one changes nothing and returns no events.
pub open spec fn stage_turn<E: EventTrait, A, S: SystemTrait<E, A>>(
    call: StageCall<E>,
    system: S,
    after: S,
    entities: Assembly,
    entities_after: Assembly,
    aux: A,
    aux_after: A,
    r: DispatchEvents<E>,
) -> bool {
    if is_called(call, system) {
        match call {
            StageCall::Update(time, delta_time) => system.spec_updates(
                after, entities, entities_after, aux, aux_after, time, delta_time, r),
            StageCall::DynamicUpdate(time, delta_time) => system.spec_dynamic_updates(
                after, entities, entities_after, aux, aux_after, time, delta_time, r),
            StageCall::HandleEvent(event) => system.spec_handles(
                after, entities, entities_after, aux, aux_after, event, r),
        }
    } else {
        after == system && entities_after == entities && aux_after == aux && r.0 is None && r.1 is None
    }
}

/// The events of an optional list.
pub open spec fn listed<E>(events: Option<Vec<E>>) -> Seq<E> {
    match events {
        Some(v) => v@,
        None => Seq::empty(),
    }
}

/// The events for immediate dispatch in the results, in order.
pub open spec fn immediate_events<E>(rs: Seq<DispatchEvents<E>>) -> Seq<E>
    decreases rs.len(),
{
    if rs.len() == 0 {
        Seq::empty()
    } else {
        immediate_events(rs.drop_last()) + listed(rs.last().0)
    }
}

/// The events for the next loop iteration in the results, in order.
pub open spec fn deferred_events<E>(rs: Seq<DispatchEvents<E>>) -> Seq<E>
    decreases rs.len(),
{
    if rs.len() == 0 {
        Seq::empty()
    } else {
        deferred_events(rs.drop_last()) + listed(rs.last().1)
    }
}

/// `true` if the systems take their turns in order, from `systems` to `systems_after`, with the
/// assembly passing through `assemblies`, the auxiliary object through `auxs` (entry `j` before
/// the turn of system `j`, entry `j + 1` after it) and system `j` returning `rs[j]`.
pub open spec fn stage_trace<E: EventTrait, A, S: SystemTrait<E, A>>(
    call: StageCall<E>,
    systems: Seq<S>,
    systems_after: Seq<S>,
    assemblies: Seq<Assembly>,
    auxs: Seq<A>,
    rs: Seq<DispatchEvents<E>>,
) -> bool {
    &&& systems_after.len() == systems.len()
    &&& assemblies.len() == systems.len() + 1
    &&& auxs.len() == systems.len() + 1
    &&& rs.len() == systems.len()
    &&& forall|j: int|
        #![trigger systems[j]]
        0 <= j < systems.len() ==> stage_turn(call, systems[j], systems_after[j], assemblies[j],
            assemblies[j + 1], auxs[j], auxs[j + 1], rs[j])
}

/// `true` if one pass of the stage method over the systems can take the world from `s` to `t`
/// (the queue stays as it is) and gather the events `now` for immediate dispatch and `later`
/// for the queue.
pub open spec fn stage_pass<E: EventTrait, A, S: SystemTrait<E, A>>(
    call: StageCall<E>,
    s: WorldState<E, A, S>,
    t: WorldState<E, A, S>,
    now: Seq<E>,
    later: Seq<E>,
) -> bool {
    exists|assemblies: Seq<Assembly>, auxs: Seq<A>, rs: Seq<DispatchEvents<E>>|
        #[trigger] stage_trace(call, s.systems, t.systems, assemblies, auxs, rs)
            && assemblies[0] == s.assembly && auxs[0] == s.aux
            && assemblies[s.systems.len() as int] == t.assembly && auxs[s.systems.len() as int] == t.aux
            && t.queue == s.queue && now == immediate_events(rs) && later == deferred_events(rs)
}

/// The state `s` with `events` added to the end of its queue.
pub open spec fn queued<E, A, S>(s: WorldState<E, A, S>, events: Seq<E>) -> WorldState<E, A, S> {
    WorldState { systems: s.systems, assembly: s.assembly, aux: s.aux, queue: s.queue + events }
}

/// `true` if dispatching `event` immediately, with priority events followed at most `depth`
/// levels deep, can take the world from `s` to `t`: the systems that subscribe to it handle it,
/// the priority events they return are dispatched in turn, in order, one level less deep (the
/// world passing through `states`), and the other events they return are queued.
pub open spec fn dispatched<E: EventTrait, A, S: SystemTrait<E, A>>(
    depth: nat,
    event: E,
    s: WorldState<E, A, S>,
    t: WorldState<E, A, S>,
) -> bool
    decreases depth,
{
    if depth == 0 {
        t == s
    } else {
        exists|m: WorldState<E, A, S>, now: Seq<E>, later: Seq<E>, states: Seq<WorldState<E, A, S>>|
            #![trigger stage_pass(StageCall::HandleEvent(event), s, m, now, later), queued(states.last(), later)]
            {
                &&& stage_pass(StageCall::HandleEvent(event), s, m, now, later)
                &&& states.len() == now.len() + 1
                &&& states[0] == m
                &&& forall|j: int|
                    #![trigger now[j]]
                    0 <= j < now.len() ==> dispatched((depth - 1) as nat, now[j], states[j], states[j + 1])
                &&& t == queued(states.last(), later)
            }
    }
}

/// `true` if dispatching `events` immediately, in order, each at most `depth` levels deep, takes
/// the world through `states`: event `j` from `states[j]` to `states[j + 1]`.
pub open spec fn dispatch_chain<E: EventTrait, A, S: SystemTrait<E, A>>(
    depth: nat,
    events: Seq<E>,
    states: Seq<WorldState<E, A, S>>,
) -> bool {
    &&& states.len() == events.len() + 1
    &&& forall|j: int|
        #![trigger events[j]]
        0 <= j < events.len() ==> dispatched(depth, events[j], states[j], states[j + 1])
}

/// `true` if dispatching `events` immediately, in order, each at most `depth` levels deep, can
/// take the world from `s` to `t`.
pub open spec fn all_dispatched<E: EventTrait, A, S: SystemTrait<E, A>>(
    depth: nat,
    events: Seq<E>,
    s: WorldState<E, A, S>,
    t: WorldState<E, A, S>,
) -> bool {
    exists|states: Seq<WorldState<E, A, S>>|
        #[trigger] dispatch_chain(depth, events, states) && states[0] == s && states.last() == t
}

/// `true` if running a stage (fixed-step or variable-step update) can take the world from `s`
/// to `t`: one pass over the systems, then the priority events that they return are dispatched
/// immediately, in order, and the other events are queued.
pub open spec fn stage_run<E: EventTrait, A, S: SystemTrait<E, A>>(
    call: StageCall<E>,
    s: WorldState<E, A, S>,
    t: WorldState<E, A, S>,
) -> bool {
    exists|m: WorldState<E, A, S>, now: Seq<E>, later: Seq<E>, m2: WorldState<E, A, S>|
        #![trigger stage_pass(call, s, m, now, later), all_dispatched(MAX_DISPATCH_DEPTH as nat, now, m, m2)]
        stage_pass(call, s, m, now, later) && all_dispatched(MAX_DISPATCH_DEPTH as nat, now, m, m2)
            && t == queued(m2, later)
}

/// `true` if `event` is what converting an immediate shutdown gives; it stands for an immediate
/// shutdown.
pub open spec fn is_immediate_shutdown_event<E: EventTrait>(event: E) -> bool {
    &&& event == <E as FromSpec<EcsEvent>>::from_spec(EcsEvent::ImmediateShutdown)
    &&& event.spec_ecs_event() == Some(EcsEvent::ImmediateShutdown)
}

/// The state `s` with the queue `queue`.
pub open spec fn with_queue<E, A, S>(s: WorldState<E, A, S>, queue: Seq<E>) -> WorldState<E, A, S> {
    WorldState { systems: s.systems, assembly: s.assembly, aux: s.aux, queue }
}

/// `true` if handling one queued event can take the world from `s` to `t`: the event is
/// dispatched immediately; a shutdown is then followed by a queued immediate shutdown.
pub open spec fn event_handled<E: EventTrait, A, S: SystemTrait<E, A>>(
    event: E,
    s: WorldState<E, A, S>,
    t: WorldState<E, A, S>,
) -> bool {
    if event.spec_ecs_event() == Some(EcsEvent::Shutdown) {
        exists|m: WorldState<E, A, S>, x: E|
            #![trigger queued(m, seq![x])]
            dispatched(MAX_DISPATCH_DEPTH as nat, event, s, m) && is_immediate_shutdown_event(x) && t
                == queued(m, seq![x])
    } else {
        dispatched(MAX_DISPATCH_DEPTH as nat, event, s, t)
    }
}

/// `true` if handling `events` in order takes the world through `states`: event `j` from
/// `states[j]` to `states[j + 1]`.
pub open spec fn handle_chain<E: EventTrait, A, S: SystemTrait<E, A>>(
    events: Seq<E>,
    states: Seq<WorldState<E, A, S>>,
) -> bool {
    &&& states.len() == events.len() + 1
    &&& forall|j: int|
        #![trigger events[j]]
        0 <= j < events.len() ==> event_handled(events[j], states[j], states[j + 1])
}

/// `true` if `k` is the position of the first immediate shutdown in `queue`, or its length if
/// it holds none.
pub open spec fn stops_at<E: EventTrait>(queue: Seq<E>, k: int) -> bool {
    &&& 0 <= k <= queue.len()
    &&& forall|j: int| 0 <= j < k ==> (#[trigger] queue[j]).spec_ecs_event() != Some(EcsEvent::ImmediateShutdown)
    &&& k < queue.len() ==> queue[k].spec_ecs_event() == Some(EcsEvent::ImmediateShutdown)
}

/// `true` if processing the queue `queue` can take the world from `s` (whose own queue is
/// empty) to `t`: the events before the first immediate shutdown are handled in order, and
/// the shutdown and the events after it reach no system.
pub open spec fn queue_handled<E: EventTrait, A, S: SystemTrait<E, A>>(
    queue: Seq<E>,
    s: WorldState<E, A, S>,
    t: WorldState<E, A, S>,
) -> bool {
    exists|k: int, states: Seq<WorldState<E, A, S>>|
        #![trigger stops_at(queue, k), handle_chain(queue.subrange(0, k), states)]
        stops_at(queue, k) && handle_chain(queue.subrange(0, k), states) && states[0] == s
            && states.last() == t
}

/// `true` if a render call can take the world from `s` to `t`: the queue and the assembly stay
/// as they are; when rendering is suspended nothing changes, else one render round runs.
pub open spec fn render_step<E: EventTrait, A, S: SystemTrait<E, A>>(
    suspended: bool,
    s: WorldState<E, A, S>,
    t: WorldState<E, A, S>,
    time: Duration,
    delta_time: Duration,
) -> bool {
    &&& t.queue == s.queue
    &&& t.assembly == s.assembly
    &&& suspended ==> t == s
    &&& !suspended ==> rendered(s.systems, t.systems, s.assembly, s.aux, t.aux, time, delta_time)
}

/// Encapsulates a set of systems, entities and components that describe an abstract universe of
/// data and behaviour.
pub struct World<E: EventTrait, A: Default, S: SystemTrait<E, A>> {
    /// This field stores an arbitrary auxiliary object, that is passed to systems during the
    /// update and event-handling calls.
    pub aux: A,
    /// If this flag is `true`, the `World` will suspend any render calls.
    pub rendering_suspended: bool,
    /// Stores any currently queued events, oldest first.
    event_queue: Vec<E>,
    /// Stores all systems, in the order in which they were added.
    systems: Vec<S>,
    /// The `Assembly` stores entities and their components.
    assembly: Assembly,
}

impl<E: EventTrait, A: Default, S: SystemTrait<E, A>> World<E, A, S> {
    /// The queued events, oldest first.
    pub closed spec fn queue(&self) -> Seq<E> {
        self.event_queue@
    }

    /// The systems, in the order in which they were added.
    pub closed spec fn spec_systems(&self) -> Seq<S> {
        self.systems@
    }

    /// The entities and their components.
    pub closed spec fn spec_assembly(&self) -> Assembly {
        self.assembly
    }

    /// `true` if render calls are suspended.
    pub closed spec fn is_suspended(&self) -> bool {
        self.rendering_suspended
    }

    /// The auxiliary object.
    pub closed spec fn spec_aux(&self) -> A {
        self.aux
    }

    /// The systems, the assembly, the auxiliary object and the queue.
    pub closed spec fn state(&self) -> WorldState<E, A, S> {
        WorldState { systems: self.systems@, assembly: self.assembly, aux: self.aux, queue: self.event_queue@ }
    }

    /// The state holds what the world's other views show.
    pub proof fn lemma_state_views(&self)
        ensures
            self.state().systems == self.spec_systems(),
            self.state().assembly == self.spec_assembly(),
            self.state().aux == self.spec_aux(),
            self.state().queue == self.queue(),
    {
    }

    /// The world is well formed: its assembly is.
    pub open spec fn wf(&self) -> bool {
        self.spec_assembly().wf()
    }

    /// Creates a new, empty instance of `World`.
    pub fn new() -> (w: Self)
        ensures
            w.wf(),
            w.queue() == Seq::<E>::empty(),
            w.spec_systems() == Seq::<S>::empty(),
            w.spec_assembly().entity_ids() == Set::<u64>::empty(),
            w.spec_assembly().next_id() == 0,
            !w.is_suspended(),
    {
        World {
            aux: A::default(),
            rendering_suspended: false,
            event_queue: Vec::new(),
            systems: Vec::new(),
            assembly: Assembly::new(),
        }
    }

    /// Borrows the entities and their components.
    pub fn assembly(&self) -> (a: &Assembly)
        ensures
            *a == self.spec_assembly(),
    {
        &self.assembly
    }

    /// Mutably borrows the entities and their components.
    pub fn assembly_mut(&mut self) -> (a: &mut Assembly)
        ensures
            *a == old(self).spec_assembly(),
            final(self).spec_assembly() == *final(a),
            final(self).queue() == old(self).queue(),
            final(self).spec_systems() == old(self).spec_systems(),
            final(self).is_suspended() == old(self).is_suspended(),
    {
        &mut self.assembly
    }

    /// The systems, in the order in which they were added.
    pub fn systems(&self) -> (r: &[S])
        ensures
            r@ == self.spec_systems(),
    {
        self.systems.as_slice()
    }

    /// Mutably borrows the system at position `i`.
    pub fn system_mut(&mut self, i: usize) -> (r: &mut S)
        requires
            i < old(self).spec_systems().len(),
        ensures
            *r == old(self).spec_systems()[i as int],
            final(self).spec_systems() == old(self).spec_systems().update(i as int, *final(r)),
            final(self).queue() == old(self).queue(),
            final(self).spec_assembly() == old(self).spec_assembly(),
            final(self).spec_aux() == old(self).spec_aux(),
            final(self).is_suspended() == old(self).is_suspended(),
    {
        &mut self.systems[i]
    }

    /// The queued events, oldest first.
    pub fn queued_events(&self) -> (r: &[E])
        ensures
            r@ == self.queue(),
    {
        self.event_queue.as_slice()
    }

    /// Adds a new system to the `World`, if the assembly satisfies its requirements.
    pub fn add_system(&mut self, system: S) -> (r: Result<(), EcsError>)
        ensures
            r is Ok <==> system.spec_requirements_met(old(self).spec_assembly()),
            r is Ok ==> final(self).spec_systems() == old(self).spec_systems().push(system),
            r matches Err(e) ==> e == EcsError::UnsatisfiedRequirements && final(self).spec_systems()
                == old(self).spec_systems(),
            final(self).queue() == old(self).queue(),
            final(self).spec_assembly() == old(self).spec_assembly(),
            final(self).is_suspended() == old(self).is_suspended(),
            final(self).spec_aux() == old(self).spec_aux(),
    {
        if system.verify_requirements(&self.assembly) {
            self.systems.push(system);
            Ok(())
        } else {
            Err(EcsError::UnsatisfiedRequirements)
        }
    }

    /// Sends an event to the queue for later processing.
    pub fn dispatch(&mut self, event: E)
        ensures
            final(self).queue() == old(self).queue().push(event),
            final(self).spec_systems() == old(self).spec_systems(),
            final(self).spec_assembly() == old(self).spec_assembly(),
            final(self).is_suspended() == old(self).is_suspended(),
            final(self).spec_aux() == old(self).spec_aux(),
    {
        self.event_queue.push(event);
    }

    /// Renders the current state of the `World` by calling every system that subscribes to the
    /// render stage, unless rendering is suspended.
    pub fn render(&mut self, time: &Duration, delta_time: &Duration)
        ensures
            final(self).queue() == old(self).queue(),
            final(self).spec_assembly() == old(self).spec_assembly(),
            final(self).is_suspended() == old(self).is_suspended(),
            unselected_unchanged(LoopStage::Render, old(self).spec_systems(), final(self).spec_systems()),
            old(self).is_suspended() ==> final(self).spec_systems() == old(self).spec_systems()
                && final(self).spec_aux() == old(self).spec_aux(),
            !old(self).is_suspended() ==> rendered(
                old(self).spec_systems(),
                final(self).spec_systems(),
                old(self).spec_assembly(),
                old(self).spec_aux(),
                final(self).spec_aux(),
                *time,
                *delta_time,
            ),            render_step(old(self).is_suspended(), old(self).state(), final(self).state(), *time, *delta_time),
    {
        if !self.rendering_suspended {
            let n = self.systems.len();
            let ghost before = self.systems@;
            let ghost queue0 = self.event_queue@;
            let ghost assembly0 = self.assembly;
            let ghost mut auxs: Seq<A> = seq![self.aux];
            let mut i: usize = 0;
            while i < n
                invariant
                    i <= n,
                    self.event_queue@ == queue0,
                    self.assembly == assembly0,
                    !self.rendering_suspended,
                    n == before.len(),
                    self.systems@.len() == n,
                    auxs.len() == i + 1,
                    auxs[0] == old(self).aux,
                    auxs[i as int] == self.aux,
                    before == old(self).systems@,
                    assembly0 == old(self).assembly,
                    forall|j: int| i <= j < n ==> self.systems@[j] == before[j],
                    forall|j: int|
                        0 <= j < i && !stage_selected(LoopStage::Render, (#[trigger] before[j]).spec_loop_stage_filter())
                            ==> self.systems@[j] == before[j],
                    forall|j: int|
                        #![trigger before[j]]
                        0 <= j < i ==> render_turn(before[j], self.systems@[j], assembly0, auxs[j], auxs[j + 1], *time, *delta_time),
                decreases n - i,
            {
                let selected = LoopStage::Render.match_filter(self.systems[i].get_loop_stage_filter());
                if selected {
                    let system = &mut self.systems[i];
                    system.render(&self.assembly, &mut self.aux, time, delta_time);
                }
                proof {
                    auxs = auxs.push(self.aux);
                    assert(render_turn(before[i as int], self.systems@[i as int], assembly0, auxs[i as int], auxs[i + 1], *time, *delta_time));
                }
                i = i + 1;
            }
            proof {
                assert(render_trace(before, self.systems@, assembly0, auxs, *time, *delta_time));
            }
        }
    }

    /// The stage method that `run_update_stage` calls for `stage`.
    pub open spec fn update_call(stage: LoopStage, time: Duration, delta_time: Duration) -> StageCall<E> {
        if stage == LoopStage::Update {
            StageCall::Update(time, delta_time)
        } else {
            StageCall::DynamicUpdate(time, delta_time)
        }
    }

    /// Runs one stage method on every system that subscribes to `stage` (one of `Update` and
    /// `DynamicUpdate`), then dispatches the returned priority events immediately and queues the
    /// others, in the order in which the systems returned them.
    fn run_update_stage(&mut self, stage: LoopStage, time: &Duration, delta_time: &Duration)
        requires
            old(self).wf(),
            stage == LoopStage::Update || stage == LoopStage::DynamicUpdate,
        ensures
            final(self).wf(),
            final(self).queue().len() >= old(self).queue().len(),
            final(self).queue().subrange(0, old(self).queue().len() as int) == old(self).queue(),
            final(self).spec_systems().len() == old(self).spec_systems().len(),
            final(self).is_suspended() == old(self).is_suspended(),
            stage_run(Self::update_call(stage, *time, *delta_time), old(self).state(), final(self).state()),
    {
        let mut priority_events: Vec<E> = Vec::new();
        let mut events: Vec<E> = Vec::new();
        let n = self.systems.len();
        let ghost call = Self::update_call(stage, *time, *delta_time);
        let ghost s0 = self.state();
        let ghost before = self.systems@;
        let ghost queue0 = self.event_queue@;
        let ghost suspended0 = self.rendering_suspended;
        let ghost mut assemblies: Seq<Assembly> = seq![self.assembly];
        let ghost mut auxs: Seq<A> = seq![self.aux];
        let ghost mut rs: Seq<DispatchEvents<E>> = Seq::empty();
        let mut i: usize = 0;
        while i < n
            invariant
                i <= n,
                n == before.len(),
                self.systems@.len() == n,
                self.event_queue@ == queue0,
                self.rendering_suspended == suspended0,
                self.assembly.wf(),
                stage == LoopStage::Update || stage == LoopStage::DynamicUpdate,
                call == Self::update_call(stage, *time, *delta_time),
                s0 == old(self).state(),
                before == s0.systems,
                queue0 == s0.queue,
                assemblies.len() == i + 1,
                auxs.len() == i + 1,
                rs.len() == i,
                assemblies[0] == s0.assembly,
                auxs[0] == s0.aux,
                assemblies[i as int] == self.assembly,
                auxs[i as int] == self.aux,
                forall|j: int| i <= j < n ==> self.systems@[j] == before[j],
                forall|j: int|
                    #![trigger before[j]]
                    0 <= j < i ==> stage_turn(call, before[j], self.systems@[j], assemblies[j],
                        assemblies[j + 1], auxs[j], auxs[j + 1], rs[j]),
                priority_events@ == immediate_events(rs),
                events@ == deferred_events(rs),
            decreases n - i,
        {
            let ghost pre_now = priority_events@;
            let ghost pre_later = events@;
            let ghost mut r: DispatchEvents<E> = (None, None);
            if stage.match_filter(self.systems[i].get_loop_stage_filter()) {
                let system = &mut self.systems[i];
                let returned = match stage {
                    LoopStage::Update => system.update(&mut self.assembly, &mut self.aux, time, delta_time),
                    _ => system.dynamic_update(&mut self.assembly, &mut self.aux, time, delta_time),
                };
                proof { r = returned; }
                let (pe, e) = returned;
                match pe {
                    Some(mut pe) => priority_events.append(&mut pe),
                    None => {},
                }
                match e {
                    Some(mut e) => events.append(&mut e),
                    None => {},
                }
            }
            proof {
                let ghost rs0 = rs;
                rs = rs.push(r);
                assemblies = assemblies.push(self.assembly);
                auxs = auxs.push(self.aux);
                assert(rs.drop_last() =~= rs0);
                assert(priority_events@ =~= immediate_events(rs0) + listed(r.0));
                assert(events@ =~= deferred_events(rs0) + listed(r.1));
                assert(stage_turn(call, before[i as int], self.systems@[i as int], assemblies[i as int],
                    assemblies[i + 1], auxs[i as int], auxs[i + 1], rs[i as int]));
            }
            i = i + 1;
        }
        proof {
            assert(stage_trace(call, before, self.systems@, assemblies, auxs, rs));
            let t = self.state();
            assert(stage_trace(call, s0.systems, t.systems, assemblies, auxs, rs));
            assert(assemblies[0] == s0.assembly && auxs[0] == s0.aux);
            assert(assemblies[s0.systems.len() as int] == t.assembly);
            assert(auxs[s0.systems.len() as int] == t.aux);
            assert(t.queue == s0.queue);
            assert(priority_events@ == immediate_events(rs));
            assert(events@ == deferred_events(rs));
            assert(stage_pass(call, s0, self.state(), priority_events@, events@));
        }
        let ghost m = self.state();
        let ghost now = priority_events@;
        let ghost later = events@;
        self.dispatch_all_immediate(&priority_events, MAX_DISPATCH_DEPTH);
        let ghost m2 = self.state();
        self.event_queue.append(&mut events);
        proof {
            assert(self.event_queue@ =~= m2.queue + later);
            assert(self.state() == queued(m2, later));
        }
    }

    /// Updates the current simulation of the `World` by iterating through all systems that
    /// subscribe to the update call. This update call should be performed at fixed time steps.
    pub fn update(&mut self, time: &Duration, delta_time: &Duration)
        requires
            old(self).wf(),
        ensures
            final(self).wf(),
            final(self).queue().len() >= old(self).queue().len(),
            final(self).queue().subrange(0, old(self).queue().len() as int) == old(self).queue(),
            final(self).spec_systems().len() == old(self).spec_systems().len(),
            final(self).is_suspended() == old(self).is_suspended(),
            stage_run(StageCall::Update(*time, *delta_time), old(self).state(), final(self).state()),
    {
        self.run_update_stage(LoopStage::Update, time, delta_time);
    }

    /// Updates the current simulation of the `World` by iterating through all systems that
    /// subscribe to the dynamic update call. This call should be performed at variable time steps.
    pub fn dynamic_update(&mut self, time: &Duration, delta_time: &Duration)
        requires
            old(self).wf(),
        ensures
            final(self).wf(),
            final(self).queue().len() >= old(self).queue().len(),
            final(self).queue().subrange(0, old(self).queue().len() as int) == old(self).queue(),
            final(self).spec_systems().len() == old(self).spec_systems().len(),
            final(self).is_suspended() == old(self).is_suspended(),
            stage_run(StageCall::DynamicUpdate(*time, *delta_time), old(self).state(), final(self).state()),
    {
        self.run_update_stage(LoopStage::DynamicUpdate, time, delta_time);
    }

    /// Dispatches each of the events immediately, in order.
    fn dispatch_all_immediate(&mut self, events: &Vec<E>, depth: u64)
        requires
            old(self).wf(),
        ensures
            final(self).wf(),
            final(self).queue().len() >= old(self).queue().len(),
            final(self).queue().subrange(0, old(self).queue().len() as int) == old(self).queue(),
            final(self).spec_systems().len() == old(self).spec_systems().len(),
            final(self).is_suspended() == old(self).is_suspended(),
            all_dispatched(depth as nat, events@, old(self).state(), final(self).state()),
        decreases depth, 1nat,
    {
        let ghost queue0 = self.event_queue@;
        let ghost len0 = self.systems@.len();
        let ghost suspended0 = self.rendering_suspended;
        let ghost s0 = self.state();
        let ghost mut states: Seq<WorldState<E, A, S>> = seq![self.state()];
        let mut k: usize = 0;
        while k < events.len()
            invariant
                k <= events.len(),
                self.assembly.wf(),
                self.event_queue@.len() >= queue0.len(),
                self.event_queue@.subrange(0, queue0.len() as int) == queue0,
                self.systems@.len() == len0,
                self.rendering_suspended == suspended0,
                s0 == old(self).state(),
                states.len() == k + 1,
                states[0] == s0,
                states.last() == self.state(),
                forall|j: int|
                    #![trigger events@[j]]
                    0 <= j < k ==> dispatched(depth as nat, events@[j], states[j], states[j + 1]),
            decreases events.len() - k,
        {
            self.dispatch_immediate(&events[k], depth);
            proof {
                states = states.push(self.state());
            }
            k = k + 1;
        }
        proof {
            assert(dispatch_chain(depth as nat, events@, states));
        }
    }

    /// Processes the current event by calling every system that subscribes both to the event
    /// handling stage and to the event. The priority events that the systems return are processed
    /// in turn, at most `depth` levels deep; the others are queued.
    fn dispatch_immediate(&mut self, event: &E, depth: u64)
        requires
            old(self).wf(),
        ensures
            final(self).wf(),
            final(self).queue().len() >= old(self).queue().len(),
            final(self).queue().subrange(0, old(self).queue().len() as int) == old(self).queue(),
            final(self).spec_systems().len() == old(self).spec_systems().len(),
            final(self).is_suspended() == old(self).is_suspended(),
            dispatched(depth as nat, *event, old(self).state(), final(self).state()),
        decreases depth, 0nat,
    {
        if depth == 0 {
            return;
        }
        let mut priority_events: Vec<E> = Vec::new();
        let mut events: Vec<E> = Vec::new();
        let n = self.systems.len();
        let ghost call = StageCall::HandleEvent(*event);
        let ghost s0 = self.state();
        let ghost before = self.systems@;
        let ghost queue0 = self.event_queue@;
        let ghost suspended0 = self.rendering_suspended;
        let ghost mut assemblies: Seq<Assembly> = seq![self.assembly];
        let ghost mut auxs: Seq<A> = seq![self.aux];
        let ghost mut rs: Seq<DispatchEvents<E>> = Seq::empty();
        let mut i: usize = 0;
        while i < n
            invariant
                i <= n,
                n == before.len(),
                self.systems@.len() == n,
                self.event_queue@ == queue0,
                self.rendering_suspended == suspended0,
                self.assembly.wf(),
                call == StageCall::HandleEvent(*event),
                s0 == old(self).state(),
                before == s0.systems,
                queue0 == s0.queue,
                assemblies.len() == i + 1,
                auxs.len() == i + 1,
                rs.len() == i,
                assemblies[0] == s0.assembly,
                auxs[0] == s0.aux,
                assemblies[i as int] == self.assembly,
                auxs[i as int] == self.aux,
                forall|j: int| i <= j < n ==> self.systems@[j] == before[j],
                forall|j: int|
                    #![trigger before[j]]
                    0 <= j < i ==> stage_turn(call, before[j], self.systems@[j], assemblies[j],
                        assemblies[j + 1], auxs[j], auxs[j + 1], rs[j]),
                priority_events@ == immediate_events(rs),
                events@ == deferred_events(rs),
            decreases n - i,
        {
            let ghost mut r: DispatchEvents<E> = (None, None);
            if LoopStage::HandleEvent.match_filter(self.systems[i].get_loop_stage_filter())
                && event.match_filter(self.systems[i].get_event_filter()) {
                let system = &mut self.systems[i];
                let returned = system.handle_event(&mut self.assembly, &mut self.aux, event);
                proof { r = returned; }
                let (pe, e) = returned;
                match pe {
                    Some(mut pe) => priority_events.append(&mut pe),
                    None => {},
                }
                match e {
                    Some(mut e) => events.append(&mut e),
                    None => {},
                }
            }
            proof {
                let ghost rs0 = rs;
                rs = rs.push(r);
                assemblies = assemblies.push(self.assembly);
                auxs = auxs.push(self.aux);
                assert(rs.drop_last() =~= rs0);
                assert(priority_events@ =~= immediate_events(rs0) + listed(r.0));
                assert(events@ =~= deferred_events(rs0) + listed(r.1));
                assert(stage_turn(call, before[i as int], self.systems@[i as int], assemblies[i as int],
                    assemblies[i + 1], auxs[i as int], auxs[i + 1], rs[i as int]));
            }
            i = i + 1;
        }
        proof {
            assert(stage_trace(call, before, self.systems@, assemblies, auxs, rs));
            let t = self.state();
            assert(stage_trace(call, s0.systems, t.systems, assemblies, auxs, rs));
            assert(assemblies[0] == s0.assembly && auxs[0] == s0.aux);
            assert(assemblies[s0.systems.len() as int] == t.assembly);
            assert(auxs[s0.systems.len() as int] == t.aux);
            assert(t.queue == s0.queue);
            assert(priority_events@ == immediate_events(rs));
            assert(events@ == deferred_events(rs));
            assert(stage_pass(call, s0, self.state(), priority_events@, events@));
        }
        let ghost m = self.state();
        let ghost now = priority_events@;
        let ghost later = events@;
        self.dispatch_all_immediate(&priority_events, depth - 1);
        let ghost m2 = self.state();
        self.event_queue.append(&mut events);
        proof {
            assert(self.event_queue@ =~= m2.queue + later);
            assert(self.state() == queued(m2, later));
            let states = choose|states: Seq<WorldState<E, A, S>>|
                #[trigger] dispatch_chain((depth - 1) as nat, now, states) && states[0] == m && states.last() == m2;
            assert(dispatch_chain((depth - 1) as nat, now, states));
            assert(self.state() == queued(states.last(), later));
            assert(forall|j: int|
                #![trigger now[j]]
                0 <= j < now.len() ==> dispatched((depth - 1) as nat, now[j], states[j], states[j + 1]));
        }
    }

    /// Processes every queued event, oldest first: each event is dispatched to the systems that
    /// subscribe to it. A shutdown event is dispatched and followed by a queued immediate
    /// shutdown; an immediate shutdown stops the processing. Returns `false` if an immediate
    /// shutdown was queued, `true` otherwise.
    pub fn handle_events(&mut self) -> (r: bool)
        requires
            old(self).wf(),
        ensures
            final(self).wf(),
            r == !holds_immediate_shutdown(old(self).queue()),
            final(self).spec_systems().len() == old(self).spec_systems().len(),
            final(self).is_suspended() == old(self).is_suspended(),
            queue_handled(old(self).queue(), with_queue(old(self).state(), Seq::empty()), final(self).state()),
    {
        let mut events: Vec<E> = Vec::new();
        std::mem::swap(&mut events, &mut self.event_queue);
        let ghost s0 = self.state();
        let ghost mut states: Seq<WorldState<E, A, S>> = seq![self.state()];
        proof {
            assert(s0 == with_queue(old(self).state(), Seq::empty()));
        }
        let mut k: usize = 0;
        while k < events.len()
            invariant
                k <= events.len(),
                self.assembly.wf(),
                self.systems@.len() == old(self).systems@.len(),
                self.rendering_suspended == old(self).rendering_suspended,
                events@ == old(self).event_queue@,
                forall|j: int| 0 <= j < k ==> (#[trigger] events@[j]).spec_ecs_event()
                    != Some(EcsEvent::ImmediateShutdown),
                s0 == with_queue(old(self).state(), Seq::empty()),
                states.len() == k + 1,
                states[0] == s0,
                states.last() == self.state(),
                forall|j: int|
                    #![trigger events@[j]]
                    0 <= j < k ==> event_handled(events@[j], states[j], states[j + 1]),
            decreases events.len() - k,
        {
            match events[k].as_ecs_event() {
                Some(EcsEvent::ImmediateShutdown) => {
                    proof {
                        assert(stops_at(events@, k as int));
                        assert(handle_chain(events@.subrange(0, k as int), states));
                    }
                    return false;
                },
                Some(EcsEvent::Shutdown) => {
                    self.dispatch_immediate(&events[k], MAX_DISPATCH_DEPTH);
                    let ghost m = self.state();
                    proof {
                        E::lemma_ecs_round_trip(EcsEvent::ImmediateShutdown);
                    }
                    let x = E::from(EcsEvent::ImmediateShutdown);
                    let ghost xg = x;
                    self.dispatch(x);
                    proof {
                        assert(self.event_queue@ =~= m.queue + seq![xg]);
                        assert(self.state() == queued(m, seq![xg]));
                        assert(event_handled(events@[k as int], states[k as int], self.state()));
                    }
                },
                _ => {
                    self.dispatch_immediate(&events[k], MAX_DISPATCH_DEPTH);
                },
            }
            proof {
                states = states.push(self.state());
            }
            k = k + 1;
        }
        proof {
            assert(stops_at(events@, k as int));
            assert(events@.subrange(0, k as int) =~= events@);
            assert(handle_chain(events@.subrange(0, k as int), states));
        }
        true
    }
}

impl<E: EventTrait, A: Default, S: SystemTrait<E, A>> Default for World<E, A, S> {
    /// Creates a new, empty instance of `World`.
    fn default() -> (w: Self)
        ensures
            w.wf(),
            w.queue() == Seq::<E>::empty(),
            w.spec_systems() == Seq::<S>::empty(),
            w.spec_assembly().entity_ids() == Set::<u64>::empty(),
            w.spec_assembly().next_id() == 0,
            !w.is_suspended(),
    {
        World::new()
    }
}

impl<E: EventTrait, A: Default, S: SystemTrait<E, A>> Deref for World<E, A, S> {
    type Target = Assembly;

    /// Gives access to the entities and their components.
    fn deref(&self) -> (a: &Assembly)
        ensures
            *a == self.spec_assembly(),
    {
        &self.assembly
    }
}

/// Once an immediate shutdown is queued, the next round of event handling stops: a queue that
/// ends with such an event holds one, whatever came before it.
pub proof fn lemma_queued_immediate_shutdown_stops<E: EventTrait>(queue: Seq<E>, event: E)
    requires
        event.spec_ecs_event() == Some(EcsEvent::ImmediateShutdown),
    ensures
        holds_immediate_shutdown(queue.push(event)),
{
    assert(queue.push(event)[queue.len() as int] == event);
}

/// A round of event handling that finds only a shutdown leaves an immediate shutdown queued, so
/// the next round stops.
pub proof fn lemma_shutdown_stops_next_round<E: EventTrait, A, S: SystemTrait<E, A>>(
    queue: Seq<E>,
    s: WorldState<E, A, S>,
    t: WorldState<E, A, S>,
)
    requires
        queue.len() == 1,
        queue[0].spec_ecs_event() == Some(EcsEvent::Shutdown),
        queue_handled(queue, s, t),
    ensures
        holds_immediate_shutdown(t.queue),
{
    let (k, states) = choose|k: int, states: Seq<WorldState<E, A, S>>|
        stops_at(queue, k) && handle_chain(queue.subrange(0, k), states) && states[0] == s && states.last() == t;
    assert(k == 1);
    let q = queue.subrange(0, 1);
    assert(q[0] == queue[0]);
    assert(event_handled(q[0], states[0], states[1]));
    let (m, x) = choose|m: WorldState<E, A, S>, x: E|
        dispatched(MAX_DISPATCH_DEPTH as nat, q[0], states[0], m) && is_immediate_shutdown_event(x) && states[1]
            == queued(m, seq![x]);
    assert(t.queue[t.queue.len() - 1] == x);
}

/// Queueing an event that is no immediate shutdown does not make the queue hold one.
pub proof fn lemma_other_events_do_not_stop<E: EventTrait>(queue: Seq<E>, event: E)
    requires
        event.spec_ecs_event() != Some(EcsEvent::ImmediateShutdown),
    ensures
        holds_immediate_shutdown(queue.push(event)) == holds_immediate_shutdown(queue),
{
    let q = queue.push(event);
    if holds_immediate_shutdown(q) {
        let i = choose|i: int| 0 <= i < q.len() && (#[trigger] q[i]).spec_ecs_event() == Some(EcsEvent::ImmediateShutdown);
        assert(queue[i] == q[i]);
    }
    if holds_immediate_shutdown(queue) {
        let i = choose|i: int| 0 <= i < queue.len() && (#[trigger] queue[i]).spec_ecs_event() == Some(EcsEvent::ImmediateShutdown);
        assert(q[i] == queue[i]);
    }
}

} // verus!
