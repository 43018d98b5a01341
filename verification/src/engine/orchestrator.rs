use std::time::Duration;
use vstd::prelude::*;
use crate::ecs::system::SystemTrait;
use crate::ecs::world::{World, WorldState, StageCall, stage_run, render_step, holds_immediate_shutdown, queue_handled, with_queue};
use crate::engine::event::EngineEvent;

verus! {

/// Calls `Duration::from_nanos`: the span of `nanos` nanoseconds. Verus sees nothing inside a
/// `Duration`, so nothing is stated.
#[verifier::external_body]
fn duration_from_nanos(nanos: u64) -> Duration {
    Duration::from_nanos(nanos)
}

/// The fixed time step clock of the game loop; all times in nanoseconds.
#[derive(Debug, Clone, Copy, PartialEq, Eq, Structural)]
pub struct FrameClock {
    /// The fixed time interval of the simulation.
    pub delta_time: u64,
    /// The maximum duration of a single frame.
    pub max_frame_time: u64,
    /// The simulated time so far.
    pub game_time: u64,
    /// Time that has passed but was not yet simulated.
    pub accumulator: u64,
}

impl FrameClock {
    /// `true` if the clock can run: a positive time step and less than one step accumulated.
    pub open spec fn wf(self) -> bool {
        &&& self.delta_time > 0
        &&& self.accumulator < self.delta_time
    }

    /// Creates a clock at time zero.
    pub fn new(delta_time: u64, max_frame_time: u64) -> (c: Self)
        ensures
            c == (FrameClock { delta_time, max_frame_time, game_time: 0, accumulator: 0 }),
    {
        FrameClock { delta_time, max_frame_time, game_time: 0, accumulator: 0 }
    }
}

/// The length of a frame that took `elapsed`, capped at `max_frame_time`.
pub open spec fn frame_time(clock: FrameClock, elapsed: u64) -> int {
    if elapsed < clock.max_frame_time {
        elapsed as int
    } else {
        clock.max_frame_time as int
    }
}

/// The number of whole time steps that a frame that took `elapsed` allows.
pub open spec fn steps_for(clock: FrameClock, elapsed: u64) -> int {
    (clock.accumulator + frame_time(clock, elapsed)) / clock.delta_time as int
}

/// `true` if the world goes through `states`, one fixed-step update per entry of `times`: update
/// `j` runs at game time `times[j]` with the time step `delta` and takes the world from
/// `states[j]` to `states[j + 1]`.
pub open spec fn update_chain<A, S: SystemTrait<EngineEvent, A>>(
    states: Seq<WorldState<EngineEvent, A, S>>,
    times: Seq<Duration>,
    delta: Duration,
) -> bool {
    &&& states.len() == times.len() + 1
    &&& forall|j: int|
        #![trigger times[j]]
        0 <= j < times.len() ==> stage_run(StageCall::Update(times[j], delta), states[j], states[j + 1])
}

/// `true` if a frame of `steps` fixed-step updates followed by a render call can take the world
/// from `s` to `r` (`suspended` tells whether rendering is suspended).
pub open spec fn frame_run<A, S: SystemTrait<EngineEvent, A>>(
    steps: nat,
    suspended: bool,
    s: WorldState<EngineEvent, A, S>,
    r: WorldState<EngineEvent, A, S>,
) -> bool {
    exists|states: Seq<WorldState<EngineEvent, A, S>>, times: Seq<Duration>, delta: Duration, render_time: Duration|
        #![trigger update_chain(states, times, delta), render_step(suspended, states.last(), r, render_time, delta)]
        times.len() == steps && states[0] == s && update_chain(states, times, delta) && render_step(
            suspended,
            states.last(),
            r,
            render_time,
            delta,
        )
}

/// The `Orchestrator` owns the `World` and manages time (and the game loop).
pub struct Orchestrator<A: Default, S: SystemTrait<EngineEvent, A>> {
    /// Holds an instance of the `World`.
    pub world: World<EngineEvent, A, S>,
    /// If `true`, activate debugging functionality.
    pub debug: bool,
    /// Specifies the path to the resource tree.
    pub resource_path: String,
    /// The clock of the fixed time step game loop.
    pub clock: FrameClock,
}

impl<A: Default, S: SystemTrait<EngineEvent, A>> Orchestrator<A, S> {
    /// Creates a new instance of the `Orchestrator` with an empty world; times in nanoseconds.
    pub fn new(resource_path: &str, delta_time: u64, max_frame_time: u64, debug: bool) -> (o: Self)
        ensures
            o.world.wf(),
            o.world.queue() == Seq::<EngineEvent>::empty(),
            o.debug == debug,
            o.resource_path@ == resource_path@,
            o.clock == (FrameClock { delta_time, max_frame_time, game_time: 0, accumulator: 0 }),
    {
        Orchestrator {
            world: World::new(),
            debug,
            resource_path: resource_path.to_owned(),
            clock: FrameClock::new(delta_time, max_frame_time),
        }
    }

    /// Starts the game: sends the `Ready` event.
    pub fn start(&mut self)
        ensures
            final(self).world.queue() == old(self).world.queue().push(EngineEvent::Ready),
            final(self).world.spec_assembly() == old(self).world.spec_assembly(),
            final(self).clock == old(self).clock,
    {
        self.world.dispatch(EngineEvent::Ready);
    }

    /// Runs one iteration of the game loop for a frame that took `elapsed` nanoseconds: the
    /// frame time, capped at the maximum, is added to the accumulator, the world is updated once
    /// per whole time step (at the game time of each step), rendered, and its events are
    /// handled. Returns `false` once the world asks to stop.
    pub fn tick(&mut self, elapsed: u64) -> (running: bool)
        requires
            old(self).world.wf(),
            old(self).clock.wf(),
            old(self).clock.game_time + old(self).clock.accumulator + old(self).clock.max_frame_time
                <= u64::MAX,
        ensures
            final(self).world.wf(),
            final(self).clock.wf(),
            final(self).clock.delta_time == old(self).clock.delta_time,
            final(self).clock.max_frame_time == old(self).clock.max_frame_time,
            final(self).clock.game_time == old(self).clock.game_time + steps_for(old(self).clock, elapsed)
                * old(self).clock.delta_time,
            final(self).clock.accumulator == (old(self).clock.accumulator + frame_time(
                old(self).clock,
                elapsed,
            )) % old(self).clock.delta_time as int,
            final(self).debug == old(self).debug,
            final(self).resource_path == old(self).resource_path,
            exists|r: WorldState<EngineEvent, A, S>|
                #[trigger] frame_run(steps_for(old(self).clock, elapsed) as nat, old(self).world.is_suspended(), old(self).world.state(), r)
                    && running == !holds_immediate_shutdown(r.queue)
                    && queue_handled(r.queue, with_queue(r, Seq::empty()), final(self).world.state()),
    {
        let frame = if elapsed < self.clock.max_frame_time {
            elapsed
        } else {
            self.clock.max_frame_time
        };
        let ghost start = self.clock;
        self.clock.accumulator = self.clock.accumulator + frame;
        let delta = duration_from_nanos(self.clock.delta_time);
        let ghost mut steps: int = 0;
        let ghost mut states: Seq<WorldState<EngineEvent, A, S>> = seq![self.world.state()];
        let ghost mut times: Seq<Duration> = Seq::empty();
        while self.clock.accumulator >= self.clock.delta_time
            invariant
                self.world.wf(),
                self.clock.delta_time == start.delta_time > 0,
                self.clock.max_frame_time == start.max_frame_time,
                self.clock.game_time + self.clock.accumulator == start.game_time + start.accumulator
                    + frame,
                self.clock.game_time == start.game_time + steps * start.delta_time,
                steps >= 0,
                start.game_time + start.accumulator + start.max_frame_time <= u64::MAX,
                frame <= start.max_frame_time,
                self.debug == old(self).debug,
                self.resource_path == old(self).resource_path,
                times.len() == steps,
                states[0] == old(self).world.state(),
                states.last() == self.world.state(),
                update_chain(states, times, delta),
                self.world.is_suspended() == old(self).world.is_suspended(),
            decreases self.clock.accumulator,
        {
            let game_time = duration_from_nanos(self.clock.game_time);
            self.world.update(&game_time, &delta);
            self.clock.game_time = self.clock.game_time + self.clock.delta_time;
            self.clock.accumulator = self.clock.accumulator - self.clock.delta_time;
            proof {
                assert((steps + 1) * start.delta_time == steps * start.delta_time + start.delta_time)
                    by (nonlinear_arith);
                steps = steps + 1;
                states = states.push(self.world.state());
                times = times.push(game_time);
                assert(update_chain(states, times, delta));
            }
        }
        proof {
            let total = start.accumulator + frame;
            let k = steps;
            assert(total == k * start.delta_time + self.clock.accumulator);
            vstd::arithmetic::div_mod::lemma_fundamental_div_mod_converse(
                total,
                start.delta_time as int,
                k,
                self.clock.accumulator as int,
            );
        }
        let game_time = duration_from_nanos(self.clock.game_time);
        self.world.render(&game_time, &delta);
        let ghost r = self.world.state();
        proof {
            self.world.lemma_state_views();
            assert(frame_run(steps as nat, old(self).world.is_suspended(), old(self).world.state(), r));
            assert(steps == steps_for(old(self).clock, elapsed));
        }
        let running = self.world.handle_events();
        proof {
            assert(running == !holds_immediate_shutdown(r.queue));
            assert(queue_handled(r.queue, with_queue(r, Seq::empty()), self.world.state()));
        }
        running
    }
}

} // verus!
