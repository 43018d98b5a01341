use vstd::prelude::*;
use crate::ecs::event::{EcsEvent, EventTrait};

verus! {

/// A bit mask that selects any combination of `EngineEvent` variants.
#[derive(Debug, Clone, Copy, PartialEq, Eq, Hash, Structural)]
pub struct EngineEventFlag {
    pub bits: u64,
}

impl EngineEventFlag {
    pub const SHUTDOWN: u64 = 0x01;
    pub const IMMEDIATE_SHUTDOWN: u64 = 0x02;
    pub const READY: u64 = 0x04;
    pub const CONSOLE_COMMAND: u64 = 0x08;
    pub const RENDERER_READY: u64 = 0x10;
    pub const RESIZE_WINDOW: u64 = 0x20;
    pub const RELOAD_SHADERS: u64 = 0x40;
    pub const SPEECH_BUBBLE: u64 = 0x80;
    pub const CURSOR_POSITION: u64 = 0x100;
    pub const MOUSE_INPUT: u64 = 0x200;
    /// Mask that selects every event.
    pub const ALL_EVENTS: u64 = 0xffff_ffff_ffff_ffff;

    /// Creates a mask from its raw bits.
    pub fn new(bits: u64) -> (f: Self)
        ensures
            f.bits == bits,
    {
        EngineEventFlag { bits }
    }

    /// `true` if every bit of `other` is also set in `self`.
    pub open spec fn spec_contains(self, other: EngineEventFlag) -> bool {
        self.bits & other.bits == other.bits
    }

    /// Returns `true` if every bit of `other` is also set in `self`.
    pub fn contains(&self, other: EngineEventFlag) -> (r: bool)
        ensures
            r == self.spec_contains(other),
    {
        self.bits & other.bits == other.bits
    }

    /// The union of two masks.
    pub fn union(&self, other: EngineEventFlag) -> (f: EngineEventFlag)
        ensures
            f.bits == self.bits | other.bits,
    {
        EngineEventFlag { bits: self.bits | other.bits }
    }
}

/// The buttons of a pointing device.
#[derive(Debug, Clone, Copy, PartialEq, Eq, Hash, Structural)]
pub enum MouseButton {
    Left,
    Right,
    Middle,
    Other(u8),
}

/// Whether a button is held down or not.
#[derive(Debug, Clone, Copy, PartialEq, Eq, Hash, Structural)]
pub enum ElementState {
    Pressed,
    Released,
}

/// The events that travel on the engine's event bus.
#[derive(Debug, Clone, PartialEq, Eq)]
pub enum EngineEvent {
    Shutdown,
    ImmediateShutdown,
    Ready,
    RendererReady,
    /// A command line typed into the console, split into its arguments.
    ConsoleCommand(Vec<String>),
    /// The new width and height of the window.
    ResizeWindow(u32, u32),
    ReloadShaders,
    /// Target name, text and lifetime in seconds of a speech bubble.
    SpeechBubble(String, String, u64),
    /// The position of the cursor in screen-space pixel coordinates.
    CursorPosition(u32, u32),
    MouseInput(MouseButton, ElementState),
}

/// The single bit that stands for the variant of an event.
pub open spec fn event_bit(event: EngineEvent) -> u64 {
    match event {
        EngineEvent::Shutdown => 0x01,
        EngineEvent::ImmediateShutdown => 0x02,
        EngineEvent::Ready => 0x04,
        EngineEvent::ConsoleCommand(_) => 0x08,
        EngineEvent::RendererReady => 0x10,
        EngineEvent::ResizeWindow(..) => 0x20,
        EngineEvent::ReloadShaders => 0x40,
        EngineEvent::SpeechBubble(..) => 0x80,
        EngineEvent::CursorPosition(..) => 0x100,
        EngineEvent::MouseInput(..) => 0x200,
    }
}

/// The named mask constant of the event's variant.
pub open spec fn variant_mask(event: EngineEvent) -> u64 {
    match event {
        EngineEvent::Shutdown => EngineEventFlag::SHUTDOWN,
        EngineEvent::ImmediateShutdown => EngineEventFlag::IMMEDIATE_SHUTDOWN,
        EngineEvent::Ready => EngineEventFlag::READY,
        EngineEvent::ConsoleCommand(_) => EngineEventFlag::CONSOLE_COMMAND,
        EngineEvent::RendererReady => EngineEventFlag::RENDERER_READY,
        EngineEvent::ResizeWindow(..) => EngineEventFlag::RESIZE_WINDOW,
        EngineEvent::ReloadShaders => EngineEventFlag::RELOAD_SHADERS,
        EngineEvent::SpeechBubble(..) => EngineEventFlag::SPEECH_BUBBLE,
        EngineEvent::CursorPosition(..) => EngineEventFlag::CURSOR_POSITION,
        EngineEvent::MouseInput(..) => EngineEventFlag::MOUSE_INPUT,
    }
}

/// `true` if two events are of the same variant, whatever their fields.
pub open spec fn same_variant(a: EngineEvent, b: EngineEvent) -> bool {
    ||| a is Shutdown && b is Shutdown
    ||| a is ImmediateShutdown && b is ImmediateShutdown
    ||| a is Ready && b is Ready
    ||| a is ConsoleCommand && b is ConsoleCommand
    ||| a is RendererReady && b is RendererReady
    ||| a is ResizeWindow && b is ResizeWindow
    ||| a is ReloadShaders && b is ReloadShaders
    ||| a is SpeechBubble && b is SpeechBubble
    ||| a is CursorPosition && b is CursorPosition
    ||| a is MouseInput && b is MouseInput
}

/// `true` if the mask `filter` selects the variant of the event.
pub open spec fn event_selected(event: EngineEvent, filter: EngineEventFlag) -> bool {
    filter.bits & event_bit(event) == event_bit(event)
}

/// The foundational event that an engine event stands for, if any.
pub open spec fn engine_ecs_event(event: EngineEvent) -> Option<EcsEvent> {
    match event {
        EngineEvent::Shutdown => Some(EcsEvent::Shutdown),
        EngineEvent::ImmediateShutdown => Some(EcsEvent::ImmediateShutdown),
        EngineEvent::Ready => Some(EcsEvent::Ready),
        _ => None,
    }
}

/// The engine event that stands for a foundational event.
pub open spec fn ecs_engine_event(event: EcsEvent) -> EngineEvent {
    match event {
        EcsEvent::ImmediateShutdown => EngineEvent::ImmediateShutdown,
        EcsEvent::Shutdown => EngineEvent::Shutdown,
        EcsEvent::Ready => EngineEvent::Ready,
    }
}

impl EngineEvent {
    /// Returns the mask with the single bit of this event's variant.
    pub fn flag(&self) -> (f: EngineEventFlag)
        ensures
            f.bits == event_bit(*self),
            f.bits == variant_mask(*self),
    {
        let bits: u64 = match self {
            EngineEvent::Shutdown => EngineEventFlag::SHUTDOWN,
            EngineEvent::ImmediateShutdown => EngineEventFlag::IMMEDIATE_SHUTDOWN,
            EngineEvent::Ready => EngineEventFlag::READY,
            EngineEvent::ConsoleCommand(_) => EngineEventFlag::CONSOLE_COMMAND,
            EngineEvent::RendererReady => EngineEventFlag::RENDERER_READY,
            EngineEvent::ResizeWindow(..) => EngineEventFlag::RESIZE_WINDOW,
            EngineEvent::ReloadShaders => EngineEventFlag::RELOAD_SHADERS,
            EngineEvent::SpeechBubble(..) => EngineEventFlag::SPEECH_BUBBLE,
            EngineEvent::CursorPosition(..) => EngineEventFlag::CURSOR_POSITION,
            EngineEvent::MouseInput(..) => EngineEventFlag::MOUSE_INPUT,
        };
        EngineEventFlag { bits }
    }
}

impl EventTrait for EngineEvent {
    type EventFlag = EngineEventFlag;

    open spec fn spec_ecs_event(&self) -> Option<EcsEvent> {
        engine_ecs_event(*self)
    }

    open spec fn spec_match_filter(&self, filter: EngineEventFlag) -> bool {
        event_selected(*self, filter)
    }

    fn match_filter(&self, filter: EngineEventFlag) -> (r: bool) {
        filter.contains(self.flag())
    }

    fn as_ecs_event(&self) -> (r: Option<EcsEvent>) {
        match self {
            EngineEvent::Shutdown => Some(EcsEvent::Shutdown),
            EngineEvent::ImmediateShutdown => Some(EcsEvent::ImmediateShutdown),
            EngineEvent::Ready => Some(EcsEvent::Ready),
            _ => None,
        }
    }

    proof fn lemma_ecs_round_trip(e: EcsEvent) {
    }
}

impl From<EcsEvent> for EngineEvent {
    fn from(value: EcsEvent) -> (r: EngineEvent) {
        match value {
            EcsEvent::ImmediateShutdown => EngineEvent::ImmediateShutdown,
            EcsEvent::Shutdown => EngineEvent::Shutdown,
            EcsEvent::Ready => EngineEvent::Ready,
        }
    }
}

impl vstd::std_specs::convert::FromSpecImpl<EcsEvent> for EngineEvent {
    open spec fn obeys_from_spec() -> bool {
        true
    }

    open spec fn from_spec(value: EcsEvent) -> EngineEvent {
        ecs_engine_event(value)
    }
}

impl From<EngineEvent> for EngineEventFlag {
    fn from(value: EngineEvent) -> (f: EngineEventFlag) {
        value.flag()
    }
}

impl vstd::std_specs::convert::FromSpecImpl<EngineEvent> for EngineEventFlag {
    open spec fn obeys_from_spec() -> bool {
        true
    }

    open spec fn from_spec(value: EngineEvent) -> EngineEventFlag {
        EngineEventFlag { bits: event_bit(value) }
    }
}

/// Converting a foundational event to an engine event and back gives the foundational event.
pub proof fn lemma_ecs_event_round_trip(event: EcsEvent)
    ensures
        engine_ecs_event(ecs_engine_event(event)) == Some(event),
{
}

/// The bit of each variant is the named mask constant of that variant: the mask of a shutdown
/// is `SHUTDOWN`, that of a speech bubble `SPEECH_BUBBLE`, and so on for every variant.
pub proof fn lemma_event_bit_is_named_mask(event: EngineEvent)
    ensures
        event is Shutdown ==> event_bit(event) == EngineEventFlag::SHUTDOWN,
        event is ImmediateShutdown ==> event_bit(event) == EngineEventFlag::IMMEDIATE_SHUTDOWN,
        event is Ready ==> event_bit(event) == EngineEventFlag::READY,
        event is ConsoleCommand ==> event_bit(event) == EngineEventFlag::CONSOLE_COMMAND,
        event is RendererReady ==> event_bit(event) == EngineEventFlag::RENDERER_READY,
        event is ResizeWindow ==> event_bit(event) == EngineEventFlag::RESIZE_WINDOW,
        event is ReloadShaders ==> event_bit(event) == EngineEventFlag::RELOAD_SHADERS,
        event is SpeechBubble ==> event_bit(event) == EngineEventFlag::SPEECH_BUBBLE,
        event is CursorPosition ==> event_bit(event) == EngineEventFlag::CURSOR_POSITION,
        event is MouseInput ==> event_bit(event) == EngineEventFlag::MOUSE_INPUT,
{
}

proof fn lemma_single_bits(a: u64, b: u64)
    by (bit_vector)
    requires
        a == 0x01 || a == 0x02 || a == 0x04 || a == 0x08 || a == 0x10 || a == 0x20 || a == 0x40
            || a == 0x80 || a == 0x100 || a == 0x200,
        b == 0x01 || b == 0x02 || b == 0x04 || b == 0x08 || b == 0x10 || b == 0x20 || b == 0x40
            || b == 0x80 || b == 0x100 || b == 0x200,
    ensures
        (a & b == b) == (a == b),
        a != 0,
{
}

/// The mask of an event's own variant selects it, and the mask of any other variant does not:
/// a filter made of one variant's mask lets through exactly the events of that variant.
pub proof fn lemma_mask_selects_own_variant_only(event: EngineEvent, other: EngineEvent)
    ensures
        event_selected(event, EngineEventFlag { bits: variant_mask(event) }),
        event_selected(event, EngineEventFlag { bits: variant_mask(other) }) <==> same_variant(
            event,
            other,
        ),
        event_bit(event) != 0,
{
    lemma_single_bits(variant_mask(event), event_bit(event));
    lemma_single_bits(variant_mask(other), event_bit(event));
}

/// The mask `ALL_EVENTS` selects every event.
pub proof fn lemma_all_events_selects_every_event(event: EngineEvent)
    ensures
        event_selected(event, EngineEventFlag { bits: 0xffff_ffff_ffff_ffff }),
{
    let b = event_bit(event);
    assert(0xffff_ffff_ffff_ffffu64 & b == b) by (bit_vector);
}

/// The event that follows a shutdown in the queue of a world of engine events is the immediate
/// shutdown, which stops the next round of event handling.
pub proof fn lemma_shutdown_follow_up(x: EngineEvent)
    requires
        crate::ecs::world::is_immediate_shutdown_event(x),
    ensures
        x == EngineEvent::ImmediateShutdown,
{
}

} // verus!
