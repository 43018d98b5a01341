use vstd::prelude::*;

verus! {

/// A bit mask that selects any combination of `LoopStage`s.
#[derive(Debug, Clone, Copy, PartialEq, Eq, Hash, Structural)]
pub struct LoopStageFlag {
    pub bits: u8,
}

impl LoopStageFlag {
    /// Bit that selects `LoopStage::HandleEvent`.
    pub const HANDLE_EVENT: u8 = 0b0001;
    /// Bit that selects `LoopStage::Update`.
    pub const UPDATE: u8 = 0b0010;
    /// Bit that selects `LoopStage::DynamicUpdate`.
    pub const DYNAMIC_UPDATE: u8 = 0b0100;
    /// Bit that selects `LoopStage::Render`.
    pub const RENDER: u8 = 0b1000;
    /// Mask that selects every stage.
    pub const ALL_STAGES: u8 = 0xff;

    /// Creates a mask from its raw bits.
    pub fn new(bits: u8) -> (f: Self)
        ensures
            f.bits == bits,
    {
        LoopStageFlag { bits }
    }

    /// `true` if every bit of `other` is also set in `self`.
    pub open spec fn spec_contains(self, other: LoopStageFlag) -> bool {
        self.bits & other.bits == other.bits
    }

    /// Returns `true` if every bit of `other` is also set in `self`.
    pub fn contains(&self, other: LoopStageFlag) -> (r: bool)
        ensures
            r == self.spec_contains(other),
    {
        self.bits & other.bits == other.bits
    }

    /// The union of two masks.
    pub fn union(&self, other: LoopStageFlag) -> (f: LoopStageFlag)
        ensures
            f.bits == self.bits | other.bits,
    {
        LoopStageFlag { bits: self.bits | other.bits }
    }
}

/// The `LoopStage` encodes all stages where `World` will issue calls to all systems. Each enum
/// variant corresponds to a method bound to the `SystemTrait`.
#[derive(Debug, Clone, Copy, PartialEq, Eq, Structural)]
pub enum LoopStage {
    HandleEvent,
    Update,
    DynamicUpdate,
    Render,
}

/// The single bit that stands for a loop stage.
pub open spec fn stage_bit(stage: LoopStage) -> u8 {
    match stage {
        LoopStage::HandleEvent => 0b0001,
        LoopStage::Update => 0b0010,
        LoopStage::DynamicUpdate => 0b0100,
        LoopStage::Render => 0b1000,
    }
}

/// `true` if the mask `filter` selects the stage.
pub open spec fn stage_selected(stage: LoopStage, filter: LoopStageFlag) -> bool {
    filter.bits & stage_bit(stage) == stage_bit(stage)
}

impl LoopStage {
    /// Returns `true` if the supplied bitmask filter selects the current enum variant.
    pub fn match_filter(&self, filter: LoopStageFlag) -> (r: bool)
        ensures
            r == stage_selected(*self, filter),
    {
        filter.contains(LoopStageFlag::from(*self))
    }
}

impl From<LoopStage> for LoopStageFlag {
    fn from(value: LoopStage) -> (f: LoopStageFlag) {
        match value {
            LoopStage::HandleEvent => LoopStageFlag { bits: LoopStageFlag::HANDLE_EVENT },
            LoopStage::Update => LoopStageFlag { bits: LoopStageFlag::UPDATE },
            LoopStage::DynamicUpdate => LoopStageFlag { bits: LoopStageFlag::DYNAMIC_UPDATE },
            LoopStage::Render => LoopStageFlag { bits: LoopStageFlag::RENDER },
        }
    }
}

impl vstd::std_specs::convert::FromSpecImpl<LoopStage> for LoopStageFlag {
    open spec fn obeys_from_spec() -> bool {
        true
    }

    open spec fn from_spec(value: LoopStage) -> LoopStageFlag {
        LoopStageFlag { bits: stage_bit(value) }
    }
}

/// The stage selected by every mask that has all bits set: `ALL_STAGES` selects every stage.
pub proof fn lemma_all_stages_selects_every_stage(stage: LoopStage)
    ensures
        stage_selected(stage, LoopStageFlag { bits: 0xff }),
{
    let b = stage_bit(stage);
    assert(0xffu8 & b == b) by (bit_vector);
}

/// A stage's own bit selects that stage and no other.
pub proof fn lemma_stage_bit_selects_only_itself(stage: LoopStage, other: LoopStage)
    ensures
        stage_selected(stage, LoopStageFlag { bits: stage_bit(other) }) <==> stage == other,
{
    let a = stage_bit(stage);
    let b = stage_bit(other);
    assert(1u8 & 2u8 != 2u8 && 1u8 & 4u8 != 4u8 && 1u8 & 8u8 != 8u8) by (bit_vector);
    assert(2u8 & 1u8 != 1u8 && 2u8 & 4u8 != 4u8 && 2u8 & 8u8 != 8u8) by (bit_vector);
    assert(4u8 & 1u8 != 1u8 && 4u8 & 2u8 != 2u8 && 4u8 & 8u8 != 8u8) by (bit_vector);
    assert(8u8 & 1u8 != 1u8 && 8u8 & 2u8 != 2u8 && 8u8 & 4u8 != 4u8) by (bit_vector);
    assert(1u8 & 1u8 == 1u8 && 2u8 & 2u8 == 2u8 && 4u8 & 4u8 == 4u8 && 8u8 & 8u8 == 8u8) by (bit_vector);
}

} // verus!
