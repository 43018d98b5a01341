use rootspace::ecs::loop_stage::{LoopStage, LoopStageFlag};

#[test]
fn test_from() {
    let lsf: LoopStageFlag = LoopStage::HandleEvent.into();
    assert!(lsf == LoopStageFlag::new(LoopStageFlag::HANDLE_EVENT));
    let lsf: LoopStageFlag = LoopStage::Update.into();
    assert!(lsf == LoopStageFlag::new(LoopStageFlag::UPDATE));
    let lsf: LoopStageFlag = LoopStage::DynamicUpdate.into();
    assert!(lsf == LoopStageFlag::new(LoopStageFlag::DYNAMIC_UPDATE));
    let lsf: LoopStageFlag = LoopStage::Render.into();
    assert!(lsf == LoopStageFlag::new(LoopStageFlag::RENDER));
}

#[test]
fn test_match_filter() {
    assert!(LoopStage::HandleEvent.match_filter(LoopStageFlag::new(LoopStageFlag::HANDLE_EVENT)));
    assert!(LoopStage::Update.match_filter(LoopStageFlag::new(LoopStageFlag::UPDATE)));
    assert!(LoopStage::DynamicUpdate.match_filter(LoopStageFlag::new(LoopStageFlag::DYNAMIC_UPDATE)));
    assert!(LoopStage::Render.match_filter(LoopStageFlag::new(LoopStageFlag::RENDER)));

    for ls in &[
        LoopStage::HandleEvent,
        LoopStage::Update,
        LoopStage::DynamicUpdate,
        LoopStage::Render,
    ] {
        assert!(ls.match_filter(LoopStageFlag::new(LoopStageFlag::ALL_STAGES)));
    }
}

#[test]
fn a_stage_bit_selects_no_other_stage() {
    assert!(!LoopStage::HandleEvent.match_filter(LoopStageFlag::new(LoopStageFlag::UPDATE)));
    assert!(!LoopStage::Render.match_filter(LoopStageFlag::new(LoopStageFlag::DYNAMIC_UPDATE)));
    assert!(!LoopStage::Update.match_filter(LoopStageFlag::new(0)));
    let both = LoopStageFlag::new(LoopStageFlag::UPDATE).union(LoopStageFlag::new(LoopStageFlag::RENDER));
    assert_eq!(both.bits, 0b1010);
    assert!(LoopStage::Update.match_filter(both));
    assert!(LoopStage::Render.match_filter(both));
    assert!(!LoopStage::HandleEvent.match_filter(both));
    assert!(both.contains(LoopStageFlag::new(LoopStageFlag::RENDER)));
}
