//! An entity-component-system core (`ecs`) and the engine structures built on top of it
//! (`engine`), with their behaviour stated as contracts.
pub mod ecs;
pub mod engine;
