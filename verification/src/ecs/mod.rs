pub mod entity;
pub mod error;
pub mod loop_stage;
pub mod component_group;
pub mod assembly;
pub mod event;
pub mod system;
pub mod world;
