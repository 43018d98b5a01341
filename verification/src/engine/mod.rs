pub mod common;
pub mod components;
pub mod debugging;
pub mod event;
pub mod interface;
pub mod orchestrator;
pub mod physics;
pub mod scene_graph;
pub mod singletons;
