pub mod physics;
