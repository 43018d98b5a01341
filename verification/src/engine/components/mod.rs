pub mod cursor;
pub mod description;
pub mod mesh;
pub mod tooltip;
