pub mod convex_hull;
pub mod file_manipulation;
pub mod forest;
pub mod half_edge_mesh;
pub mod hierarchy;
pub mod merge_sort;
pub mod physics;
pub mod resource_group;
pub mod text_rendering;
pub mod ui_element;
pub mod ui_primitive;
pub mod ui_styles;
