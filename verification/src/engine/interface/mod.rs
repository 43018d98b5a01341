pub mod ui_styles;
