pub mod debug_shell;
pub mod event_monitor;
