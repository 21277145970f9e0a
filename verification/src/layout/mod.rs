//! The layout manager.

pub mod command_laws;
pub mod commands;
pub mod conversion;
pub mod drag_laws;
pub mod event_laws;
pub mod events;
pub mod floating;
pub mod frame_laws;
pub mod gate_laws;
pub mod grip_laws;
pub mod index_laws;
pub mod interactive;
pub mod kind_laws;
pub mod laws;
pub mod move_laws;
pub mod resize_laws;
pub mod saved;
pub mod scroll;
pub mod scroll_laws;
pub mod show_laws;
pub mod state;
pub mod traversal;
pub mod tree_model;
pub mod update_laws;
pub mod viewport;
pub mod viewport_laws;
pub mod wheel_laws;
