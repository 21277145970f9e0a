//! The reactor keeps the picture of the system coherent: it takes events from the
//! rest of the system, shares them with the layout manager, and reacts to changes
//! of the layout with requests to the other actors.

pub mod event;
pub mod state;
pub mod screens;
pub mod visible;
pub mod raising;
pub mod discovery;
pub mod placement;
pub mod outcome;
pub mod frames;
pub mod spaces;
pub mod mouse;
pub mod handler;
pub mod course_laws;
pub mod discovery_laws;
pub mod event_laws;
pub mod find_laws;
pub mod frame_laws;
pub mod laws;
pub mod mouse_laws;
pub mod place_laws;
pub mod raise_laws;
pub mod repeat_laws;
pub mod visible_laws;
