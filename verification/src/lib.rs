//! The decisions of a tiling window manager.
//!
//! Two actors make them. The layout manager ([`layout`]) turns events and commands
//! into operations on a layout tree and keeps track of floating windows. The reactor
//! ([`reactor`]) keeps its picture of the system coherent, passes what happens on to
//! the layout manager, and tells other actors which windows to move, raise and focus.
//!
//! What they work with, the layout tree, the screens and the other actors, is a host
//! behind a [`link`] that records every request and its answer. What an actor does is
//! stated as the requests that it makes, in order, and the state that it is left in,
//! whatever the answers are.

pub mod collections;
pub mod config;
pub mod deeds;
pub mod edges;
pub mod ids;
pub mod layout;
pub mod link;
pub mod messages;
pub mod reactor;
pub mod requests;
pub mod response;
pub mod window_class;
