//! The state of the layout manager.

use vstd::prelude::*;

use crate::collections::{Key, VecMap, VecSet};
use crate::config::{ScrollConfig, ScrollView};
use crate::edges::ResizeEdge;
use crate::ids::{LayoutId, LayoutKind, NodeId, Point, SpaceId, WindowId};

verus! {

/// A floating window that is on screen in a space, noted for an application.
#[derive(Clone, Copy, Debug, PartialEq, Eq, Structural)]
pub struct ActiveFloat {
    pub space: SpaceId,
    pub pid: i32,
    pub wid: WindowId,
}

impl Key for ActiveFloat {
    fn same(&self, other: &ActiveFloat) -> (same: bool) {
        *self == *other
    }
}

/// A resize that the mouse is at.
#[derive(Clone, Copy, Debug, PartialEq, Eq, Structural)]
pub struct InteractiveScrollResize {
    pub column_node: NodeId,
    pub window_node: NodeId,
    pub edges: ResizeEdge,
    pub last_mouse: Point,
}

/// A move that the mouse is at.
#[derive(Clone, Copy, Debug, PartialEq, Eq, Structural)]
pub struct InteractiveScrollMove {
    pub layout_id: LayoutId,
    pub window_id: WindowId,
    pub window_node: NodeId,
    pub start_mouse: Point,
    pub drag_active: bool,
}

/// The layout manager: the event-driven layer between the reactor and the layout
/// tree. It receives commands and events, turns them into operations on the tree,
/// and keeps track of floating windows.
pub struct LayoutManager {
    /// The active layout of each space that was exposed.
    pub layout_mapping: VecMap<SpaceId, LayoutId>,
    pub floating_windows: VecSet<WindowId>,
    pub active_floating_windows: VecSet<ActiveFloat>,
    pub focused_window: Option<WindowId>,
    /// Last window focused in floating mode.
    pub last_floating_focus: Option<WindowId>,
    /// The layouts that have a viewport.
    pub viewports: VecSet<LayoutId>,
    pub default_layout_kind: LayoutKind,
    pub scroll_cfg: ScrollConfig,
    pub scroll_enabled: bool,
    pub interactive_resize: Option<InteractiveScrollResize>,
    pub interactive_move: Option<InteractiveScrollMove>,
}

/// What a [`LayoutManager`] knows.
pub struct State {
    pub spaces: Map<SpaceId, LayoutId>,
    pub floating: Seq<WindowId>,
    pub active_floating: Seq<ActiveFloat>,
    pub focused: Option<WindowId>,
    pub last_floating: Option<WindowId>,
    pub viewports: Seq<LayoutId>,
    pub default_kind: LayoutKind,
    pub scroll: ScrollView,
    pub scroll_enabled: bool,
    pub resizing: Option<InteractiveScrollResize>,
    pub moving: Option<InteractiveScrollMove>,
}

impl View for LayoutManager {
    type V = State;

    open spec fn view(&self) -> State {
        State {
            spaces: self.layout_mapping@,
            floating: self.floating_windows@,
            active_floating: self.active_floating_windows@,
            focused: self.focused_window,
            last_floating: self.last_floating_focus,
            viewports: self.viewports@,
            default_kind: self.default_layout_kind,
            scroll: self.scroll_cfg@,
            scroll_enabled: self.scroll_enabled,
            resizing: self.interactive_resize,
            moving: self.interactive_move,
        }
    }
}

impl State {
    /// Whether the focused window floats.
    pub open spec fn is_floating(self) -> bool {
        match self.focused {
            Some(wid) => self.floating.contains(wid),
            None => false,
        }
    }
}

/// The state of a layout manager that has heard of nothing yet.
pub open spec fn fresh(scroll: ScrollView) -> State {
    State {
        spaces: Map::empty(),
        floating: Seq::empty(),
        active_floating: Seq::empty(),
        focused: None,
        last_floating: None,
        viewports: Seq::empty(),
        default_kind: LayoutKind::Tree,
        scroll,
        scroll_enabled: false,
        resizing: None,
        moving: None,
    }
}

impl LayoutManager {
    /// A layout manager that has heard of nothing yet. Scroll layouts are off until
    /// a configuration turns them on.
    pub fn new(scroll_cfg: ScrollConfig) -> (manager: Self)
        ensures
            manager@ == fresh(scroll_cfg@),
    {
        LayoutManager {
            layout_mapping: VecMap::new(),
            floating_windows: VecSet::new(),
            active_floating_windows: VecSet::new(),
            focused_window: None,
            last_floating_focus: None,
            viewports: VecSet::new(),
            default_layout_kind: LayoutKind::Tree,
            scroll_cfg,
            scroll_enabled: false,
            interactive_resize: None,
            interactive_move: None,
        }
    }

    /// Whether the focused window floats.
    pub fn is_floating(&self) -> (floating: bool)
        ensures
            floating == self@.is_floating(),
    {
        match self.focused_window {
            Some(wid) => self.floating_windows.contains(wid),
            None => false,
        }
    }

    /// The active layout of `space`, if it was ever exposed.
    pub fn try_layout(&self, space: SpaceId) -> (layout: Option<LayoutId>)
        ensures
            layout == if self@.spaces.contains_key(space) {
                Some(self@.spaces[space])
            } else {
                None
            },
    {
        match self.layout_mapping.get(space) {
            Some(layout) => Some(*layout),
            None => None,
        }
    }

    /// The active layout of a space that was exposed.
    pub fn layout(&self, space: SpaceId) -> (layout: LayoutId)
        requires
            self@.spaces.contains_key(space),
        ensures
            layout == self@.spaces[space],
    {
        *self.layout_mapping.get(space).unwrap()
    }
}

} // verus!
