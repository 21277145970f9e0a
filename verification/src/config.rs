//! The settings that the actors read.

use vstd::prelude::*;

use crate::ids::{CenterMode, ConfigId, LayoutKind, Real};

verus! {

/// Where a scroll layout puts a new window.
#[derive(Clone, Copy, Debug, PartialEq, Eq, Structural)]
pub enum NewWindowPlacement {
    NewColumn,
    SameColumn,
}

/// The settings of scroll layouts.
#[derive(Debug)]
pub struct ScrollConfig {
    pub enable: bool,
    pub visible_columns: u32,
    pub new_window_in_column: NewWindowPlacement,
    pub infinite_loop: bool,
    pub column_width_presets: Vec<Real>,
    pub center_focused_column: CenterMode,
    pub invert_scroll_direction: bool,
    pub scroll_sensitivity: Real,
}

/// What a [`ScrollConfig`] says.
pub struct ScrollView {
    pub enable: bool,
    pub visible_columns: u32,
    pub new_window_in_column: NewWindowPlacement,
    pub infinite_loop: bool,
    pub column_width_presets: Seq<Real>,
    pub center_focused_column: CenterMode,
    pub invert_scroll_direction: bool,
    pub scroll_sensitivity: Real,
}

impl View for ScrollConfig {
    type V = ScrollView;

    open spec fn view(&self) -> ScrollView {
        ScrollView {
            enable: self.enable,
            visible_columns: self.visible_columns,
            new_window_in_column: self.new_window_in_column,
            infinite_loop: self.infinite_loop,
            column_width_presets: self.column_width_presets@,
            center_focused_column: self.center_focused_column,
            invert_scroll_direction: self.invert_scroll_direction,
            scroll_sensitivity: self.scroll_sensitivity,
        }
    }
}

impl Clone for ScrollConfig {
    fn clone(&self) -> (copy: Self)
        ensures
            copy@ == self@,
    {
        let copy = ScrollConfig {
            enable: self.enable,
            visible_columns: self.visible_columns,
            new_window_in_column: self.new_window_in_column,
            infinite_loop: self.infinite_loop,
            column_width_presets: self.column_width_presets.clone(),
            center_focused_column: self.center_focused_column,
            invert_scroll_direction: self.invert_scroll_direction,
            scroll_sensitivity: self.scroll_sensitivity,
        };
        assert(copy@.column_width_presets =~= self@.column_width_presets);
        copy
    }
}

/// The settings that the actors read.
#[derive(Debug)]
pub struct Config {
    pub id: ConfigId,
    /// The settings of scroll layouts, as they were given.
    pub scroll: ScrollConfig,
    /// The same, brought within what makes sense.
    pub valid_scroll: ScrollConfig,
    pub default_layout_kind: LayoutKind,
    pub inner_gap: Real,
    pub mouse_follows_focus: bool,
    pub animate: bool,
}

} // verus!
