//! Changing a layout from one kind into another.

use vstd::prelude::*;

use crate::config::{Config, ScrollConfig};
use crate::ids::{LayoutId, LayoutKind, SpaceId, WindowId};
use crate::layout::state::{LayoutManager, State};
use crate::layout::traversal::{lemma_named_stays, window_questions, windows_at, windows_named};
use crate::link::{answer, ask, ask_each, grew, LayoutHost, Link, Log, Req};
use crate::collections::{lists, without};

verus! {

/// The windows of the old layout are moved to the new one, one after the other.
///
/// In a scroll layout each gets a column of its own; in a tree each goes behind
/// the selection.
pub open spec fn moved_over(
    l: Log,
    windows: Seq<WindowId>,
    layout: LayoutId,
    kind: LayoutKind,
    visible_columns: u32,
    l2: Log,
) -> bool
    decreases windows.len(),
{
    if windows.len() == 0 {
        l2 == l
    } else {
        let n = l2.len();
        let wid = windows.last();
        match kind {
            LayoutKind::Scroll => {
                let before = l2.take(n - 2);
                let t = ask(before, l2, Req::RemoveWindow(wid));
                &&& n >= 2
                &&& moved_over(l, windows.drop_last(), layout, kind, visible_columns, before)
                &&& l2 == ask(
                    t,
                    l2,
                    Req::AddWindowToScrollColumn(layout, wid, true, visible_columns),
                )
            },
            LayoutKind::Tree => {
                let before = l2.take(n - 3);
                let t = ask(before, l2, Req::RemoveWindow(wid));
                let t = ask(t, l2, Req::Selection(layout));
                &&& n >= 3
                &&& moved_over(l, windows.drop_last(), layout, kind, visible_columns, before)
                &&& l2 == ask(t, l2, Req::AddWindowAfter(layout, answer(t)->Node_0, wid))
            },
        }
    }
}

/// A new layout takes over the windows of an old one and selects the wanted one.
pub open spec fn taken_over(
    l: Log,
    windows: Seq<WindowId>,
    layout: LayoutId,
    kind: LayoutKind,
    visible_columns: u32,
    wanted: Option<WindowId>,
    l2: Log,
) -> bool {
    exists|t: Log| #[trigger]
        moved_over(l, windows, layout, kind, visible_columns, t) && match wanted {
            None => l2 == t,
            Some(wid) => {
                let t1 = ask(t, l2, Req::WindowNode(layout, wid));
                match answer(t1)->MaybeNode_0 {
                    None => l2 == t1,
                    Some(node) => l2 == ask(t1, l2, Req::Select(node)),
                }
            },
        }
}

/// A layout is turned into one of another kind: a new layout is made, takes over
/// the windows of the old one, and selects the focused window or else the one
/// that was selected. A layout that has the wanted kind is left alone.
pub open spec fn converted(
    l: Log,
    visible_columns: u32,
    focused: Option<WindowId>,
    layout: LayoutId,
    kind: LayoutKind,
    l2: Log,
    new_layout: LayoutId,
) -> bool {
    let t0 = ask(l, l2, Req::LayoutKind(layout));
    if answer(t0)->Kind_0 == kind {
        l2 == t0 && new_layout == layout
    } else {
        let t1 = ask(t0, l2, Req::Selection(layout));
        let t2 = ask(t1, l2, Req::WindowAt(answer(t1)->Node_0));
        let t3 = ask(t2, l2, Req::Root(layout));
        let t4 = ask(t3, l2, Req::TraversePostorder(answer(t3)->Node_0));
        let nodes = answer(t4)->Nodes_0;
        let asked = ask_each(t4, l2, window_questions(nodes));
        let t5 = ask(
            asked,
            l2,
            match kind {
                LayoutKind::Tree => Req::CreateLayout,
                LayoutKind::Scroll => Req::CreateScrollLayout,
            },
        );
        let wanted = if focused is Some {
            focused
        } else {
            answer(t2)->MaybeWindow_0
        };
        &&& new_layout == answer(t5)->Layout_0
        &&& taken_over(
            t5,
            windows_named(l2, t4.len() as int, nodes.len()),
            new_layout,
            kind,
            visible_columns,
            wanted,
            l2,
        )
    }
}

/// Moves windows to a new layout, one after the other.
fn move_windows<H: LayoutHost>(
    link: &mut Link<H>,
    windows: &Vec<WindowId>,
    layout: LayoutId,
    kind: LayoutKind,
    visible_columns: u32,
)
    ensures
        moved_over(
            old(link).log(),
            windows@,
            layout,
            kind,
            visible_columns,
            final(link).log(),
        ),
        grew(old(link).log(), final(link).log()),
{
    let ghost l = link.log();
    let mut i: usize = 0;
    assert(windows@.take(0) == Seq::<WindowId>::empty());
    while i < windows.len()
        invariant
            i <= windows@.len(),
            moved_over(
                l,
                windows@.take(i as int),
                layout,
                kind,
                visible_columns,
                link.log(),
            ),
            grew(l, link.log()),
        decreases windows@.len() - i,
    {
        let wid = windows[i];
        let ghost before = link.log();
        link.remove_window(wid);
        match kind {
            LayoutKind::Scroll => {
                link.add_window_to_scroll_column(layout, wid, true, visible_columns);
                assert(link.log().take(link.log().len() - 2) == before);
            },
            LayoutKind::Tree => {
                let sel = link.selection(layout);
                let _ = link.add_window_after(layout, sel, wid);
                assert(link.log().take(link.log().len() - 3) == before);
            },
        }
        assert(windows@.take(i + 1).drop_last() == windows@.take(i as int));
        i += 1;
    }
    assert(windows@.take(i as int) == windows@);
}

/// Moves windows to a new layout and selects the wanted one there.
fn take_over<H: LayoutHost>(
    link: &mut Link<H>,
    windows: &Vec<WindowId>,
    layout: LayoutId,
    kind: LayoutKind,
    visible_columns: u32,
    wanted: Option<WindowId>,
)
    ensures
        taken_over(
            old(link).log(),
            windows@,
            layout,
            kind,
            visible_columns,
            wanted,
            final(link).log(),
        ),
        grew(old(link).log(), final(link).log()),
{
    let ghost l = link.log();
    move_windows(link, windows, layout, kind, visible_columns);
    let ghost t = link.log();
    if let Some(wid) = wanted {
        if let Some(node) = link.window_node(layout, wid) {
            link.select(node);
        }
    }
    assert(moved_over(l, windows@, layout, kind, visible_columns, t));
}

/// Turns `layout` into a layout of another kind. Returns the layout to use.
pub fn convert_layout_kind<H: LayoutHost>(
    link: &mut Link<H>,
    scroll_cfg: &ScrollConfig,
    focused_window: Option<WindowId>,
    layout: LayoutId,
    new_kind: LayoutKind,
) -> (new_layout: LayoutId)
    ensures
        converted(
            old(link).log(),
            scroll_cfg@.visible_columns,
            focused_window,
            layout,
            new_kind,
            final(link).log(),
            new_layout,
        ),
        grew(old(link).log(), final(link).log()),
{
    if link.layout_kind(layout) == new_kind {
        return layout;
    }
    let selection = link.selection(layout);
    let selected_window = link.window_at(selection);
    let root = link.root(layout);
    let nodes = link.traverse_postorder(root);
    let ghost t4 = link.log();
    let windows = windows_at(link, &nodes);
    let ghost asked = link.log();
    let new_layout = match new_kind {
        LayoutKind::Tree => link.create_layout(),
        LayoutKind::Scroll => link.create_scroll_layout(),
    };
    let ghost t5 = link.log();
    let visible_columns = scroll_cfg.visible_columns;
    let wanted = match focused_window {
        Some(wid) => Some(wid),
        None => selected_window,
    };
    take_over(link, &windows, new_layout, new_kind, visible_columns, wanted);
    proof {
        lemma_named_stays(asked, link.log(), t4.len() as int, nodes@.len());
        assert(grew(asked, t5));
        assert(ask_each(t4, link.log(), window_questions(nodes@)) =~= asked);
    }
    new_layout
}

/// The viewport of a layout, if it has one, is forgotten.
pub open spec fn viewport_forgotten(s: State, l: Log, layout: LayoutId, s2: State, l2: Log) -> bool {
    &&& s2 == State { viewports: without(s.viewports, layout), ..s }
    &&& l2 == if s.viewports.contains(layout) {
        ask(l, l2, Req::CloseViewport(layout))
    } else {
        l
    }
}

/// The active layout of `space` gives way to `new_layout`, and its viewport goes.
pub open spec fn active_replaced(
    s: State,
    l: Log,
    space: SpaceId,
    layout: LayoutId,
    new_layout: LayoutId,
    s2: State,
    l2: Log,
) -> bool {
    let t = ask(l, l2, Req::ReplaceActiveLayout(space, new_layout));
    viewport_forgotten(
        State { spaces: s.spaces.insert(space, answer(t)->Layout_0), ..s },
        t,
        layout,
        s2,
        l2,
    )
}

/// The active layout of `space` is turned into one of kind `kind`.
pub open spec fn active_converted(
    s: State,
    l: Log,
    space: SpaceId,
    kind: LayoutKind,
    s2: State,
    l2: Log,
) -> bool {
    let layout = s.spaces[space];
    exists|t: Log, new_layout: LayoutId|
        {
            &&& #[trigger] converted(
                l,
                s.scroll.visible_columns,
                s.focused,
                layout,
                kind,
                t,
                new_layout,
            )
            &&& active_replaced(s, t, space, layout, new_layout, s2, l2)
        }
}

/// While scroll layouts are off, a space whose active layout is one is given a
/// tree layout instead. Otherwise nothing happens.
pub open spec fn kind_allowed(s: State, l: Log, space: SpaceId, s2: State, l2: Log) -> bool {
    if s.scroll_enabled || !s.spaces.contains_key(space) {
        s2 == s && l2 == l
    } else {
        let t = ask(l, l2, Req::IsScrollLayout(s.spaces[space]));
        if answer(t)->Flag_0 {
            active_converted(s, t, space, LayoutKind::Tree, s2, l2)
        } else {
            s2 == s && l2 == t
        }
    }
}

/// The same for several spaces, one after the other.
pub open spec fn kinds_allowed(s: State, l: Log, spaces: Seq<SpaceId>, s2: State, l2: Log) -> bool
    decreases spaces.len(),
{
    if spaces.len() == 0 {
        s2 == s && l2 == l
    } else {
        exists|m: State, t: Log|
            kinds_allowed(s, l, spaces.drop_last(), m, t) && #[trigger] kind_allowed(
                m,
                t,
                spaces.last(),
                s2,
                l2,
            )
    }
}

/// What a configuration does to the settings: a default of scroll layouts counts
/// only while scroll layouts are on.
pub open spec fn configured(s: State, config: Config) -> State {
    State {
        scroll: config.valid_scroll@,
        scroll_enabled: config.valid_scroll.enable,
        default_kind: if config.valid_scroll.enable {
            config.default_layout_kind
        } else {
            LayoutKind::Tree
        },
        ..s
    }
}

/// A configuration is taken over. Where it turns scroll layouts off, every space
/// is brought in line.
pub open spec fn config_set(s: State, l: Log, config: Config, s2: State, l2: Log) -> bool {
    let s1 = configured(s, config);
    if config.valid_scroll.enable {
        s2 == s1 && l2 == l
    } else {
        exists|spaces: Seq<SpaceId>| #[trigger]
            lists(spaces, s.spaces) && kinds_allowed(s1, l, spaces, s2, l2)
    }
}

impl LayoutManager {
    pub(crate) fn forget_viewport<H: LayoutHost>(&mut self, link: &mut Link<H>, layout: LayoutId)
        ensures
            viewport_forgotten(
                old(self)@,
                old(link).log(),
                layout,
                final(self)@,
                final(link).log(),
            ),
            grew(old(link).log(), final(link).log()),
    {
        if self.viewports.contains(layout) {
            link.close_viewport(layout);
        }
        self.viewports.remove(layout);
    }

    pub(crate) fn replace_active<H: LayoutHost>(
        &mut self,
        link: &mut Link<H>,
        space: SpaceId,
        layout: LayoutId,
        new_layout: LayoutId,
    )
        ensures
            active_replaced(
                old(self)@,
                old(link).log(),
                space,
                layout,
                new_layout,
                final(self)@,
                final(link).log(),
            ),
            grew(old(link).log(), final(link).log()),
    {
        let active = link.replace_active_layout(space, new_layout);
        self.layout_mapping.insert(space, active);
        self.forget_viewport(link, layout);
    }

    /// Turns the active layout of a space into one of another kind.
    pub(crate) fn convert_active<H: LayoutHost>(
        &mut self,
        link: &mut Link<H>,
        space: SpaceId,
        kind: LayoutKind,
    )
        requires
            old(self)@.spaces.contains_key(space),
        ensures
            active_converted(
                old(self)@,
                old(link).log(),
                space,
                kind,
                final(self)@,
                final(link).log(),
            ),
            grew(old(link).log(), final(link).log()),
    {
        let layout = self.layout(space);
        let new_layout = convert_layout_kind(
            link,
            &self.scroll_cfg,
            self.focused_window,
            layout,
            kind,
        );
        self.replace_active(link, space, layout, new_layout);
    }

    /// Gives `space` a tree layout where it has a scroll layout and those are off.
    pub fn ensure_layout_kind_allowed_for_space<H: LayoutHost>(
        &mut self,
        link: &mut Link<H>,
        space: SpaceId,
    )
        ensures
            kind_allowed(old(self)@, old(link).log(), space, final(self)@, final(link).log()),
            grew(old(link).log(), final(link).log()),
    {
        if self.scroll_enabled {
            return;
        }
        if let Some(layout) = self.try_layout(space) {
            if link.is_scroll_layout(layout) {
                self.convert_active(link, space, LayoutKind::Tree);
            }
        }
    }

    /// Brings every space in line with the setting that turns scroll layouts off.
    pub fn convert_active_scroll_layouts_to_tree<H: LayoutHost>(&mut self, link: &mut Link<H>)
        ensures
            exists|spaces: Seq<SpaceId>| #[trigger]
                lists(spaces, old(self)@.spaces) && kinds_allowed(
                    old(self)@,
                    old(link).log(),
                    spaces,
                    final(self)@,
                    final(link).log(),
                ),
            grew(old(link).log(), final(link).log()),
    {
        let spaces = self.layout_mapping.keys();
        let ghost s = self@;
        assert(lists(spaces@, s.spaces));
        let ghost l = link.log();
        let mut i: usize = 0;
        assert(spaces@.take(0) == Seq::<SpaceId>::empty());
        while i < spaces.len()
            invariant
                i <= spaces@.len(),
                kinds_allowed(s, l, spaces@.take(i as int), self@, link.log()),
                grew(l, link.log()),
            decreases spaces@.len() - i,
        {
            let ghost m = self@;
            let ghost t = link.log();
            self.ensure_layout_kind_allowed_for_space(link, spaces[i]);
            proof {
                assert(spaces@.take(i + 1).drop_last() == spaces@.take(i as int));
                assert(kind_allowed(m, t, spaces@.take(i + 1).last(), self@, link.log()));
            }
            i += 1;
        }
        assert(spaces@.take(i as int) == spaces@);
    }

    /// Takes a configuration over.
    pub fn set_config<H: LayoutHost>(&mut self, link: &mut Link<H>, config: &Config)
        ensures
            config_set(old(self)@, old(link).log(), *config, final(self)@, final(link).log()),
            grew(old(link).log(), final(link).log()),
    {
        self.scroll_cfg = config.valid_scroll.clone();
        self.scroll_enabled = config.valid_scroll.enable;
        self.default_layout_kind = match (self.scroll_enabled, config.default_layout_kind) {
            (false, LayoutKind::Scroll) => LayoutKind::Tree,
            (_, kind) => kind,
        };
        if !self.scroll_enabled {
            self.convert_active_scroll_layouts_to_tree(link);
        }
    }
}

} // verus!
