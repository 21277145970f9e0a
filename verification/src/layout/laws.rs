//! What holds of the layout manager over several events and commands.

use vstd::prelude::*;

use crate::collections::{lemma_filter_each_once, lemma_without, lists, without};
use crate::config::Config;
use crate::edges::ResizeEdge;
use crate::ids::{
    ContainerKind, Direction, Frame, LayoutId, LayoutKind, NodeId, Point, Real, SpaceId, WindowId,
};
use crate::layout::commands::{
    command_handled, index_changed, layout_away, layout_selected, neighbour, one_focused, other_kind,
    scroll_questions, tabs_toggled, tree_layout_found, LayoutCommand,
};
use crate::layout::conversion::{
    active_replaced, config_set, configured, converted, kind_allowed, kinds_allowed, moved_over,
    taken_over,
};
use crate::layout::events::{asked_for, event_handled, info_of, sorted, LayoutEventView};
use crate::layout::floating::{float_added, floats_added};
use crate::layout::interactive::{edges_hit, window_hit};
use crate::layout::saved::selection_told;
use crate::layout::scroll::{steps_walked, walk_direction, walked, wheel_handled};
use crate::layout::state::{ActiveFloat, State};
use crate::layout::viewport::{in_motion, viewport_followed};
use crate::layout::traversal::{window_questions, windows_named};
use crate::layout::tree_model::{acts_as_tree, is_tree, Tree};
use crate::link::{answer, ask, ask_each, asked_until, grew, Log, Req};
use crate::response::{nothing, windows_of, Response};
use crate::window_class::{class_of, WindowClass, WindowInfoView};

verus! {

/// Every space that was exposed still is.
pub open spec fn keeps_spaces(s: State, s2: State) -> bool {
    forall|space: SpaceId| #[trigger]
        s.spaces.contains_key(space) ==> s2.spaces.contains_key(space)
}

proof fn lemma_floats_keep_spaces(s: State, wids: Seq<WindowId>, space: SpaceId)
    ensures
        floats_added(s, wids, space).spaces == s.spaces,
    decreases wids.len(),
{
    if wids.len() > 0 {
        lemma_floats_keep_spaces(s, wids.drop_last(), space);
    }
}

/// An event takes no space away.
pub proof fn law_event_keeps_spaces(
    s: State,
    l: Log,
    event: LayoutEventView,
    s2: State,
    l2: Log,
    r: Response,
)
    requires
        event_handled(s, l, event, s2, l2, r),
    ensures
        keeps_spaces(s, s2),
        match event {
            LayoutEventView::SpaceExposed(space, _) => s2.spaces.contains_key(space),
            _ => true,
        },
{
    match event {
        LayoutEventView::WindowsOnScreenUpdated(space, pid, windows) => {
            assert forall|m: State, wids: Seq<WindowId>| #[trigger]
                floats_added(m, wids, space).spaces == m.spaces by {
                lemma_floats_keep_spaces(m, wids, space);
            }
        },
        _ => {},
    }
}

/// A command takes no space away.
pub proof fn law_command_keeps_spaces(
    s: State,
    l: Log,
    space: Option<SpaceId>,
    visible: Seq<SpaceId>,
    command: LayoutCommand,
    s2: State,
    l2: Log,
    r: Response,
)
    requires
        command_handled(s, l, space, visible, command, s2, l2, r),
    ensures
        keeps_spaces(s, s2),
{
}

proof fn lemma_kinds_keep_spaces(s: State, l: Log, spaces: Seq<SpaceId>, s2: State, l2: Log)
    requires
        kinds_allowed(s, l, spaces, s2, l2),
    ensures
        keeps_spaces(s, s2),
    decreases spaces.len(),
{
    if spaces.len() > 0 {
        let (m, t) = choose|m: State, t: Log|
            kinds_allowed(s, l, spaces.drop_last(), m, t) && #[trigger] kind_allowed(
                m,
                t,
                spaces.last(),
                s2,
                l2,
            );
        lemma_kinds_keep_spaces(s, l, spaces.drop_last(), m, t);
    }
}

/// A configuration takes no space away.
pub proof fn law_config_keeps_spaces(s: State, l: Log, config: Config, s2: State, l2: Log)
    requires
        config_set(s, l, config, s2, l2),
    ensures
        keeps_spaces(s, s2),
{
    if !config.valid_scroll.enable {
        let spaces = choose|spaces: Seq<SpaceId>| #[trigger]
            lists(spaces, s.spaces) && kinds_allowed(
                configured(s, config),
                l,
                spaces,
                s2,
                l2,
            );
        assert(configured(s, config).spaces == s.spaces);
        lemma_kinds_keep_spaces(configured(s, config), l, spaces, s2, l2);
        assert(keeps_spaces(s, configured(s, config)));
    }
}

/// While scroll layouts are off, the commands for them do nothing at all.
pub proof fn law_gate_stops_commands(
    s: State,
    l: Log,
    space: Option<SpaceId>,
    visible: Seq<SpaceId>,
    command: LayoutCommand,
    s2: State,
    l2: Log,
    r: Response,
)
    requires
        command_handled(s, l, space, visible, command, s2, l2, r),
        !s.scroll_enabled,
        command is CycleColumnWidth || command is ToggleColumnTabbed || command is ChangeLayoutKind,
    ensures
        s2 == s,
        l2 == l,
        r == nothing(),
{
}

/// While scroll layouts are off, the wheel does nothing, the mouse takes hold of
/// nothing, and no viewport is in motion.
pub proof fn law_gate_stops_the_mouse(s: State, l: Log, space: SpaceId, screen: Frame, config: Config)
    requires
        !s.scroll_enabled,
    ensures
        forall|delta: Real, s2: State, l2: Log, r: Response| #[trigger]
            wheel_handled(s, l, space, delta, screen, config.scroll@, s2, l2, r) ==> s2 == s && l2
                == l && r == nothing(),
        forall|point: Point, l2: Log, hit: Option<(NodeId, NodeId, ResizeEdge)>| #[trigger]
            edges_hit(s, l, space, point, screen, config, l2, hit) ==> l2 == l && hit is None,
        forall|point: Point, l2: Log, hit: Option<(WindowId, NodeId)>| #[trigger]
            window_hit(s, l, space, point, screen, config, l2, hit) ==> l2 == l && hit is None,
        forall|s2: State, l2: Log| #[trigger]
            viewport_followed(s, l, space, screen, config, s2, l2) ==> s2 == s && l2 == l,
        forall|l2: Log, moving: bool| #[trigger] in_motion(s, l, l2, moving) ==> l2 == l && !moving,
{
}

/// While scroll layouts are off, new spaces get tree layouts, whatever the default
/// of the configuration is.
pub proof fn law_gate_makes_trees(s: State, config: Config)
    requires
        !config.valid_scroll.enable,
    ensures
        !configured(s, config).scroll_enabled,
        configured(s, config).default_kind == LayoutKind::Tree,
{
}

/// While scroll layouts are off, a space that is shown with a scroll layout gets
/// another layout in its place: one that was made as a tree.
pub proof fn law_gate_converts(s: State, l: Log, space: SpaceId, s2: State, l2: Log)
    requires
        kind_allowed(s, l, space, s2, l2),
        !s.scroll_enabled,
        s.spaces.contains_key(space),
        l2.len() > l.len() + 1,
        l2[l.len() as int].rep->Flag_0,
        l2[l.len() as int + 1].rep->Kind_0 != LayoutKind::Tree,
    ensures
        l2[l.len() as int].req == Req::IsScrollLayout(s.spaces[space]),
        exists|i: int| l.len() <= i < l2.len() && (#[trigger] l2[i]).req == Req::CreateLayout,
        exists|i: int|
            l.len() <= i < l2.len() && (#[trigger] l2[i]).req is ReplaceActiveLayout
                && l2[i].req->ReplaceActiveLayout_0 == space,
{
    let t0 = ask(l, l2, Req::IsScrollLayout(s.spaces[space]));
    let layout = s.spaces[space];
    let (t, new_layout) = choose|t: Log, new_layout: LayoutId|
        {
            &&& #[trigger] converted(
                t0,
                s.scroll.visible_columns,
                s.focused,
                layout,
                LayoutKind::Tree,
                t,
                new_layout,
            )
            &&& active_replaced(s, t, space, layout, new_layout, s2, l2)
        };
    let replaced = ask(t, l2, Req::ReplaceActiveLayout(space, new_layout));
    assert(l2[t.len() as int].req == Req::ReplaceActiveLayout(space, new_layout));
    lemma_converted_grows(
        t0,
        s.scroll.visible_columns,
        s.focused,
        layout,
        LayoutKind::Tree,
        t,
        new_layout,
    );
    assert(t[t0.len() as int].rep == l2[l.len() as int + 1].rep);
    let i = choose|i: int|
        t0.len() <= i < t.len() && (#[trigger] t[i]).req == Req::CreateLayout;
    assert(l2[i] == t[i]);
}

/// Moving windows over only adds to the record.
pub proof fn lemma_moved_over_grows(
    l: Log,
    windows: Seq<WindowId>,
    layout: LayoutId,
    kind: LayoutKind,
    visible_columns: u32,
    l2: Log,
)
    requires
        moved_over(l, windows, layout, kind, visible_columns, l2),
    ensures
        grew(l, l2),
    decreases windows.len(),
{
    if windows.len() > 0 {
        let n = l2.len();
        let before = match kind {
            LayoutKind::Scroll => l2.take(n - 2),
            LayoutKind::Tree => l2.take(n - 3),
        };
        lemma_moved_over_grows(l, windows.drop_last(), layout, kind, visible_columns, before);
    }
}

/// Converting a layout only adds to the record; where its kind is another, a layout
/// of the wanted kind is made.
pub proof fn lemma_converted_grows(
    l: Log,
    visible_columns: u32,
    focused: Option<WindowId>,
    layout: LayoutId,
    kind: LayoutKind,
    l2: Log,
    new_layout: LayoutId,
)
    requires
        converted(l, visible_columns, focused, layout, kind, l2, new_layout),
    ensures
        grew(l, l2),
        l2.len() > l.len(),
        l2[l.len() as int].rep->Kind_0 != kind ==> exists|i: int|
            l.len() <= i < l2.len() && (#[trigger] l2[i]).req == match kind {
                LayoutKind::Tree => Req::CreateLayout,
                LayoutKind::Scroll => Req::CreateScrollLayout,
            },
{
    let t0 = ask(l, l2, Req::LayoutKind(layout));
    if answer(t0)->Kind_0 != kind {
        let t1 = ask(t0, l2, Req::Selection(layout));
        let t2 = ask(t1, l2, Req::WindowAt(answer(t1)->Node_0));
        let t3 = ask(t2, l2, Req::Root(layout));
        let t4 = ask(t3, l2, Req::TraversePostorder(answer(t3)->Node_0));
        let nodes = answer(t4)->Nodes_0;
        let windows = windows_named(l2, t4.len() as int, nodes.len());
        let asked = ask_each(t4, l2, window_questions(nodes));
        let t5 = ask(
            asked,
            l2,
            match kind {
                LayoutKind::Tree => Req::CreateLayout,
                LayoutKind::Scroll => Req::CreateScrollLayout,
            },
        );
        let wanted = if focused is Some {
            focused
        } else {
            answer(t2)->MaybeWindow_0
        };
        assert(taken_over(
            t5,
            windows,
            new_layout,
            kind,
            visible_columns,
            wanted,
            l2,
        ));
        let t = choose|t: Log| #[trigger]
            moved_over(t5, windows, new_layout, kind, visible_columns, t) && match wanted {
                None => l2 == t,
                Some(wid) => {
                    let t1 = ask(t, l2, Req::WindowNode(new_layout, wid));
                    match answer(t1)->MaybeNode_0 {
                        None => l2 == t1,
                        Some(node) => l2 == ask(t1, l2, Req::Select(node)),
                    }
                },
            };
        lemma_moved_over_grows(
            t5,
            windows,
            new_layout,
            kind,
            visible_columns,
            t,
        );
        assert(grew(t5, l2));
        assert(l2[t5.len() - 1] == t5.last());
    }
}

/// A window that is let float, and then not, floats no more than it did before, and
/// nothing else has changed but that no floating window was last.
pub proof fn law_toggle_floating_twice(
    s: State,
    l: Log,
    space: Option<SpaceId>,
    visible: Seq<SpaceId>,
    m: State,
    t: Log,
    r: Response,
    s2: State,
    l2: Log,
    r2: Response,
)
    requires
        command_handled(s, l, space, visible, LayoutCommand::ToggleWindowFloating, m, t, r),
        command_handled(m, t, space, visible, LayoutCommand::ToggleWindowFloating, s2, l2, r2),
        s.focused is Some,
        !s.is_floating(),
        space is Some ==> !s.active_floating.contains(
            ActiveFloat { space: space->0, pid: s.focused->0.pid, wid: s.focused->0 },
        ),
    ensures
        m.is_floating(),
        m.last_floating == s.focused,
        !s2.is_floating(),
        s2 == (State { last_floating: None, ..s }),
        r == nothing(),
        r2 == nothing(),
{
    let wid = s.focused->0;
    assert(m == (State { last_floating: Some(wid), ..float_added(s, wid, space) }));
    assert(m.floating == s.floating.push(wid));
    assert(m.floating[s.floating.len() as int] == wid);
    assert(m.is_floating());
    lemma_pushed_out(s.floating, wid);
    if space is Some {
        let noted = ActiveFloat { space: space->0, pid: wid.pid, wid };
        lemma_pushed_out(s.active_floating, noted);
    }
}

/// A window that is let float, and then not, is not tiled in between, and the space
/// tiles the same windows as before afterwards, with that one as its selected window.
/// The window is tiled in the space to begin with, and the host answers as a layout tree.
pub proof fn law_toggle_floating_twice_tiles(
    s: State,
    l: Log,
    space: SpaceId,
    visible: Seq<SpaceId>,
    m: State,
    t: Log,
    r: Response,
    s2: State,
    l2: Log,
    r2: Response,
    l3: Log,
    selected: Option<WindowId>,
    trees: Seq<Tree>,
)
    requires
        command_handled(s, l, Some(space), visible, LayoutCommand::ToggleWindowFloating, m, t, r),
        command_handled(m, t, Some(space), visible, LayoutCommand::ToggleWindowFloating, s2, l2, r2),
        selection_told(s2, l2, space, l3, selected),
        s.focused is Some,
        !s.is_floating(),
        is_tree(trees, l3, l.len() as int),
        trees[l.len() as int].tiled.contains_key(s.spaces[space]),
        trees[l.len() as int].tiled[s.spaces[space]].contains(s.focused->0),
    ensures
        m.is_floating(),
        !s2.is_floating(),
        s2.last_floating is None,
        s2.focused == s.focused,
        s2.spaces == s.spaces,
        r == nothing(),
        r2 == nothing(),
        ({
            let a = trees[l.len() as int];
            let b = trees[t.len() as int];
            let c = trees[l2.len() as int];
            let layout = s.spaces[space];
            let wid = s.focused->0;
            &&& forall|x: LayoutId| #[trigger]
                b.tiled.contains_key(x) ==> !b.tiled[x].contains(wid)
            &&& b.tiled[layout] == a.tiled[layout].remove(wid)
            &&& c.tiled[layout] == a.tiled[layout]
        }),
        selected == s.focused,
{
    let wid = s.focused->0;
    let layout = s.spaces[space];
    let a = trees[l.len() as int];
    let n = l.len() as int;
    assert(m == (State { last_floating: Some(wid), ..float_added(s, wid, Some(space)) }));
    assert(m.floating == s.floating.push(wid));
    assert(m.floating[s.floating.len() as int] == wid);
    assert(m.is_floating());
    lemma_pushed_out(s.floating, wid);
    assert(t.len() == n + 1);
    assert(l2.len() == n + 4);
    assert(grew(l2, l3));
    assert(l2[n] == t[n] && t[n].req == Req::RemoveWindow(wid));
    assert(acts_as_tree(trees[n], l3[n], trees[n + 1]));
    assert(l2[n + 1].req == Req::Selection(layout));
    assert(acts_as_tree(trees[n + 1], l3[n + 1], trees[n + 2]));
    assert(l2[n + 2].req is AddWindowAfter);
    assert(acts_as_tree(trees[n + 2], l3[n + 2], trees[n + 3]));
    assert(l2[n + 3].req == Req::Select(l2[n + 2].rep->Node_0));
    assert(acts_as_tree(trees[n + 3], l3[n + 3], trees[n + 4]));
    let c = trees[n + 4];
    assert(c.tiled[layout] =~= a.tiled[layout]);
    assert(l3[n + 4].req == Req::Selection(layout));
    assert(acts_as_tree(trees[n + 4], l3[n + 4], trees[n + 5]));
    assert(acts_as_tree(trees[n + 5], l3[n + 5], trees[n + 6]));
}

/// What was put at the end of a list, and was not in it before, is taken out again.
proof fn lemma_pushed_out<K>(list: Seq<K>, key: K)
    requires
        !list.contains(key),
    ensures
        without(list.push(key), key) == list,
{
    reveal(Seq::filter);
    let keep = |k: K| k != key;
    assert(list.push(key).drop_last() =~= list);
    lemma_nothing_left_out(list, keep);
}

proof fn lemma_nothing_left_out<K>(list: Seq<K>, keep: spec_fn(K) -> bool)
    requires
        forall|i: int| 0 <= i < list.len() ==> keep(#[trigger] list[i]),
    ensures
        list.filter(keep) == list,
    decreases list.len(),
{
    reveal(Seq::filter);
    if list.len() > 0 {
        let front = list.drop_last();
        assert forall|i: int| 0 <= i < front.len() implies keep(#[trigger] front[i]) by {
            assert(list[i] == front[i]);
        }
        lemma_nothing_left_out(front, keep);
        assert(keep(list[list.len() - 1]));
        assert(list =~= front.push(list.last()));
    } else {
        assert(list =~= Seq::empty());
    }
}

/// Where the space is not managed, only the command that lets a window float does anything.
pub proof fn law_unmanaged_space_stops_commands(
    s: State,
    l: Log,
    visible: Seq<SpaceId>,
    command: LayoutCommand,
    s2: State,
    l2: Log,
    r: Response,
)
    requires
        command_handled(s, l, None, visible, command, s2, l2, r),
        !(command is ToggleWindowFloating),
    ensures
        s2 == s,
        l2 == l,
        r == nothing(),
{
}

/// One turn of the wheel asks the way for no more steps than it is worth, and for
/// sixteen at most.
pub proof fn law_wheel_walk_is_bounded(
    l: Log,
    layout: LayoutId,
    node: NodeId,
    steps: i32,
    round: bool,
    l2: Log,
    end: NodeId,
)
    requires
        walked(l, layout, node, walk_direction(steps), round, steps_walked(steps), l2, end),
    ensures
        l.len() <= l2.len() <= l.len() + steps_walked(steps),
        steps_walked(steps) <= 16,
        steps == 0 ==> end == node,
{
    lemma_walk_length(l, layout, node, walk_direction(steps), round, steps_walked(steps), l2, end);
}

proof fn lemma_walk_length(
    l: Log,
    layout: LayoutId,
    node: NodeId,
    direction: Direction,
    round: bool,
    n: nat,
    l2: Log,
    end: NodeId,
)
    requires
        walked(l, layout, node, direction, round, n, l2, end),
    ensures
        l.len() <= l2.len() <= l.len() + n,
    decreases n,
{
    if n > 0 {
        let t = ask(
            l,
            l2,
            if round {
                Req::TraverseScrollWrapping(layout, node, direction)
            } else {
                Req::Traverse(node, direction)
            },
        );
        if let Some(next) = answer(t)->MaybeNode_0 {
            lemma_walk_length(t, layout, next, direction, round, (n - 1) as nat, l2, end);
        }
    }
}

/// While a floating window has the focus, commands for the layout change no window
/// and no focus: at most the layout is readied for a change.
pub proof fn law_floating_stops_commands(
    s: State,
    l: Log,
    space: SpaceId,
    visible: Seq<SpaceId>,
    command: LayoutCommand,
    s2: State,
    l2: Log,
    r: Response,
)
    requires
        command_handled(s, l, Some(space), visible, command, s2, l2, r),
        s.is_floating(),
        !(command is ToggleWindowFloating) && !(command is ToggleFocusFloating),
    ensures
        r == nothing(),
        s2 == (State { spaces: s2.spaces, ..s }),
        l2 == l || l2 == ask(l, l2, Req::PrepareModify(space)),
{
}

/// While scroll layouts are off, a layout that is switched to is none: it was asked
/// about, and the answer was no.
pub proof fn law_switch_passes_over_scroll(
    s: State,
    l: Log,
    space: SpaceId,
    offset: int,
    s2: State,
    l2: Log,
    layout: LayoutId,
)
    requires
        index_changed(s, l, space, offset, false, s2, l2, layout),
        s2 != s,
    ensures
        exists|k: int|
            l.len() <= k < l2.len() && (#[trigger] l2[k]).req == Req::IsScrollLayout(layout)
                && !l2[k].rep->Flag_0,
{
    let t1 = ask(l, l2, Req::Layouts(space));
    let layouts = answer(t1)->Layouts_0;
    let t2 = ask(t1, l2, Req::ActiveLayoutIndex(space));
    let index = answer(t2)->Index_0 as int;
    assert(tree_layout_found(s, t2, space, layouts, index, offset, s2, l2, layout));
    let reqs = scroll_questions(layouts, index, offset);
    let (t, found) = choose|t: Log, found: Option<int>|
        {
            &&& #[trigger] asked_until(t2, scroll_questions(layouts, index, offset), false, t, found)
            &&& match found {
                Some(i) => {
                    &&& layout == layout_away(layouts, index, offset, i + 1)
                    &&& layout_selected(s, t, space, layout, s2, l2)
                },
                None => layout == s.spaces[space] && s2 == s && l2 == t,
            }
        };
    let i = found->0;
    assert(reqs[i] == Req::IsScrollLayout(layout));
    let k = t2.len() as int + i;
    assert(t[k].req == reqs.take(i + 1)[i]);
    assert(l2[k] == t[k]);
}

/// The direction back.
pub open spec fn opposite(direction: Direction) -> Direction {
    match direction {
        Direction::Left => Direction::Right,
        Direction::Right => Direction::Left,
        Direction::Up => Direction::Down,
        Direction::Down => Direction::Up,
    }
}

/// From the next screen, the way back leads to the screen that it came from.
pub proof fn law_neighbours_are_mutual(
    visible: Seq<SpaceId>,
    space: SpaceId,
    direction: Direction,
)
    requires
        visible.no_duplicates(),
        neighbour(visible, space, direction) is Some,
    ensures
        neighbour(visible, neighbour(visible, space, direction)->0, opposite(direction)) == Some(
            space,
        ),
{
    let n = visible.len() as int;
    visible.index_of_first_ensures(space);
    let idx = visible.index_of_first(space)->0;
    let step: int = match direction {
        Direction::Left | Direction::Up => -1,
        Direction::Right | Direction::Down => 1,
    };
    let at = (idx + step) % n;
    vstd::arithmetic::div_mod::lemma_mod_bound(idx + step, n);
    let other = visible[at];
    assert(visible.contains(other));
    visible.index_of_first_ensures(other);
    assert(visible.index_of_first(other) == Some(at));
    assert((at - step) % n == idx) by {
        vstd::arithmetic::div_mod::lemma_add_mod_noop(idx + step, -step, n);
        vstd::arithmetic::div_mod::lemma_add_mod_noop(at, -step, n);
        vstd::arithmetic::div_mod::lemma_mod_twice(idx + step, n);
        vstd::arithmetic::div_mod::lemma_small_mod(idx as nat, n as nat);
    }
}

/// The focus that is picked where none is wanted comes from the windows to raise,
/// and no window is lost.
pub proof fn law_one_focused(wids: Seq<WindowId>, wanted: Option<WindowId>)
    ensures
        one_focused(wids, wanted).focus is None <==> wanted is None && wids.len() == 0,
        wanted is Some ==> one_focused(wids, wanted).focus == wanted,
        wanted is None ==> windows_of(one_focused(wids, wanted)) == wids.to_multiset(),
{
    broadcast use vstd::seq_lib::group_to_multiset_ensures;

    if wanted is None && wids.len() > 0 {
        assert(wids =~= wids.drop_last().push(wids.last()));
        assert(windows_of(one_focused(wids, wanted)) =~= wids.to_multiset());
    }
}

/// Tabs that are turned on and off again leave the column as it was, and so does
/// changing the kind of a layout twice.
pub proof fn law_toggles_undo(container: ContainerKind, kind: LayoutKind)
    ensures
        tabs_toggled(tabs_toggled(container)) == container,
        other_kind(kind) != kind,
        other_kind(other_kind(kind)) == kind,
{
}

/// No window of a closed application floats, and the others float as before.
pub proof fn law_closed_app_floats_nowhere(
    s: State,
    l: Log,
    pid: i32,
    s2: State,
    l2: Log,
    r: Response,
    wid: WindowId,
)
    requires
        event_handled(s, l, LayoutEventView::AppClosed(pid), s2, l2, r),
        s.floating.no_duplicates(),
    ensures
        s2.floating.contains(wid) <==> s.floating.contains(wid) && wid.pid != pid,
        s2.floating.no_duplicates(),
{
    lemma_filter_each_once(s.floating, |wid: WindowId| wid.pid != pid);
}

/// A removed window does not float, and the others float as before.
pub proof fn law_removed_window_floats_nowhere(
    s: State,
    l: Log,
    gone: WindowId,
    s2: State,
    l2: Log,
    r: Response,
    wid: WindowId,
)
    requires
        event_handled(s, l, LayoutEventView::WindowRemoved(gone), s2, l2, r),
        s.floating.no_duplicates(),
    ensures
        s2.floating.contains(wid) <==> s.floating.contains(wid) && wid != gone,
        s2.floating.no_duplicates(),
{
    lemma_without(s.floating, gone);
}

/// The windows of an update are told apart: one that does not float goes to the
/// layout, to the new columns or to the floating windows, or it is left out because
/// it is not managed. A window that the layout has stays in it.
pub proof fn law_update_tells_windows_apart(
    s: State,
    space: SpaceId,
    pid: i32,
    scroll: bool,
    layout: LayoutId,
    windows: Seq<(WindowId, WindowInfoView)>,
    n: nat,
    l: Log,
    log: Log,
)
    requires
        n <= windows.len(),
        asked_for(s.floating, layout, windows, n, l, log),
    ensures
        ({
            let p = sorted(s, space, pid, scroll, windows, n, log);
            &&& forall|wid: WindowId| #[trigger]
                p.tree.contains(wid) ==> !s.floating.contains(wid)
            &&& forall|wid: WindowId| #[trigger]
                p.new.contains(wid) ==> scroll && !s.floating.contains(wid) && class_of(
                    info_of(windows, wid),
                ) == WindowClass::Regular
            &&& forall|wid: WindowId| #[trigger]
                p.floats.contains(wid) ==> !s.floating.contains(wid) && class_of(
                    info_of(windows, wid),
                ) == WindowClass::FloatByDefault
            &&& forall|i: int|
                0 <= i < n && !s.floating.contains((#[trigger] windows[i]).0) ==> {
                    ||| p.tree.contains(windows[i].0)
                    ||| p.new.contains(windows[i].0)
                    ||| p.floats.contains(windows[i].0)
                    ||| class_of(info_of(windows, windows[i].0)) == WindowClass::Untracked
                }
            &&& forall|k: int, wid: WindowId|
                l.len() <= k < log.len() && #[trigger] log[k].req == Req::WindowNode(layout, wid)
                    && log[k].rep->MaybeNode_0 is Some ==> #[trigger] p.tree.contains(wid)
        }),
    decreases n,
{
    if n > 0 {
        let wid = windows[n - 1].0;
        let p = sorted(s, space, pid, scroll, windows, n, log);
        if s.floating.contains(wid) {
            law_update_tells_windows_apart(
                s,
                space,
                pid,
                scroll,
                layout,
                windows,
                (n - 1) as nat,
                l,
                log,
            );
            let q = sorted(s, space, pid, scroll, windows, (n - 1) as nat, log);
            assert(p.tree == q.tree && p.new == q.new && p.floats == q.floats);
        } else {
            let before = log.drop_last();
            let q = sorted(s, space, pid, scroll, windows, (n - 1) as nat, before);
            law_update_tells_windows_apart(
                s,
                space,
                pid,
                scroll,
                layout,
                windows,
                (n - 1) as nat,
                l,
                before,
            );
            lemma_asked_for_grows(s.floating, layout, windows, (n - 1) as nat, l, before);
            assert(p.tree == q.tree || p.tree == q.tree.push(wid));
            assert(p.new == q.new || p.new == q.new.push(wid));
            assert(p.floats == q.floats || p.floats == q.floats.push(wid));
            assert forall|w: WindowId| #[trigger] p.tree.contains(w) <==> q.tree.contains(w)
                || p.tree != q.tree && w == wid by {
                lemma_pushed_in(q.tree, wid, w);
            }
            assert forall|w: WindowId| #[trigger] p.new.contains(w) <==> q.new.contains(w) || p.new
                != q.new && w == wid by {
                lemma_pushed_in(q.new, wid, w);
            }
            assert forall|w: WindowId| #[trigger] p.floats.contains(w) <==> q.floats.contains(w)
                || p.floats != q.floats && w == wid by {
                lemma_pushed_in(q.floats, wid, w);
            }
            lemma_pushed_in(q.tree, wid, wid);
            lemma_pushed_in(q.new, wid, wid);
            lemma_pushed_in(q.floats, wid, wid);
            assert forall|k: int, w: WindowId|
                l.len() <= k < log.len() && #[trigger] log[k].req == Req::WindowNode(layout, w)
                    && log[k].rep->MaybeNode_0 is Some implies #[trigger] p.tree.contains(w) by {
                if k < before.len() {
                    assert(before[k] == log[k]);
                    assert(before[k].req == Req::WindowNode(layout, w));
                    assert(q.tree.contains(w));
                }
            }
            assert(forall|w: WindowId| #[trigger]
                p.tree.contains(w) ==> !s.floating.contains(w));
            assert(forall|w: WindowId| #[trigger]
                p.new.contains(w) ==> scroll && !s.floating.contains(w) && class_of(
                    info_of(windows, w),
                ) == WindowClass::Regular);
        }
    } else {
        let p = sorted(s, space, pid, scroll, windows, n, log);
        assert(p.tree.len() == 0 && p.new.len() == 0 && p.floats.len() == 0);
    }
}

/// What is in a list with one thing more.
pub proof fn lemma_pushed_in<K>(list: Seq<K>, key: K, k: K)
    ensures
        list.push(key).contains(k) <==> list.contains(k) || k == key,
        list.push(key) != list,
{
    assert(list.push(key)[list.len() as int] == key);
    if list.contains(k) {
        let i = choose|i: int| 0 <= i < list.len() && list[i] == k;
        assert(list.push(key)[i] == k);
    }
    if list.push(key).contains(k) && k != key {
        let i = choose|i: int| 0 <= i < list.len() + 1 && list.push(key)[i] == k;
        assert(list[i] == k);
    }
    assert(list.push(key).len() != list.len());
}

/// Asking for windows only adds to the record.
proof fn lemma_asked_for_grows(
    floating: Seq<WindowId>,
    layout: LayoutId,
    windows: Seq<(WindowId, WindowInfoView)>,
    n: nat,
    l: Log,
    l2: Log,
)
    requires
        asked_for(floating, layout, windows, n, l, l2),
    ensures
        l.len() <= l2.len(),
    decreases n,
{
    if n > 0 {
        if floating.contains(windows[n - 1].0) {
            lemma_asked_for_grows(floating, layout, windows, (n - 1) as nat, l, l2);
        } else {
            lemma_asked_for_grows(floating, layout, windows, (n - 1) as nat, l, l2.drop_last());
        }
    }
}

} // verus!
