//! What the layout manager does on a command of the user.

use vstd::prelude::*;

use crate::collections::{list_without, position, without};
use crate::ids::{
    ContainerKind, Direction, LayoutId, LayoutKind, NodeId, Orientation, Real, SpaceId, WindowId, ONE,
};
use crate::layout::conversion::active_converted;
use crate::layout::events::{all_exposed, scrolling_cleared};
use crate::layout::floating::{float_added, float_removed, floats_in};
use crate::layout::state::{LayoutManager, State};
use crate::layout::traversal::{window_questions, windows_at, windows_named};
use crate::link::{
    answer, ask, ask_each, asked_in_vain, asked_until, grew, lemma_asked_all, lemma_asked_none, lemma_asked_on,
    Binary, LayoutHost, Link, Log, Rep, Req, Unary,
};
use crate::response::{nothing, EventResponse, Response};

verus! {

/// The bit pattern of 100.
pub const HUNDRED: u64 = 0x4059_0000_0000_0000;

/// The bit pattern of -100.
pub const MINUS_HUNDRED: u64 = 0xc059_0000_0000_0000;

/// The bit pattern of one hundredth: a preset counts as wider only by more than that.
pub const PRESET_MARGIN: u64 = 0x3f84_7ae1_47ae_147b;

/// The bit pattern of one thousandth: smaller changes of a width are not made.
pub const LEAST_RESIZE: u64 = 0x3f50_624d_d2f1_a9fc;

/// The bit pattern of 5: how far a resize goes that does not say.
pub const DEFAULT_RESIZE_PERCENT: u64 = 0x4014_0000_0000_0000;

/// How far a resize goes that does not say.
pub fn default_resize_percent() -> (percent: Real)
    ensures
        percent == Real(DEFAULT_RESIZE_PERCENT),
{
    Real(DEFAULT_RESIZE_PERCENT)
}

/// A command of the user for the layout.
#[derive(Clone, Copy, Debug, PartialEq, Eq, Structural)]
pub enum LayoutCommand {
    NextLayout,
    PrevLayout,
    MoveFocus(Direction),
    Ascend,
    Descend,
    MoveNode(Direction),
    Split(Orientation),
    Group(Orientation),
    Ungroup,
    ToggleFocusFloating,
    ToggleWindowFloating,
    ToggleFullscreen,
    Resize { direction: Direction, percent: Real },
    CycleColumnWidth,
    ChangeLayoutKind,
    ToggleColumnTabbed,
    FocusNext,
    FocusPrev,
}

impl LayoutCommand {
    /// Whether the command changes the layout itself, so that the layout is kept
    /// as one that the user has made.
    pub open spec fn changes_layout(self) -> bool {
        ||| self is MoveNode
        ||| self is Group
        ||| self is Ungroup
        ||| self is Resize
        ||| self is CycleColumnWidth
        ||| self is ToggleColumnTabbed
    }

    /// Whether the command is for scroll layouts only.
    pub open spec fn is_for_scroll(self) -> bool {
        ||| self is CycleColumnWidth
        ||| self is ToggleColumnTabbed
        ||| self is ChangeLayoutKind
    }

    /// Whether the command changes the layout itself.
    pub fn modifies_layout(&self) -> (modifies: bool)
        ensures
            modifies == self.changes_layout(),
    {
        match self {
            LayoutCommand::MoveNode(_)
            | LayoutCommand::Group(_)
            | LayoutCommand::Ungroup
            | LayoutCommand::Resize { .. }
            | LayoutCommand::CycleColumnWidth
            | LayoutCommand::ToggleColumnTabbed => true,
            _ => false,
        }
    }

    fn needs_scroll(&self) -> (needs: bool)
        ensures
            needs == self.is_for_scroll(),
    {
        match self {
            LayoutCommand::CycleColumnWidth
            | LayoutCommand::ToggleColumnTabbed
            | LayoutCommand::ChangeLayoutKind => true,
            _ => false,
        }
    }
}

/// The space on the next screen in a direction. The last screen is followed by the
/// first. There is none where only one space is visible, or where `space` is not.
pub open spec fn neighbour(visible: Seq<SpaceId>, space: SpaceId, direction: Direction) -> Option<
    SpaceId,
> {
    if visible.len() <= 1 || !visible.contains(space) {
        None
    } else {
        let idx = visible.index_of_first(space)->0;
        let step: int = match direction {
            Direction::Left | Direction::Up => -1,
            Direction::Right | Direction::Down => 1,
        };
        Some(visible[(idx + step) % (visible.len() as int)])
    }
}

fn next_space(visible: &[SpaceId], space: SpaceId, direction: Direction) -> (next: Option<SpaceId>)
    ensures
        next == neighbour(visible@, space, direction),
{
    let len: usize = visible.len();
    if len <= 1 {
        return None;
    }
    match position(visible, space) {
        None => None,
        Some(idx) => {
            let next: usize = match direction {
                Direction::Left | Direction::Up => if idx == 0 {
                    len - 1
                } else {
                    idx - 1
                },
                Direction::Right | Direction::Down => if idx == len - 1 {
                    0
                } else {
                    idx + 1
                },
            };
            proof {
                lemma_first_place(visible@, space, idx as int);
                let step: int = match direction {
                    Direction::Left | Direction::Up => -1,
                    Direction::Right | Direction::Down => 1,
                };
                assert((idx + step) % (len as int) == next) by (nonlinear_arith)
                    requires
                        0 <= idx < len,
                        len > 1,
                        step == -1 && next == (if idx == 0 {
                            len - 1
                        } else {
                            idx - 1
                        }) || step == 1 && next == (if idx == len - 1 {
                            0
                        } else {
                            idx + 1
                        }),
                ;
            }
            Some(visible[next])
        },
    }
}

/// A place that holds `key`, with none before it, is the first.
proof fn lemma_first_place<K>(list: Seq<K>, key: K, i: int)
    requires
        0 <= i < list.len(),
        list[i] == key,
        !list.take(i).contains(key),
    ensures
        list.contains(key),
        list.index_of_first(key) == Some(i),
{
    list.index_of_first_ensures(key);
    let first = list.index_of_first(key)->0;
    if first < i {
        assert(list.take(i)[first] == key);
    }
}

/// The layout `step` steps of `offset` away from `index`, in a circle.
pub open spec fn layout_away(layouts: Seq<LayoutId>, index: int, offset: int, step: int) -> LayoutId {
    layouts[(index + offset * step) % (layouts.len() as int)]
}

/// The questions whether the layouts on the way are scroll layouts.
pub open spec fn scroll_questions(layouts: Seq<LayoutId>, index: int, offset: int) -> Seq<Req> {
    Seq::new(
        layouts.len(),
        |i: int| Req::IsScrollLayout(layout_away(layouts, index, offset, i + 1)),
    )
}

/// The layout of `space` changes to `layout`.
pub open spec fn layout_selected(
    s: State,
    l: Log,
    space: SpaceId,
    layout: LayoutId,
    s2: State,
    l2: Log,
) -> bool {
    &&& l2 == ask(l, l2, Req::SelectLayout(space, layout))
    &&& s2 == State { spaces: s.spaces.insert(space, answer(l2)->Layout_0), ..s }
}

/// While scroll layouts are off: the first layout on the way that is none is taken.
/// If all are, nothing changes.
pub open spec fn tree_layout_found(
    s: State,
    l: Log,
    space: SpaceId,
    layouts: Seq<LayoutId>,
    index: int,
    offset: int,
    s2: State,
    l2: Log,
    layout: LayoutId,
) -> bool {
    exists|t: Log, found: Option<int>|
        {
            &&& #[trigger] asked_until(l, scroll_questions(layouts, index, offset), false, t, found)
            &&& match found {
                Some(i) => {
                    &&& layout == layout_away(layouts, index, offset, i + 1)
                    &&& layout_selected(s, t, space, layout, s2, l2)
                },
                None => layout == s.spaces[space] && s2 == s && l2 == t,
            }
        }
}

/// The next layout of `space`, steps of `offset` away, is taken. Scroll layouts are
/// passed over unless they are allowed. `layout` is the layout in use afterwards.
pub open spec fn index_changed(
    s: State,
    l: Log,
    space: SpaceId,
    offset: int,
    allow_scroll: bool,
    s2: State,
    l2: Log,
    layout: LayoutId,
) -> bool {
    let t1 = ask(l, l2, Req::Layouts(space));
    let layouts = answer(t1)->Layouts_0;
    if layouts.len() <= 1 {
        layout == s.spaces[space] && s2 == s && l2 == t1
    } else {
        let t2 = ask(t1, l2, Req::ActiveLayoutIndex(space));
        let index = answer(t2)->Index_0 as int;
        if allow_scroll {
            &&& layout == layout_away(layouts, index, offset, 1)
            &&& layout_selected(s, t2, space, layout, s2, l2)
        } else {
            tree_layout_found(s, t2, space, layouts, index, offset, s2, l2, layout)
        }
    }
}

/// The focused window is selected, if `layout` has it.
pub open spec fn focused_selected(s: State, l: Log, layout: LayoutId, l2: Log) -> bool {
    match s.focused {
        None => l2 == l,
        Some(wid) => {
            let t = ask(l, l2, Req::WindowNode(layout, wid));
            match answer(t)->MaybeNode_0 {
                None => l2 == t,
                Some(node) => l2 == ask(t, l2, Req::Select(node)),
            }
        },
    }
}

/// The layout of `space` changes to the next one, and the focused window is
/// selected there.
pub open spec fn layout_switched(
    s: State,
    l: Log,
    space: SpaceId,
    offset: int,
    s2: State,
    l2: Log,
) -> bool {
    exists|t: Log, layout: LayoutId| #[trigger]
        index_changed(s, l, space, offset, s.scroll_enabled, s2, t, layout) && focused_selected(
            s,
            t,
            layout,
            l2,
        )
}

/// A node is selected. Its window, if it stands for one, gets the focus, and the
/// windows that this brings to the surface are raised.
pub open spec fn node_focused(l: Log, node: Option<NodeId>, l2: Log, r: Response) -> bool {
    match node {
        None => l2 == l && r == nothing(),
        Some(node) => {
            let t = ask(l, l2, Req::WindowAt(node));
            &&& l2 == ask(t, l2, Req::SelectReturningSurfacedWindows(node))
            &&& r == Response {
                raise: answer(l2)->Windows_0,
                focus: answer(t)->MaybeWindow_0,
            }
        },
    }
}

/// Whether the columns of a scroll layout count as a circle.
pub open spec fn goes_round(s: State, is_scroll: bool, direction: Direction) -> bool {
    s.scroll_enabled && is_scroll && s.scroll.infinite_loop && (direction == Direction::Left
        || direction == Direction::Right)
}

/// After a step to `node`, in a scroll layout or not.
pub open spec fn stepped_to(
    s: State,
    l: Log,
    space: SpaceId,
    is_scroll: bool,
    node: Option<NodeId>,
    l2: Log,
    r: Response,
) -> bool {
    if node is Some && is_scroll {
        exists|t: Log| #[trigger] scrolling_cleared(s, l, space, t) && node_focused(t, node, l2, r)
    } else {
        node_focused(l, node, l2, r)
    }
}

/// The focus moves to the next node in a direction, or to the selection on the next
/// screen where there is none.
pub open spec fn focus_moved(
    s: State,
    l: Log,
    space: SpaceId,
    visible: Seq<SpaceId>,
    direction: Direction,
    l2: Log,
    r: Response,
) -> bool {
    let layout = s.spaces[space];
    let t1 = ask(l, l2, Req::IsScrollLayout(layout));
    let is_scroll = answer(t1)->Flag_0;
    let t2 = ask(t1, l2, Req::Selection(layout));
    let selection = answer(t2)->Node_0;
    let t3 = ask(
        t2,
        l2,
        if goes_round(s, is_scroll, direction) {
            Req::TraverseScrollWrapping(layout, selection, direction)
        } else {
            Req::Traverse(selection, direction)
        },
    );
    let next = answer(t3)->MaybeNode_0;
    match (next, neighbour(visible, space, direction)) {
        (None, Some(other)) => {
            let t4 = ask(t3, l2, Req::Selection(s.spaces[other]));
            stepped_to(s, t4, space, is_scroll, Some(answer(t4)->Node_0), l2, r)
        },
        _ => stepped_to(s, t3, space, is_scroll, next, l2, r),
    }
}

/// The selected node moves in a direction, or to the next screen where it cannot.
pub open spec fn node_moved(
    s: State,
    l: Log,
    space: SpaceId,
    visible: Seq<SpaceId>,
    direction: Direction,
    l2: Log,
) -> bool {
    let layout = s.spaces[space];
    let t1 = ask(l, l2, Req::Selection(layout));
    let selection = answer(t1)->Node_0;
    let t2 = ask(t1, l2, Req::MoveNode(layout, selection, direction));
    match (answer(t2)->Flag_0, neighbour(visible, space, direction)) {
        (false, Some(other)) => {
            let t3 = ask(t2, l2, Req::Selection(s.spaces[other]));
            l2 == ask(t3, l2, Req::MoveNodeAfter(answer(t3)->Node_0, selection))
        },
        _ => l2 == t2,
    }
}

/// The container of the selected node becomes a group.
pub open spec fn grouped(l: Log, layout: LayoutId, orientation: Orientation, l2: Log) -> bool {
    let t1 = ask(l, l2, Req::Selection(layout));
    let t2 = ask(t1, l2, Req::Parent(answer(t1)->Node_0));
    match answer(t2)->MaybeNode_0 {
        None => l2 == t2,
        Some(parent) => {
            let t3 = ask(t2, l2, Req::GroupKind(orientation));
            l2 == ask(t3, l2, Req::SetContainerKind(parent, answer(t3)->Container_0))
        },
    }
}

/// The container of the selected node, if it is a group, becomes what it was before.
pub open spec fn ungrouped(l: Log, layout: LayoutId, l2: Log) -> bool {
    let t1 = ask(l, l2, Req::Selection(layout));
    let t2 = ask(t1, l2, Req::Parent(answer(t1)->Node_0));
    match answer(t2)->MaybeNode_0 {
        None => l2 == t2,
        Some(parent) => {
            let t3 = ask(t2, l2, Req::ContainerKind(parent));
            let t4 = ask(t3, l2, Req::IsGroupKind(answer(t3)->Container_0));
            if answer(t4)->Flag_0 {
                let t5 = ask(t4, l2, Req::LastUngroupedContainerKind(parent));
                l2 == ask(t5, l2, Req::SetContainerKind(parent, answer(t5)->Container_0))
            } else {
                l2 == t4
            }
        },
    }
}

/// A percentage, brought within -100 and 100. `l2` is the log after the comparisons.
pub open spec fn clamped(l: Log, percent: Real, l2: Log, clamped: Real) -> bool {
    let t1 = ask(l, l2, Req::Less(percent, Real(MINUS_HUNDRED)));
    if answer(t1)->Flag_0 {
        l2 == t1 && clamped == Real(MINUS_HUNDRED)
    } else {
        let t2 = ask(t1, l2, Req::Less(Real(HUNDRED), percent));
        l2 == t2 && clamped == if answer(t2)->Flag_0 {
            Real(HUNDRED)
        } else {
            percent
        }
    }
}

/// The selected node is resized by a percentage.
pub open spec fn resized(l: Log, layout: LayoutId, direction: Direction, percent: Real, l2: Log) -> bool {
    exists|t: Log, within: Real|
        {
            let t1 = ask(t, l2, Req::Selection(layout));
            let t2 = ask(t1, l2, Req::Binary(Binary::Divide, within, Real(HUNDRED)));
            &&& #[trigger] clamped(l, percent, t, within)
            &&& l2 == ask(t2, l2, Req::Resize(answer(t1)->Node_0, answer(t2)->Number_0, direction))
        }
}

/// The questions which of the presets is wider than `bound`.
pub open spec fn width_questions(presets: Seq<Real>, bound: Real) -> Seq<Req> {
    presets.map_values(|p: Real| Req::Less(bound, p))
}

/// The column gets the width `next`, unless that hardly differs from what it has.
pub open spec fn width_set(l: Log, column: NodeId, current: Real, next: Real, l2: Log) -> bool {
    let t1 = ask(l, l2, Req::Binary(Binary::Subtract, next, current));
    let delta = answer(t1)->Number_0;
    let t2 = ask(t1, l2, Req::Unary(Unary::Abs, delta));
    let t3 = ask(t2, l2, Req::Less(Real(LEAST_RESIZE), answer(t2)->Number_0));
    l2 == if answer(t3)->Flag_0 {
        ask(t3, l2, Req::Resize(column, delta, Direction::Right))
    } else {
        t3
    }
}

/// The column gets the first preset that is wider than `bound`, or else the first of all.
pub open spec fn width_chosen(
    l: Log,
    presets: Seq<Real>,
    bound: Real,
    column: NodeId,
    current: Real,
    l2: Log,
) -> bool {
    exists|t: Log, found: Option<int>|
        {
            &&& #[trigger] asked_until(l, width_questions(presets, bound), true, t, found)
            &&& width_set(
                t,
                column,
                current,
                presets[match found {
                    Some(i) => i,
                    None => 0,
                }],
                l2,
            )
        }
}

/// The column gets the first preset that is wider than it is, or else the first of all.
pub open spec fn column_cycled(l: Log, presets: Seq<Real>, column: NodeId, l2: Log) -> bool {
    let t1 = ask(l, l2, Req::Proportion(column));
    let current = match answer(t1)->MaybeNumber_0 {
        Some(current) => current,
        None => Real(ONE),
    };
    let t2 = ask(t1, l2, Req::Binary(Binary::Add, current, Real(PRESET_MARGIN)));
    width_chosen(t2, presets, answer(t2)->Number_0, column, current, l2)
}

/// The selected column of a scroll layout gets its next width.
pub open spec fn width_cycled(s: State, l: Log, layout: LayoutId, l2: Log) -> bool {
    let t1 = ask(l, l2, Req::IsScrollLayout(layout));
    let t2 = ask(t1, l2, Req::Selection(layout));
    let t3 = ask(t2, l2, Req::ColumnOf(layout, answer(t2)->Node_0));
    if !answer(t1)->Flag_0 || s.scroll.column_width_presets.len() == 0 {
        l2 == t1
    } else {
        match answer(t3)->MaybeNode_0 {
            None => l2 == t3,
            Some(column) => column_cycled(t3, s.scroll.column_width_presets, column, l2),
        }
    }
}

/// Tabs in place of windows below each other, and the other way round.
pub open spec fn tabs_toggled(kind: ContainerKind) -> ContainerKind {
    match kind {
        ContainerKind::Vertical => ContainerKind::Tabbed,
        ContainerKind::Tabbed => ContainerKind::Vertical,
        other => other,
    }
}

/// The selected column of a scroll layout gets tabs, or loses them.
pub open spec fn column_toggled(l: Log, layout: LayoutId, l2: Log) -> bool {
    let t1 = ask(l, l2, Req::IsScrollLayout(layout));
    let t2 = ask(t1, l2, Req::Selection(layout));
    let t3 = ask(t2, l2, Req::ColumnOf(layout, answer(t2)->Node_0));
    if !answer(t1)->Flag_0 {
        l2 == t1
    } else {
        match answer(t3)->MaybeNode_0 {
            None => l2 == t3,
            Some(column) => {
                let t4 = ask(t3, l2, Req::ContainerKind(column));
                l2 == ask(
                    t4,
                    l2,
                    Req::SetContainerKind(column, tabs_toggled(answer(t4)->Container_0)),
                )
            },
        }
    }
}

/// The other kind of layout.
pub open spec fn other_kind(kind: LayoutKind) -> LayoutKind {
    match kind {
        LayoutKind::Tree => LayoutKind::Scroll,
        LayoutKind::Scroll => LayoutKind::Tree,
    }
}

/// The layout of `space` is turned into one of the other kind.
pub open spec fn kind_changed(s: State, l: Log, space: SpaceId, s2: State, l2: Log) -> bool {
    let t = ask(l, l2, Req::LayoutKind(s.spaces[space]));
    active_converted(s, t, space, other_kind(answer(t)->Kind_0), s2, l2)
}

/// What a command does that works on a tiling layout.
pub open spec fn tiling_handled(
    s: State,
    l: Log,
    space: SpaceId,
    visible: Seq<SpaceId>,
    command: LayoutCommand,
    s2: State,
    l2: Log,
    r: Response,
) -> bool {
    let layout = s.spaces[space];
    let t1 = ask(l, l2, Req::Selection(layout));
    let selection = answer(t1)->Node_0;
    match command {
        LayoutCommand::NextLayout => {
            layout_switched(s, l, space, 1, s2, l2) && r == nothing()
        },
        LayoutCommand::PrevLayout => {
            layout_switched(s, l, space, -1, s2, l2) && r == nothing()
        },
        LayoutCommand::MoveFocus(direction) => {
            s2 == s && focus_moved(s, l, space, visible, direction, l2, r)
        },
        LayoutCommand::FocusNext => {
            let t2 = ask(t1, l2, Req::FocusNext(layout, selection));
            s2 == s && node_focused(t2, answer(t2)->MaybeNode_0, l2, r)
        },
        LayoutCommand::FocusPrev => {
            let t2 = ask(t1, l2, Req::FocusPrev(layout, selection));
            s2 == s && node_focused(t2, answer(t2)->MaybeNode_0, l2, r)
        },
        LayoutCommand::Ascend => {
            s2 == s && l2 == ask(l, l2, Req::AscendSelection(layout)) && r == nothing()
        },
        LayoutCommand::Descend => {
            s2 == s && l2 == ask(l, l2, Req::DescendSelection(layout)) && r == nothing()
        },
        LayoutCommand::MoveNode(direction) => {
            s2 == s && node_moved(s, l, space, visible, direction, l2) && r == nothing()
        },
        LayoutCommand::Split(orientation) => {
            let t2 = ask(t1, l2, Req::SplitKind(orientation));
            &&& s2 == s
            &&& l2 == ask(t2, l2, Req::NestInContainer(layout, selection, answer(t2)->Container_0))
            &&& r == nothing()
        },
        LayoutCommand::Group(orientation) => {
            s2 == s && grouped(l, layout, orientation, l2) && r == nothing()
        },
        LayoutCommand::Ungroup => s2 == s && ungrouped(l, layout, l2) && r == nothing(),
        LayoutCommand::ToggleFullscreen => {
            let t2 = ask(t1, l2, Req::ToggleFullscreen(selection));
            &&& s2 == s
            &&& if answer(t2)->Flag_0 {
                let t3 = ask(t2, l2, Req::TraversePreorder(selection));
                let nodes = answer(t3)->Nodes_0;
                &&& l2 == ask_each(t3, l2, window_questions(nodes))
                &&& r == Response {
                    raise: windows_named(l2, t3.len() as int, nodes.len()),
                    focus: None,
                }
            } else {
                l2 == t2 && r == nothing()
            }
        },
        LayoutCommand::Resize { direction, percent } => {
            s2 == s && resized(l, layout, direction, percent, l2) && r == nothing()
        },
        LayoutCommand::CycleColumnWidth => {
            s2 == s && width_cycled(s, l, layout, l2) && r == nothing()
        },
        LayoutCommand::ToggleColumnTabbed => {
            s2 == s && column_toggled(l, layout, l2) && r == nothing()
        },
        LayoutCommand::ChangeLayoutKind => {
            kind_changed(s, l, space, s2, l2) && r == nothing()
        },
        LayoutCommand::ToggleWindowFloating | LayoutCommand::ToggleFocusFloating => {
            s2 == s && l2 == l && r == nothing()
        },
    }
}

/// `wids` raised, `wanted` focused; where nothing is wanted, the last of `wids` is
/// focused in place of being raised.
pub open spec fn one_focused(wids: Seq<WindowId>, wanted: Option<WindowId>) -> Response {
    if wanted is Some || wids.len() == 0 {
        Response { raise: wids, focus: wanted }
    } else {
        Response { raise: wids.drop_last(), focus: Some(wids.last()) }
    }
}

/// The focus goes from the floating windows to the layout, or back.
pub open spec fn focus_toggled(s: State, l: Log, space: SpaceId, l2: Log, r: Response) -> bool {
    let layout = s.spaces[space];
    if s.is_floating() {
        let t1 = ask(l, l2, Req::Selection(layout));
        let t2 = ask(t1, l2, Req::WindowAt(answer(t1)->Node_0));
        let t3 = ask(t2, l2, Req::Root(layout));
        &&& l2 == ask(t3, l2, Req::VisibleWindowsUnder(answer(t3)->Node_0))
        &&& r == one_focused(answer(l2)->Windows_0, answer(t2)->MaybeWindow_0)
    } else {
        let floats = floats_in(s.active_floating, space);
        &&& l2 == l
        &&& r == one_focused(
            match s.last_floating {
                Some(last) => without(floats, last),
                None => floats,
            },
            s.last_floating,
        )
    }
}

/// The focused window, which floats, floats no longer.
pub open spec fn focused_sunk(
    s: State,
    l: Log,
    wid: WindowId,
    space: Option<SpaceId>,
    s2: State,
    l2: Log,
) -> bool {
    exists|m: State| #[trigger]
        float_removed(s, l, wid, space, m, l2) && s2 == State { last_floating: None, ..m }
}

/// The focused window floats if it did not, and the other way round.
pub open spec fn floating_toggled(
    s: State,
    l: Log,
    space: Option<SpaceId>,
    s2: State,
    l2: Log,
) -> bool {
    match s.focused {
        None => s2 == s && l2 == l,
        Some(wid) => if s.is_floating() {
            focused_sunk(s, l, wid, space, s2, l2)
        } else {
            &&& s2 == State { last_floating: Some(wid), ..float_added(s, wid, space) }
            &&& l2 == ask(l, l2, Req::RemoveWindow(wid))
        },
    }
}

/// What a command does in `space`. While a floating window has the focus, only the
/// command that moves the focus out does anything.
pub open spec fn handled_in(
    s: State,
    l: Log,
    space: SpaceId,
    visible: Seq<SpaceId>,
    command: LayoutCommand,
    s2: State,
    l2: Log,
    r: Response,
) -> bool {
    if command is ToggleFocusFloating {
        s2 == s && focus_toggled(s, l, space, l2, r)
    } else if s.is_floating() {
        s2 == s && l2 == l && r == nothing()
    } else {
        tiling_handled(s, l, space, visible, command, s2, l2, r)
    }
}

/// What the layout manager does on a command. Commands for scroll layouts are
/// ignored while those are off. Without a space, only the command that lets a
/// window float does anything.
pub open spec fn command_handled(
    s: State,
    l: Log,
    space: Option<SpaceId>,
    visible: Seq<SpaceId>,
    command: LayoutCommand,
    s2: State,
    l2: Log,
    r: Response,
) -> bool {
    if !s.scroll_enabled && command.is_for_scroll() {
        s2 == s && l2 == l && r == nothing()
    } else if command is ToggleWindowFloating {
        floating_toggled(s, l, space, s2, l2) && r == nothing()
    } else {
        match space {
            None => s2 == s && l2 == l && r == nothing(),
            Some(space) => if command.changes_layout() {
                let t = ask(l, l2, Req::PrepareModify(space));
                handled_in(
                    State { spaces: s.spaces.insert(space, answer(t)->Layout_0), ..s },
                    t,
                    space,
                    visible,
                    command,
                    s2,
                    l2,
                    r,
                )
            } else {
                handled_in(s, l, space, visible, command, s2, l2, r)
            },
        }
    }
}

/// The space on the next screen in a direction, if there is one, was exposed before.
pub open spec fn neighbour_exposed(
    s: State,
    visible: Seq<SpaceId>,
    space: SpaceId,
    direction: Direction,
) -> bool {
    match neighbour(visible, space, direction) {
        Some(other) => s.spaces.contains_key(other),
        None => true,
    }
}

/// Where all visible spaces were exposed, the next one was.
pub proof fn lemma_neighbour_exposed(
    s: State,
    visible: Seq<SpaceId>,
    space: SpaceId,
    direction: Direction,
)
    requires
        all_exposed(s, visible),
    ensures
        neighbour_exposed(s, visible, space, direction),
{
    if visible.len() > 1 && visible.contains(space) {
        let idx = visible.index_of_first(space)->0;
        let step: int = match direction {
            Direction::Left | Direction::Up => -1,
            Direction::Right | Direction::Down => 1,
        };
        vstd::arithmetic::div_mod::lemma_mod_bound(idx + step, visible.len() as int);
    }
}

/// The spaces that a command looks up were exposed before.
pub open spec fn command_known(
    s: State,
    space: Option<SpaceId>,
    visible: Seq<SpaceId>,
    command: LayoutCommand,
) -> bool {
    match space {
        None => true,
        Some(space) => s.spaces.contains_key(space) && match command {
            LayoutCommand::MoveFocus(direction) | LayoutCommand::MoveNode(direction) => {
                s.is_floating() || neighbour_exposed(s, visible, space, direction)
            },
            _ => true,
        },
    }
}

/// A step further round the circle.
proof fn lemma_step_round(index: int, offset: int, step: int, at: int, away: int, len: int)
    requires
        len > 0,
        at == (index + offset * step) % len,
        away == offset % len,
    ensures
        (index + offset * (step + 1)) % len == if at + away >= len {
            at + away - len
        } else {
            at + away
        },
{
    assert(index + offset * (step + 1) == (index + offset * step) + offset) by (nonlinear_arith);
    vstd::arithmetic::div_mod::lemma_add_mod_noop(index + offset * step, offset, len);
    vstd::arithmetic::div_mod::lemma_mod_bound(index + offset * step, len);
    vstd::arithmetic::div_mod::lemma_mod_bound(offset, len);
    if at + away >= len {
        vstd::arithmetic::div_mod::lemma_mod_add_multiples_vanish(at + away - len, len);
        vstd::arithmetic::div_mod::lemma_small_mod((at + away - len) as nat, len as nat);
    } else {
        vstd::arithmetic::div_mod::lemma_small_mod((at + away) as nat, len as nat);
    }
}

/// An offset as a step forward round a circle of `len`.
fn forward(offset: i16, len: usize) -> (away: usize)
    requires
        len > 0,
    ensures
        away == (offset as int) % (len as int),
{
    if offset >= 0 {
        let back: usize = offset as usize;
        back % len
    } else {
        let back: usize = (-(offset as i32)) as usize;
        let rest: usize = back % len;
        proof {
            let o = offset as int;
            let n = len as int;
            let q = (back as int) / n;
            assert(back as int == n * q + rest) by {
                vstd::arithmetic::div_mod::lemma_fundamental_div_mod(back as int, n);
            }
            if rest == 0 {
                assert(o == n * (-q)) by (nonlinear_arith)
                    requires
                        -o == n * q + 0,
                ;
                vstd::arithmetic::div_mod::lemma_mod_multiples_basic(-q, n);
                assert((-q) * n == n * (-q)) by (nonlinear_arith);
            } else {
                assert(o == n * (-q - 1) + (n - rest)) by (nonlinear_arith)
                    requires
                        -o == n * q + rest,
                ;
                vstd::arithmetic::div_mod::lemma_mod_multiples_vanish(-q - 1, n - rest, n);
                vstd::arithmetic::div_mod::lemma_small_mod((n - rest) as nat, n as nat);
            }
        }
        if rest == 0 {
            0
        } else {
            len - rest
        }
    }
}

impl LayoutManager {
    fn select_layout<H: LayoutHost>(&mut self, link: &mut Link<H>, space: SpaceId, layout: LayoutId)
        ensures
            layout_selected(
                old(self)@,
                old(link).log(),
                space,
                layout,
                final(self)@,
                final(link).log(),
            ),
    {
        let active = link.select_layout(space, layout);
        self.layout_mapping.insert(space, active);
    }

    /// The first layout on the way that is no scroll layout, and how many were passed over.
    fn find_tree_layout<H: LayoutHost>(
        &self,
        link: &mut Link<H>,
        layouts: &Vec<LayoutId>,
        index: u16,
        offset: i16,
    ) -> (found: Option<(usize, LayoutId)>)
        requires
            layouts@.len() > 0,
        ensures
            asked_until(
                old(link).log(),
                scroll_questions(layouts@, index as int, offset as int),
                false,
                final(link).log(),
                match found {
                    Some((passed, _)) => Some(passed as int),
                    None => None,
                },
            ),
            match found {
                Some((passed, layout)) => layout == layout_away(
                    layouts@,
                    index as int,
                    offset as int,
                    passed + 1,
                ),
                None => true,
            },
            grew(old(link).log(), final(link).log()),
    {
        let len: usize = layouts.len();
        let ghost l = link.log();
        let away: usize = forward(offset, len);
        let mut at: usize = index as usize % len;
        let mut passed: usize = 0;
        let ghost reqs = scroll_questions(layouts@, index as int, offset as int);
        proof {
            assert(offset * 0 == 0);
            lemma_asked_none(l, reqs, false);
        }
        while passed < len
            invariant
                l == old(link).log(),
                len == layouts@.len(),
                len > 0,
                passed <= len,
                at == (index + offset * passed) % (len as int),
                away == (offset as int) % (len as int),
                reqs == scroll_questions(layouts@, index as int, offset as int),
                grew(l, link.log()),
                asked_in_vain(l, reqs, false, passed as int, link.log()),
            decreases len - passed,
        {
            proof {
                lemma_step_round(
                    index as int,
                    offset as int,
                    passed as int,
                    at as int,
                    away as int,
                    len as int,
                );
            }
            at = if at >= len - away {
                at - (len - away)
            } else {
                at + away
            };
            let candidate = layouts[at];
            let ghost t = link.log();
            let is_scroll = link.is_scroll_layout(candidate);
            proof {
                assert(reqs[passed as int] == Req::IsScrollLayout(candidate));
                lemma_asked_on(l, reqs, false, passed as int, t, Rep::Flag(is_scroll));
            }
            if !is_scroll {
                return Some((passed, candidate));
            }
            passed += 1;
        }
        proof {
            lemma_asked_all(l, reqs, false, link.log());
        }
        None
    }

    /// Takes the next layout of `space`, `offset` away from the one in use. Scroll
    /// layouts are passed over unless `allow_scroll`. Returns the layout in use.
    pub fn change_layout_index_filtered<H: LayoutHost>(
        &mut self,
        link: &mut Link<H>,
        space: SpaceId,
        offset: i16,
        allow_scroll: bool,
    ) -> (layout: LayoutId)
        requires
            old(self)@.spaces.contains_key(space),
        ensures
            index_changed(
                old(self)@,
                old(link).log(),
                space,
                offset as int,
                allow_scroll,
                final(self)@,
                final(link).log(),
                layout,
            ),
            grew(old(link).log(), final(link).log()),
    {
        let ghost s = self@;
        let layouts = link.layouts(space);
        let len: usize = layouts.len();
        if len <= 1 {
            return self.layout(space);
        }
        let index: u16 = link.active_layout_index(space);
        let ghost l = link.log();
        if allow_scroll {
            let away: usize = forward(offset, len);
            let at: usize = index as usize % len;
            proof {
                assert(offset * 0 == 0);
                lemma_step_round(
                    index as int,
                    offset as int,
                    0,
                    at as int,
                    away as int,
                    len as int,
                );
            }
            let next: usize = if at >= len - away {
                at - (len - away)
            } else {
                at + away
            };
            let candidate = layouts[next];
            self.select_layout(link, space, candidate);
            return candidate;
        }
        let found = self.find_tree_layout(link, &layouts, index, offset);
        let ghost t = link.log();
        let ghost at: Option<int> = match found {
            Some((passed, _)) => Some(passed as int),
            None => None,
        };
        let layout = match found {
            Some((_, candidate)) => {
                self.select_layout(link, space, candidate);
                candidate
            },
            None => self.layout(space),
        };
        assert(asked_until(
            l,
            scroll_questions(layouts@, index as int, offset as int),
            false,
            t,
            at,
        ));
        assert(tree_layout_found(
            s,
            l,
            space,
            layouts@,
            index as int,
            offset as int,
            self@,
            link.log(),
            layout,
        ));
        layout
    }

    fn switch_layout<H: LayoutHost>(&mut self, link: &mut Link<H>, space: SpaceId, offset: i16)
        requires
            old(self)@.spaces.contains_key(space),
        ensures
            layout_switched(
                old(self)@,
                old(link).log(),
                space,
                offset as int,
                final(self)@,
                final(link).log(),
            ),
            grew(old(link).log(), final(link).log()),
    {
        let ghost s = self@;
        let ghost l = link.log();
        let allow_scroll = self.scroll_enabled;
        let layout = self.change_layout_index_filtered(link, space, offset, allow_scroll);
        let ghost t = link.log();
        if let Some(wid) = self.focused_window {
            if let Some(node) = link.window_node(layout, wid) {
                link.select(node);
            }
        }
        assert(index_changed(s, l, space, offset as int, s.scroll_enabled, self@, t, layout));
        assert(focused_selected(s, t, layout, link.log()));
        assert(layout_switched(s, l, space, offset as int, self@, link.log()));
    }

    /// Selects a node and answers with what to focus and to raise.
    pub(crate) fn focus_node<H: LayoutHost>(&self, link: &mut Link<H>, node: Option<NodeId>) -> (response:
        EventResponse)
        ensures
            node_focused(old(link).log(), node, final(link).log(), response@),
            grew(old(link).log(), final(link).log()),
    {
        match node {
            Some(node) => {
                let focus_window = link.window_at(node);
                let raise_windows = link.select_returning_surfaced_windows(node);
                EventResponse { raise_windows, focus_window }
            },
            None => EventResponse::default(),
        }
    }

    fn move_focus<H: LayoutHost>(
        &self,
        link: &mut Link<H>,
        space: SpaceId,
        visible_spaces: &[SpaceId],
        direction: Direction,
    ) -> (response: EventResponse)
        requires
            self@.spaces.contains_key(space),
            neighbour_exposed(self@, visible_spaces@, space, direction),
        ensures
            focus_moved(
                self@,
                old(link).log(),
                space,
                visible_spaces@,
                direction,
                final(link).log(),
                response@,
            ),
            grew(old(link).log(), final(link).log()),
    {
        let layout = self.layout(space);
        let is_scroll = link.is_scroll_layout(layout);
        let use_wrapping = self.scroll_enabled && is_scroll && self.scroll_cfg.infinite_loop && (
        direction == Direction::Left || direction == Direction::Right);
        let selection = link.selection(layout);
        let mut new_focus = if use_wrapping {
            link.traverse_scroll_wrapping(layout, selection, direction)
        } else {
            link.traverse(selection, direction)
        };
        if new_focus.is_none() {
            if let Some(other) = next_space(visible_spaces, space, direction) {
                let other_layout = self.layout(other);
                new_focus = Some(link.selection(other_layout));
            }
        }
        let ghost t = link.log();
        if new_focus.is_some() && is_scroll {
            self.clear_user_scrolling(link, space);
        }
        let response = self.focus_node(link, new_focus);
        assert(stepped_to(self@, t, space, is_scroll, new_focus, link.log(), response@));
        response
    }

    fn move_node<H: LayoutHost>(
        &self,
        link: &mut Link<H>,
        space: SpaceId,
        visible_spaces: &[SpaceId],
        direction: Direction,
    )
        requires
            self@.spaces.contains_key(space),
            neighbour_exposed(self@, visible_spaces@, space, direction),
        ensures
            node_moved(
                self@,
                old(link).log(),
                space,
                visible_spaces@,
                direction,
                final(link).log(),
            ),
            grew(old(link).log(), final(link).log()),
    {
        let layout = self.layout(space);
        let selection = link.selection(layout);
        if !link.move_node(layout, selection, direction) {
            if let Some(other) = next_space(visible_spaces, space, direction) {
                let other_layout = self.layout(other);
                let target = link.selection(other_layout);
                link.move_node_after(target, selection);
            }
        }
    }

    fn group<H: LayoutHost>(&self, link: &mut Link<H>, layout: LayoutId, orientation: Orientation)
        ensures
            grouped(old(link).log(), layout, orientation, final(link).log()),
            grew(old(link).log(), final(link).log()),
    {
        let selection = link.selection(layout);
        if let Some(parent) = link.parent(selection) {
            let kind = link.group_kind(orientation);
            link.set_container_kind(parent, kind);
        }
    }

    fn ungroup<H: LayoutHost>(&self, link: &mut Link<H>, layout: LayoutId)
        ensures
            ungrouped(old(link).log(), layout, final(link).log()),
            grew(old(link).log(), final(link).log()),
    {
        let selection = link.selection(layout);
        if let Some(parent) = link.parent(selection) {
            let kind = link.container_kind(parent);
            if link.is_group_kind(kind) {
                let before = link.last_ungrouped_container_kind(parent);
                link.set_container_kind(parent, before);
            }
        }
    }

    fn clamp_percent<H: LayoutHost>(&self, link: &mut Link<H>, percent: Real) -> (within: Real)
        ensures
            clamped(old(link).log(), percent, final(link).log(), within),
            grew(old(link).log(), final(link).log()),
    {
        if link.less(percent, Real(MINUS_HUNDRED)) {
            Real(MINUS_HUNDRED)
        } else if link.less(Real(HUNDRED), percent) {
            Real(HUNDRED)
        } else {
            percent
        }
    }

    fn resize<H: LayoutHost>(
        &self,
        link: &mut Link<H>,
        layout: LayoutId,
        direction: Direction,
        percent: Real,
    )
        ensures
            resized(old(link).log(), layout, direction, percent, final(link).log()),
            grew(old(link).log(), final(link).log()),
    {
        let within = self.clamp_percent(link, percent);
        let node = link.selection(layout);
        let ratio = link.binary(Binary::Divide, within, Real(HUNDRED));
        let _ = link.resize(node, ratio, direction);
    }

    /// The first preset that is wider than `bound`.
    fn find_wider<H: LayoutHost>(&self, link: &mut Link<H>, bound: Real) -> (found: Option<usize>)
        ensures
            asked_until(
                old(link).log(),
                width_questions(self@.scroll.column_width_presets, bound),
                true,
                final(link).log(),
                match found {
                    Some(i) => Some(i as int),
                    None => None,
                },
            ),
            grew(old(link).log(), final(link).log()),
    {
        let presets = &self.scroll_cfg.column_width_presets;
        let ghost l = link.log();
        let ghost reqs = width_questions(presets@, bound);
        let mut i: usize = 0;
        proof {
            lemma_asked_none(l, reqs, true);
        }
        while i < presets.len()
            invariant
                l == old(link).log(),
                i <= presets@.len(),
                presets@ == self@.scroll.column_width_presets,
                reqs == width_questions(presets@, bound),
                asked_in_vain(l, reqs, true, i as int, link.log()),
                grew(l, link.log()),
            decreases presets@.len() - i,
        {
            let ghost t = link.log();
            let wider = link.less(bound, presets[i]);
            proof {
                assert(reqs[i as int] == Req::Less(bound, presets@[i as int]));
                lemma_asked_on(l, reqs, true, i as int, t, Rep::Flag(wider));
            }
            if wider {
                return Some(i);
            }
            i += 1;
        }
        proof {
            lemma_asked_all(l, reqs, true, link.log());
        }
        None
    }

    fn set_width<H: LayoutHost>(
        &self,
        link: &mut Link<H>,
        column: NodeId,
        current: Real,
        next: Real,
    )
        ensures
            width_set(old(link).log(), column, current, next, final(link).log()),
            grew(old(link).log(), final(link).log()),
    {
        let delta = link.binary(Binary::Subtract, next, current);
        let size = link.unary(Unary::Abs, delta);
        if link.less(Real(LEAST_RESIZE), size) {
            let _ = link.resize(column, delta, Direction::Right);
        }
    }

    fn cycle_column<H: LayoutHost>(&self, link: &mut Link<H>, column: NodeId)
        requires
            self@.scroll.column_width_presets.len() > 0,
        ensures
            column_cycled(
                old(link).log(),
                self@.scroll.column_width_presets,
                column,
                final(link).log(),
            ),
            grew(old(link).log(), final(link).log()),
    {
        let current = match link.proportion(column) {
            Some(current) => current,
            None => Real(ONE),
        };
        let bound = link.binary(Binary::Add, current, Real(PRESET_MARGIN));
        let ghost l = link.log();
        let found = self.find_wider(link, bound);
        let ghost at: Option<int> = match found {
            Some(i) => Some(i as int),
            None => None,
        };
        assert(asked_until(
            l,
            width_questions(self@.scroll.column_width_presets, bound),
            true,
            link.log(),
            at,
        ));
        let next = match found {
            Some(i) => self.scroll_cfg.column_width_presets[i],
            None => self.scroll_cfg.column_width_presets[0],
        };
        self.set_width(link, column, current, next);
        assert(width_chosen(
            l,
            self@.scroll.column_width_presets,
            bound,
            column,
            current,
            link.log(),
        ));
    }

    fn cycle_width<H: LayoutHost>(&self, link: &mut Link<H>, layout: LayoutId)
        ensures
            width_cycled(self@, old(link).log(), layout, final(link).log()),
            grew(old(link).log(), final(link).log()),
    {
        if !link.is_scroll_layout(layout) || self.scroll_cfg.column_width_presets.len() == 0 {
            return;
        }
        let selection = link.selection(layout);
        if let Some(column) = link.column_of(layout, selection) {
            self.cycle_column(link, column);
        }
    }

    fn toggle_column<H: LayoutHost>(&self, link: &mut Link<H>, layout: LayoutId)
        ensures
            column_toggled(old(link).log(), layout, final(link).log()),
            grew(old(link).log(), final(link).log()),
    {
        if !link.is_scroll_layout(layout) {
            return;
        }
        let selection = link.selection(layout);
        if let Some(column) = link.column_of(layout, selection) {
            let kind = match link.container_kind(column) {
                ContainerKind::Vertical => ContainerKind::Tabbed,
                ContainerKind::Tabbed => ContainerKind::Vertical,
                other => other,
            };
            link.set_container_kind(column, kind);
        }
    }

    fn handle_tiling_command<H: LayoutHost>(
        &mut self,
        link: &mut Link<H>,
        space: SpaceId,
        visible_spaces: &[SpaceId],
        command: LayoutCommand,
    ) -> (response: EventResponse)
        requires
            command_known(old(self)@, Some(space), visible_spaces@, command),
            !old(self)@.is_floating(),
        ensures
            tiling_handled(
                old(self)@,
                old(link).log(),
                space,
                visible_spaces@,
                command,
                final(self)@,
                final(link).log(),
                response@,
            ),
            grew(old(link).log(), final(link).log()),
    {
        let layout = self.layout(space);
        match command {
            LayoutCommand::NextLayout => {
                self.switch_layout(link, space, 1);
            },
            LayoutCommand::PrevLayout => {
                self.switch_layout(link, space, -1);
            },
            LayoutCommand::MoveFocus(direction) => {
                return self.move_focus(link, space, visible_spaces, direction);
            },
            LayoutCommand::FocusNext => {
                let selection = link.selection(layout);
                let node = link.focus_next(layout, selection);
                return self.focus_node(link, node);
            },
            LayoutCommand::FocusPrev => {
                let selection = link.selection(layout);
                let node = link.focus_prev(layout, selection);
                return self.focus_node(link, node);
            },
            LayoutCommand::Ascend => {
                link.ascend_selection(layout);
            },
            LayoutCommand::Descend => {
                link.descend_selection(layout);
            },
            LayoutCommand::MoveNode(direction) => {
                self.move_node(link, space, visible_spaces, direction);
            },
            LayoutCommand::Split(orientation) => {
                let selection = link.selection(layout);
                let kind = link.split_kind(orientation);
                link.nest_in_container(layout, selection, kind);
            },
            LayoutCommand::Group(orientation) => {
                self.group(link, layout, orientation);
            },
            LayoutCommand::Ungroup => {
                self.ungroup(link, layout);
            },
            LayoutCommand::ToggleFullscreen => {
                let node = link.selection(layout);
                if link.toggle_fullscreen(node) {
                    // If the node has several windows, all of them go on top.
                    let nodes = link.traverse_preorder(node);
                    let raise_windows = windows_at(link, &nodes);
                    return EventResponse { raise_windows, focus_window: None };
                }
            },
            LayoutCommand::Resize { direction, percent } => {
                self.resize(link, layout, direction, percent);
            },
            LayoutCommand::CycleColumnWidth => {
                self.cycle_width(link, layout);
            },
            LayoutCommand::ToggleColumnTabbed => {
                self.toggle_column(link, layout);
            },
            LayoutCommand::ChangeLayoutKind => {
                let kind = match link.layout_kind(layout) {
                    LayoutKind::Tree => LayoutKind::Scroll,
                    LayoutKind::Scroll => LayoutKind::Tree,
                };
                self.convert_active(link, space, kind);
            },
            LayoutCommand::ToggleWindowFloating | LayoutCommand::ToggleFocusFloating => {},
        }
        EventResponse::default()
    }

    fn toggle_focus_floating<H: LayoutHost>(&self, link: &mut Link<H>, space: SpaceId) -> (response:
        EventResponse)
        requires
            self@.spaces.contains_key(space),
        ensures
            focus_toggled(self@, old(link).log(), space, final(link).log(), response@),
            grew(old(link).log(), final(link).log()),
    {
        let mut raise_windows: Vec<WindowId>;
        let wanted;
        if self.is_floating() {
            let layout = self.layout(space);
            let selection = link.selection(layout);
            wanted = link.window_at(selection);
            let root = link.root(layout);
            raise_windows = link.visible_windows_under(root);
        } else {
            let floats = self.active_floats(space);
            wanted = self.last_floating_focus;
            raise_windows = match self.last_floating_focus {
                Some(last) => list_without(floats.as_slice(), last),
                None => floats,
            };
        }
        // Some window has to get the focus. If none is wanted, one is picked.
        let focus_window = match wanted {
            Some(wid) => Some(wid),
            None => raise_windows.pop(),
        };
        EventResponse { raise_windows, focus_window }
    }

    fn toggle_window_floating<H: LayoutHost>(&mut self, link: &mut Link<H>, space: Option<SpaceId>)
        requires
            space is Some ==> old(self)@.spaces.contains_key(space->0),
        ensures
            floating_toggled(old(self)@, old(link).log(), space, final(self)@, final(link).log()),
            grew(old(link).log(), final(link).log()),
    {
        if let Some(wid) = self.focused_window {
            if self.is_floating() {
                self.remove_floating_window(link, wid, space);
                let ghost m = self@;
                self.last_floating_focus = None;
                assert(float_removed(old(self)@, old(link).log(), wid, space, m, link.log()));
                assert(focused_sunk(
                    old(self)@,
                    old(link).log(),
                    wid,
                    space,
                    self@,
                    link.log(),
                ));
            } else {
                self.add_floating_window(wid, space);
                link.remove_window(wid);
                self.last_floating_focus = Some(wid);
            }
        }
    }

    /// Handles a command for `space`. `visible_spaces` are the spaces on the screens, in order.
    pub fn handle_command<H: LayoutHost>(
        &mut self,
        link: &mut Link<H>,
        space: Option<SpaceId>,
        visible_spaces: &[SpaceId],
        command: LayoutCommand,
    ) -> (response: EventResponse)
        requires
            command_known(old(self)@, space, visible_spaces@, command),
        ensures
            command_handled(
                old(self)@,
                old(link).log(),
                space,
                visible_spaces@,
                command,
                final(self)@,
                final(link).log(),
                response@,
            ),
            grew(old(link).log(), final(link).log()),
    {
        if !self.scroll_enabled && command.needs_scroll() {
            return EventResponse::default();
        }
        if let LayoutCommand::ToggleWindowFloating = command {
            // This is the only command that works where the space is not managed.
            self.toggle_window_floating(link, space);
            return EventResponse::default();
        }
        let space = match space {
            Some(space) => space,
            None => {
                return EventResponse::default();
            },
        };
        if command.modifies_layout() {
            let active = link.prepare_modify(space);
            self.layout_mapping.insert(space, active);
        }
        if let LayoutCommand::ToggleFocusFloating = command {
            return self.toggle_focus_floating(link, space);
        }
        // The remaining commands work on the layout only.
        if self.is_floating() {
            return EventResponse::default();
        }
        self.handle_tiling_command(link, space, visible_spaces, command)
    }
}

} // verus!
