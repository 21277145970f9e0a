//! What each command is for.
//!
//! The laws say what is done on a command, and which windows are raised and focused,
//! by what the host answers to the questions about its tree. `reply` is how it answers
//! at that time.

use vstd::prelude::*;

use crate::collections::without;
use crate::deeds::{
    deeds, group_deeds, is_question, lemma_deeds_join, lemma_each_asked, lemma_reply,
    lemma_reply_part,
};
use crate::ids::{
    ContainerKind, Direction, LayoutId, NodeId, Orientation, Real, SpaceId, WindowId, ONE,
};
use crate::layout::commands::{
    clamped, column_cycled, command_handled, focus_moved, focused_selected, goes_round,
    index_changed, layout_away, layout_selected, layout_switched, neighbour, node_focused,
    other_kind, scroll_questions, stepped_to, tiling_handled, width_chosen, width_questions,
    width_set, LayoutCommand, DEFAULT_RESIZE_PERCENT, HUNDRED, LEAST_RESIZE, MINUS_HUNDRED,
    PRESET_MARGIN,
};
use crate::layout::conversion::{active_replaced, converted};
use crate::layout::event_laws::{lemma_left_out, lemma_with};
use crate::layout::events::scrolling_cleared;
use crate::layout::floating::floats_in;
use crate::layout::laws::lemma_converted_grows;
use crate::layout::state::{ActiveFloat, State};
use crate::layout::traversal::{window_questions, windows_named};
use crate::layout::update_laws::lemma_filtered;
use crate::link::{answer, answered_by, ask, asked_until, grew, Binary, Log, Rep, Req, Unary};
use crate::response::{nothing, Response};

verus! {

/// The spaces on screen lie in a circle: to the right of each, and below it, is the one
/// that follows it in the list, and to the left, and above, the one that precedes it.
pub proof fn law_neighbours_lie_in_order(visible: Seq<SpaceId>, i: int)
    requires
        visible.no_duplicates(),
        visible.len() > 1,
        0 <= i < visible.len(),
    ensures
        i + 1 < visible.len() ==> {
            &&& neighbour(visible, visible[i], Direction::Right) == Some(visible[i + 1])
            &&& neighbour(visible, visible[i], Direction::Down) == Some(visible[i + 1])
            &&& neighbour(visible, visible[i + 1], Direction::Left) == Some(visible[i])
            &&& neighbour(visible, visible[i + 1], Direction::Up) == Some(visible[i])
        },
        neighbour(visible, visible.last(), Direction::Right) == Some(visible[0]),
        neighbour(visible, visible.last(), Direction::Down) == Some(visible[0]),
        neighbour(visible, visible[0], Direction::Left) == Some(visible.last()),
        neighbour(visible, visible[0], Direction::Up) == Some(visible.last()),
{
    let n = visible.len() as int;
    assert forall|k: int| 0 <= k < n implies visible.index_of_first(#[trigger] visible[k]) == Some(
        k,
    ) by {
        visible.index_of_first_ensures(visible[k]);
    }
    assert(visible[0] == visible[0]);
    assert(visible[n - 1] == visible.last());
    assert((n - 1 + 1) % n == 0) by (nonlinear_arith)
        requires
            n > 1,
    ;
    assert((0 - 1) % n == n - 1) by (nonlinear_arith)
        requires
            n > 1,
    ;
    if i + 1 < n {
        vstd::arithmetic::div_mod::lemma_small_mod((i + 1) as nat, n as nat);
        vstd::arithmetic::div_mod::lemma_small_mod(i as nat, n as nat);
        assert(visible[i + 1] == visible[i + 1]);
    }
}

/// Where only one space is on screen, or the space is not among those, there is no
/// neighbour.
pub proof fn law_no_neighbour(visible: Seq<SpaceId>, space: SpaceId, direction: Direction)
    requires
        visible.len() <= 1 || !visible.contains(space),
    ensures
        neighbour(visible, space, direction) is None,
{
}

/// The focus goes to the node that the tree has next to the selection in the direction of
/// the command. Where it has none, it goes to the selection of the space on the next screen
/// that way, and where there is none either, nothing happens. In a scroll layout whose ends
/// are to meet, the way sideways goes round. The viewport of a scroll layout follows again.
pub proof fn law_focus_moves_that_way(
    s: State,
    l: Log,
    space: SpaceId,
    visible: Seq<SpaceId>,
    direction: Direction,
    s2: State,
    l2: Log,
    r: Response,
    reply: spec_fn(Req) -> Rep,
)
    requires
        command_handled(s, l, Some(space), visible, LayoutCommand::MoveFocus(direction), s2, l2, r),
        !s.is_floating(),
        answered_by(reply, l2, l.len() as int),
    ensures
        s2 == s,
        ({
            let layout = s.spaces[space];
            let selection = reply(Req::Selection(layout))->Node_0;
            let scrolls = reply(Req::IsScrollLayout(layout))->Flag_0;
            let sideways = direction == Direction::Left || direction == Direction::Right;
            let beside = if s.scroll_enabled && scrolls && s.scroll.infinite_loop && sideways {
                reply(Req::TraverseScrollWrapping(layout, selection, direction))->MaybeNode_0
            } else {
                reply(Req::Traverse(selection, direction))->MaybeNode_0
            };
            let there = match neighbour(visible, space, direction) {
                Some(other) => Some(reply(Req::Selection(s.spaces[other]))->Node_0),
                None => None,
            };
            let target = if beside is Some {
                beside
            } else {
                there
            };
            let done = deeds(l2, l.len() as int);
            match target {
                Some(node) => {
                    &&& r.focus == reply(Req::WindowAt(node))->MaybeWindow_0
                    &&& r.raise == reply(Req::SelectReturningSurfacedWindows(node))->Windows_0
                    &&& done == if scrolls && s.viewports.contains(layout) {
                        seq![
                            Req::StopUserScrolling(layout),
                            Req::SelectReturningSurfacedWindows(node),
                        ]
                    } else {
                        seq![Req::SelectReturningSurfacedWindows(node)]
                    }
                },
                None => r == nothing() && done == Seq::<Req>::empty(),
            }
        }),
{
    broadcast use group_deeds;

    let n = l.len() as int;
    let layout = s.spaces[space];
    let t1 = ask(l, l2, Req::IsScrollLayout(layout));
    let t2 = ask(t1, l2, Req::Selection(layout));
    let scrolls = answer(t1)->Flag_0;
    let selection = answer(t2)->Node_0;
    let req = if goes_round(s, scrolls, direction) {
        Req::TraverseScrollWrapping(layout, selection, direction)
    } else {
        Req::Traverse(selection, direction)
    };
    let t3 = ask(t2, l2, req);
    let next = answer(t3)->MaybeNode_0;
    let other = neighbour(visible, space, direction);
    if next is None && other is Some {
        let t4 = ask(t3, l2, Req::Selection(s.spaces[other->0]));
        let node = answer(t4)->Node_0;
        lemma_stepped(s, t4, space, scrolls, Some(node), l2, r, reply, n);
        lemma_reply(reply, t3, l2, Req::Selection(s.spaces[other->0]), n);
    } else {
        lemma_stepped(s, t3, space, scrolls, next, l2, r, reply, n);
    }
    lemma_reply(reply, t2, l2, req, n);
    lemma_reply(reply, t1, l2, Req::Selection(layout), n);
    lemma_reply(reply, l, l2, Req::IsScrollLayout(layout), n);
}

/// What is done at the end of a step to a node.
proof fn lemma_stepped(
    s: State,
    l: Log,
    space: SpaceId,
    scrolls: bool,
    node: Option<NodeId>,
    l2: Log,
    r: Response,
    reply: spec_fn(Req) -> Rep,
    from: int,
)
    requires
        stepped_to(s, l, space, scrolls, node, l2, r),
        answered_by(reply, l2, from),
        0 <= from <= l.len(),
    ensures
        grew(l, l2),
        node is None ==> l2 == l && r == nothing(),
        node is Some ==> {
            &&& r.focus == reply(Req::WindowAt(node->0))->MaybeWindow_0
            &&& r.raise == reply(Req::SelectReturningSurfacedWindows(node->0))->Windows_0
            &&& deeds(l2, from) == if scrolls && s.viewports.contains(s.spaces[space]) {
                deeds(l, from).push(Req::StopUserScrolling(s.spaces[space])).push(
                    Req::SelectReturningSurfacedWindows(node->0),
                )
            } else {
                deeds(l, from).push(Req::SelectReturningSurfacedWindows(node->0))
            }
        },
{
    broadcast use group_deeds;

    if node is Some {
        let t = if scrolls {
            choose|t: Log| #[trigger]
                scrolling_cleared(s, l, space, t) && node_focused(t, node, l2, r)
        } else {
            l
        };
        assert(node_focused(t, node, l2, r));
        let t1 = ask(t, l2, Req::WindowAt(node->0));
        lemma_reply(reply, t1, l2, Req::SelectReturningSurfacedWindows(node->0), from);
        lemma_reply(reply, t, l2, Req::WindowAt(node->0), from);
    }
}

/// The selected node is moved in the direction of the command. Where it cannot go on there,
/// it is put behind the selection of the space on the next screen that way, if there is one.
pub proof fn law_node_moves_that_way(
    s: State,
    l: Log,
    space: SpaceId,
    visible: Seq<SpaceId>,
    direction: Direction,
    s2: State,
    l2: Log,
    r: Response,
    reply: spec_fn(Req) -> Rep,
)
    requires
        command_handled(s, l, Some(space), visible, LayoutCommand::MoveNode(direction), s2, l2, r),
        !s.is_floating(),
        answered_by(reply, l2, l.len() as int),
    ensures
        r == nothing(),
        ({
            let layout = reply(Req::PrepareModify(space))->Layout_0;
            let selection = reply(Req::Selection(layout))->Node_0;
            let moved = reply(Req::MoveNode(layout, selection, direction))->Flag_0;
            &&& s2 == State { spaces: s.spaces.insert(space, layout), ..s }
            &&& deeds(l2, l.len() as int) == match neighbour(visible, space, direction) {
                Some(other) if !moved => seq![
                    Req::PrepareModify(space),
                    Req::MoveNode(layout, selection, direction),
                    Req::MoveNodeAfter(
                        reply(Req::Selection(s2.spaces[other]))->Node_0,
                        selection,
                    ),
                ],
                _ => seq![
                    Req::PrepareModify(space),
                    Req::MoveNode(layout, selection, direction),
                ],
            }
        }),
{
    broadcast use group_deeds;

    let n = l.len() as int;
    let t0 = ask(l, l2, Req::PrepareModify(space));
    let layout = answer(t0)->Layout_0;
    let s1 = State { spaces: s.spaces.insert(space, layout), ..s };
    let t1 = ask(t0, l2, Req::Selection(layout));
    let selection = answer(t1)->Node_0;
    let req = Req::MoveNode(layout, selection, direction);
    let t2 = ask(t1, l2, req);
    if !answer(t2)->Flag_0 && neighbour(visible, space, direction) is Some {
        let other = neighbour(visible, space, direction)->0;
        let t3 = ask(t2, l2, Req::Selection(s1.spaces[other]));
        lemma_reply(reply, t2, l2, Req::Selection(s1.spaces[other]), n);
    }
    lemma_reply(reply, t1, l2, req, n);
    lemma_reply(reply, t0, l2, Req::Selection(layout), n);
    lemma_reply(reply, l, l2, Req::PrepareModify(space), n);
}

/// The focus goes to the window node that the tree has after the selection.
pub proof fn law_focus_goes_to_next(
    s: State,
    l: Log,
    space: SpaceId,
    visible: Seq<SpaceId>,
    s2: State,
    l2: Log,
    r: Response,
    reply: spec_fn(Req) -> Rep,
)
    requires
        command_handled(s, l, Some(space), visible, LayoutCommand::FocusNext, s2, l2, r),
        !s.is_floating(),
        answered_by(reply, l2, l.len() as int),
    ensures
        s2 == s,
        ({
            let layout = s.spaces[space];
            let selection = reply(Req::Selection(layout))->Node_0;
            let done = deeds(l2, l.len() as int);
            match reply(Req::FocusNext(layout, selection))->MaybeNode_0 {
                Some(node) => {
                    &&& r.focus == reply(Req::WindowAt(node))->MaybeWindow_0
                    &&& r.raise == reply(Req::SelectReturningSurfacedWindows(node))->Windows_0
                    &&& done == seq![Req::SelectReturningSurfacedWindows(node)]
                },
                None => r == nothing() && done == Seq::<Req>::empty(),
            }
        }),
{
    broadcast use group_deeds;

    let n = l.len() as int;
    let layout = s.spaces[space];
    let t1 = ask(l, l2, Req::Selection(layout));
    let req = Req::FocusNext(layout, answer(t1)->Node_0);
    let t2 = ask(t1, l2, req);
    let node = answer(t2)->MaybeNode_0;
    assert(stepped_to(s, t2, space, false, node, l2, r));
    lemma_stepped(s, t2, space, false, node, l2, r, reply, n);
    lemma_reply(reply, t1, l2, req, n);
    lemma_reply(reply, l, l2, Req::Selection(layout), n);
}

/// The focus goes to the window node that the tree has before the selection.
pub proof fn law_focus_goes_to_prev(
    s: State,
    l: Log,
    space: SpaceId,
    visible: Seq<SpaceId>,
    s2: State,
    l2: Log,
    r: Response,
    reply: spec_fn(Req) -> Rep,
)
    requires
        command_handled(s, l, Some(space), visible, LayoutCommand::FocusPrev, s2, l2, r),
        !s.is_floating(),
        answered_by(reply, l2, l.len() as int),
    ensures
        s2 == s,
        ({
            let layout = s.spaces[space];
            let selection = reply(Req::Selection(layout))->Node_0;
            let done = deeds(l2, l.len() as int);
            match reply(Req::FocusPrev(layout, selection))->MaybeNode_0 {
                Some(node) => {
                    &&& r.focus == reply(Req::WindowAt(node))->MaybeWindow_0
                    &&& r.raise == reply(Req::SelectReturningSurfacedWindows(node))->Windows_0
                    &&& done == seq![Req::SelectReturningSurfacedWindows(node)]
                },
                None => r == nothing() && done == Seq::<Req>::empty(),
            }
        }),
{
    broadcast use group_deeds;

    let n = l.len() as int;
    let layout = s.spaces[space];
    let t1 = ask(l, l2, Req::Selection(layout));
    let req = Req::FocusPrev(layout, answer(t1)->Node_0);
    let t2 = ask(t1, l2, req);
    let node = answer(t2)->MaybeNode_0;
    assert(stepped_to(s, t2, space, false, node, l2, r));
    lemma_stepped(s, t2, space, false, node, l2, r, reply, n);
    lemma_reply(reply, t1, l2, req, n);
    lemma_reply(reply, l, l2, Req::Selection(layout), n);
}

/// The selection goes up to the container.
pub proof fn law_selection_goes_up(
    s: State,
    l: Log,
    space: SpaceId,
    visible: Seq<SpaceId>,
    s2: State,
    l2: Log,
    r: Response,
    reply: spec_fn(Req) -> Rep,
)
    requires
        command_handled(s, l, Some(space), visible, LayoutCommand::Ascend, s2, l2, r),
        !s.is_floating(),
        answered_by(reply, l2, l.len() as int),
    ensures
        s2 == s,
        r == nothing(),
        deeds(l2, l.len() as int) == seq![Req::AscendSelection(s.spaces[space])],
{
    broadcast use group_deeds;

}

/// The selection goes down into the container.
pub proof fn law_selection_goes_down(
    s: State,
    l: Log,
    space: SpaceId,
    visible: Seq<SpaceId>,
    s2: State,
    l2: Log,
    r: Response,
    reply: spec_fn(Req) -> Rep,
)
    requires
        command_handled(s, l, Some(space), visible, LayoutCommand::Descend, s2, l2, r),
        !s.is_floating(),
        answered_by(reply, l2, l.len() as int),
    ensures
        s2 == s,
        r == nothing(),
        deeds(l2, l.len() as int) == seq![Req::DescendSelection(s.spaces[space])],
{
    broadcast use group_deeds;

}

/// A split puts the selected node into a container of its own that splits along the
/// orientation of the command.
pub proof fn law_split_nests_the_selection(
    s: State,
    l: Log,
    space: SpaceId,
    visible: Seq<SpaceId>,
    orientation: Orientation,
    s2: State,
    l2: Log,
    r: Response,
    reply: spec_fn(Req) -> Rep,
)
    requires
        command_handled(s, l, Some(space), visible, LayoutCommand::Split(orientation), s2, l2, r),
        !s.is_floating(),
        answered_by(reply, l2, l.len() as int),
    ensures
        s2 == s,
        r == nothing(),
        ({
            let layout = s.spaces[space];
            deeds(l2, l.len() as int) == seq![
                Req::NestInContainer(
                    layout,
                    reply(Req::Selection(layout))->Node_0,
                    reply(Req::SplitKind(orientation))->Container_0,
                ),
            ]
        }),
{
    broadcast use group_deeds;

    let n = l.len() as int;
    let layout = s.spaces[space];
    let t1 = ask(l, l2, Req::Selection(layout));
    lemma_reply(reply, t1, l2, Req::SplitKind(orientation), n);
    lemma_reply(reply, l, l2, Req::Selection(layout), n);
}

/// Grouping makes the container of the selected node a group along the orientation of the
/// command.
pub proof fn law_group_groups_the_container(
    s: State,
    l: Log,
    space: SpaceId,
    visible: Seq<SpaceId>,
    orientation: Orientation,
    s2: State,
    l2: Log,
    r: Response,
    reply: spec_fn(Req) -> Rep,
)
    requires
        command_handled(s, l, Some(space), visible, LayoutCommand::Group(orientation), s2, l2, r),
        !s.is_floating(),
        answered_by(reply, l2, l.len() as int),
    ensures
        r == nothing(),
        ({
            let layout = reply(Req::PrepareModify(space))->Layout_0;
            let selection = reply(Req::Selection(layout))->Node_0;
            &&& s2 == State { spaces: s.spaces.insert(space, layout), ..s }
            &&& deeds(l2, l.len() as int) == match reply(Req::Parent(selection))->MaybeNode_0 {
                Some(parent) => seq![
                    Req::PrepareModify(space),
                    Req::SetContainerKind(
                        parent,
                        reply(Req::GroupKind(orientation))->Container_0,
                    ),
                ],
                None => seq![Req::PrepareModify(space)],
            }
        }),
{
    broadcast use group_deeds;

    let n = l.len() as int;
    let t0 = ask(l, l2, Req::PrepareModify(space));
    let layout = answer(t0)->Layout_0;
    let t1 = ask(t0, l2, Req::Selection(layout));
    let parent = Req::Parent(answer(t1)->Node_0);
    let t2 = ask(t1, l2, parent);
    if answer(t2)->MaybeNode_0 is Some {
        lemma_reply(reply, t2, l2, Req::GroupKind(orientation), n);
    }
    lemma_reply(reply, t1, l2, parent, n);
    lemma_reply(reply, t0, l2, Req::Selection(layout), n);
    lemma_reply(reply, l, l2, Req::PrepareModify(space), n);
}

/// Ungrouping makes the container of the selected node what it was before it was grouped. A
/// container that is no group is left as it is.
pub proof fn law_ungroup_restores_the_container(
    s: State,
    l: Log,
    space: SpaceId,
    visible: Seq<SpaceId>,
    s2: State,
    l2: Log,
    r: Response,
    reply: spec_fn(Req) -> Rep,
)
    requires
        command_handled(s, l, Some(space), visible, LayoutCommand::Ungroup, s2, l2, r),
        !s.is_floating(),
        answered_by(reply, l2, l.len() as int),
    ensures
        r == nothing(),
        ({
            let layout = reply(Req::PrepareModify(space))->Layout_0;
            let selection = reply(Req::Selection(layout))->Node_0;
            let is_group = |node: NodeId|
                reply(Req::IsGroupKind(reply(Req::ContainerKind(node))->Container_0))->Flag_0;
            &&& s2 == State { spaces: s.spaces.insert(space, layout), ..s }
            &&& deeds(l2, l.len() as int) == match reply(Req::Parent(selection))->MaybeNode_0 {
                Some(parent) if is_group(parent) => seq![
                    Req::PrepareModify(space),
                    Req::SetContainerKind(
                        parent,
                        reply(Req::LastUngroupedContainerKind(parent))->Container_0,
                    ),
                ],
                _ => seq![Req::PrepareModify(space)],
            }
        }),
{
    broadcast use group_deeds;

    let n = l.len() as int;
    let t0 = ask(l, l2, Req::PrepareModify(space));
    let layout = answer(t0)->Layout_0;
    let t1 = ask(t0, l2, Req::Selection(layout));
    let req = Req::Parent(answer(t1)->Node_0);
    let t2 = ask(t1, l2, req);
    if let Some(parent) = answer(t2)->MaybeNode_0 {
        let t3 = ask(t2, l2, Req::ContainerKind(parent));
        let is_group = Req::IsGroupKind(answer(t3)->Container_0);
        let t4 = ask(t3, l2, is_group);
        if answer(t4)->Flag_0 {
            lemma_reply(reply, t4, l2, Req::LastUngroupedContainerKind(parent), n);
        }
        lemma_reply(reply, t3, l2, is_group, n);
        lemma_reply(reply, t2, l2, Req::ContainerKind(parent), n);
    }
    lemma_reply(reply, t1, l2, req, n);
    lemma_reply(reply, t0, l2, Req::Selection(layout), n);
    lemma_reply(reply, l, l2, Req::PrepareModify(space), n);
}

/// The selected node is resized in the direction of the command by its percentage, brought
/// within -100 and 100 and divided by 100. The numbers are bit patterns.
pub proof fn law_resize_by_percentage(
    s: State,
    l: Log,
    space: SpaceId,
    visible: Seq<SpaceId>,
    direction: Direction,
    percent: Real,
    s2: State,
    l2: Log,
    r: Response,
    reply: spec_fn(Req) -> Rep,
)
    requires
        command_handled(
            s,
            l,
            Some(space),
            visible,
            (LayoutCommand::Resize { direction, percent }),
            s2,
            l2,
            r,
        ),
        !s.is_floating(),
        answered_by(reply, l2, l.len() as int),
    ensures
        r == nothing(),
        ({
            let layout = reply(Req::PrepareModify(space))->Layout_0;
            let selection = reply(Req::Selection(layout))->Node_0;
            let hundred = Real(0x4059_0000_0000_0000);
            let minus_hundred = Real(0xc059_0000_0000_0000);
            let within = if reply(Req::Less(percent, minus_hundred))->Flag_0 {
                minus_hundred
            } else if reply(Req::Less(hundred, percent))->Flag_0 {
                hundred
            } else {
                percent
            };
            let ratio = reply(Req::Binary(Binary::Divide, within, hundred))->Number_0;
            &&& s2 == State { spaces: s.spaces.insert(space, layout), ..s }
            &&& deeds(l2, l.len() as int) == seq![
                Req::PrepareModify(space),
                Req::Resize(selection, ratio, direction),
            ]
        }),
{
    broadcast use group_deeds;

    let n = l.len() as int;
    let hundred = Real(HUNDRED);
    let minus_hundred = Real(MINUS_HUNDRED);
    let t0 = ask(l, l2, Req::PrepareModify(space));
    let layout = answer(t0)->Layout_0;
    let (t, within) = choose|t: Log, within: Real|
        {
            let t1 = ask(t, l2, Req::Selection(layout));
            let t2 = ask(t1, l2, Req::Binary(Binary::Divide, within, Real(HUNDRED)));
            &&& #[trigger] clamped(t0, percent, t, within)
            &&& l2 == ask(t2, l2, Req::Resize(answer(t1)->Node_0, answer(t2)->Number_0, direction))
        };
    let t1 = ask(t, l2, Req::Selection(layout));
    assert(grew(t, l2));
    lemma_reply_part(reply, t, l2, n);
    let c1 = ask(t0, t, Req::Less(percent, minus_hundred));
    if !answer(c1)->Flag_0 {
        lemma_reply(reply, c1, t, Req::Less(hundred, percent), n);
    }
    lemma_reply(reply, t0, t, Req::Less(percent, minus_hundred), n);
    lemma_reply(reply, t1, l2, Req::Binary(Binary::Divide, within, hundred), n);
    lemma_reply(reply, t, l2, Req::Selection(layout), n);
    assert(grew(t0, l2));
    lemma_reply(reply, l, l2, Req::PrepareModify(space), n);
}

/// The layout after the active one is taken, in a circle, and while scroll layouts are off the
/// first on the way that is none: `k` steps away. The focused window is selected there, if the
/// layout has it.
pub proof fn law_next_layout_is_taken(
    s: State,
    l: Log,
    space: SpaceId,
    visible: Seq<SpaceId>,
    k: int,
    s2: State,
    l2: Log,
    r: Response,
    reply: spec_fn(Req) -> Rep,
)
    requires
        command_handled(s, l, Some(space), visible, LayoutCommand::NextLayout, s2, l2, r),
        !s.is_floating(),
        answered_by(reply, l2, l.len() as int),
        ({
            let layouts = reply(Req::Layouts(space))->Layouts_0;
            let len = layouts.len() as int;
            let index = reply(Req::ActiveLayoutIndex(space))->Index_0 as int;
            &&& len > 1
            &&& 1 <= k <= len
            &&& s.scroll_enabled ==> k == 1
            &&& !s.scroll_enabled ==> !reply(
                Req::IsScrollLayout(layouts[(index + k) % len]),
            )->Flag_0
            &&& !s.scroll_enabled ==> forall|j: int|
                1 <= j < k ==> reply(
                    Req::IsScrollLayout(#[trigger] layouts[(index + j) % len]),
                )->Flag_0
        }),
    ensures
        r == nothing(),
        ({
            let layouts = reply(Req::Layouts(space))->Layouts_0;
            let len = layouts.len() as int;
            let index = reply(Req::ActiveLayoutIndex(space))->Index_0 as int;
            let target = layouts[(index + k) % len];
            let taken = Req::SelectLayout(space, target);
            let focused = match s.focused {
                Some(wid) => reply(Req::WindowNode(target, wid))->MaybeNode_0,
                None => None,
            };
            &&& s2 == State { spaces: s.spaces.insert(space, reply(taken)->Layout_0), ..s }
            &&& deeds(l2, l.len() as int) == match focused {
                Some(node) => seq![taken, Req::Select(node)],
                None => seq![taken],
            }
        }),
{
    broadcast use group_deeds;

    let n = l.len() as int;
    let offset: int = 1;
    let (t, layout) = choose|t: Log, layout: LayoutId| #[trigger]
        index_changed(s, l, space, offset, s.scroll_enabled, s2, t, layout) && focused_selected(
            s,
            t,
            layout,
            l2,
        );
    assert(grew(t, l2));
    lemma_reply_part(reply, t, l2, n);
    lemma_index_changed(s, l, space, offset, k, s2, t, layout, reply);
    lemma_focused_selected(s, t, layout, l2, reply, n);
}

/// The layout before the active one is taken, in a circle, and while scroll layouts are off the
/// first on the way that is none: `k` steps away. The focused window is selected there, if the
/// layout has it.
pub proof fn law_previous_layout_is_taken(
    s: State,
    l: Log,
    space: SpaceId,
    visible: Seq<SpaceId>,
    k: int,
    s2: State,
    l2: Log,
    r: Response,
    reply: spec_fn(Req) -> Rep,
)
    requires
        command_handled(s, l, Some(space), visible, LayoutCommand::PrevLayout, s2, l2, r),
        !s.is_floating(),
        answered_by(reply, l2, l.len() as int),
        ({
            let layouts = reply(Req::Layouts(space))->Layouts_0;
            let len = layouts.len() as int;
            let index = reply(Req::ActiveLayoutIndex(space))->Index_0 as int;
            &&& len > 1
            &&& 1 <= k <= len
            &&& s.scroll_enabled ==> k == 1
            &&& !s.scroll_enabled ==> !reply(
                Req::IsScrollLayout(layouts[(index - k) % len]),
            )->Flag_0
            &&& !s.scroll_enabled ==> forall|j: int|
                1 <= j < k ==> reply(
                    Req::IsScrollLayout(#[trigger] layouts[(index - j) % len]),
                )->Flag_0
        }),
    ensures
        r == nothing(),
        ({
            let layouts = reply(Req::Layouts(space))->Layouts_0;
            let len = layouts.len() as int;
            let index = reply(Req::ActiveLayoutIndex(space))->Index_0 as int;
            let target = layouts[(index - k) % len];
            let taken = Req::SelectLayout(space, target);
            let focused = match s.focused {
                Some(wid) => reply(Req::WindowNode(target, wid))->MaybeNode_0,
                None => None,
            };
            &&& s2 == State { spaces: s.spaces.insert(space, reply(taken)->Layout_0), ..s }
            &&& deeds(l2, l.len() as int) == match focused {
                Some(node) => seq![taken, Req::Select(node)],
                None => seq![taken],
            }
        }),
{
    broadcast use group_deeds;

    let n = l.len() as int;
    let offset: int = -1;
    let (t, layout) = choose|t: Log, layout: LayoutId| #[trigger]
        index_changed(s, l, space, offset, s.scroll_enabled, s2, t, layout) && focused_selected(
            s,
            t,
            layout,
            l2,
        );
    assert(grew(t, l2));
    lemma_reply_part(reply, t, l2, n);
    let layouts = reply(Req::Layouts(space))->Layouts_0;
    let len = layouts.len() as int;
    let index = reply(Req::ActiveLayoutIndex(space))->Index_0 as int;
    assert(index + offset * k == index - k);
    assert forall|j: int| 1 <= j < k && !s.scroll_enabled implies reply(
        Req::IsScrollLayout(#[trigger] layouts[(index + offset * j) % len]),
    )->Flag_0 by {
        assert(index + offset * j == index - j);
        assert(reply(Req::IsScrollLayout(layouts[(index - j) % len]))->Flag_0);
    }
    lemma_index_changed(s, l, space, offset, k, s2, t, layout, reply);
    lemma_focused_selected(s, t, layout, l2, reply, n);
}

/// The layout that a step of `offset` takes.
proof fn lemma_index_changed(
    s: State,
    l: Log,
    space: SpaceId,
    offset: int,
    k: int,
    s2: State,
    l2: Log,
    layout: LayoutId,
    reply: spec_fn(Req) -> Rep,
)
    requires
        index_changed(s, l, space, offset, s.scroll_enabled, s2, l2, layout),
        answered_by(reply, l2, l.len() as int),
        ({
            let layouts = reply(Req::Layouts(space))->Layouts_0;
            let index = reply(Req::ActiveLayoutIndex(space))->Index_0 as int;
            &&& layouts.len() > 1
            &&& 1 <= k <= layouts.len()
            &&& s.scroll_enabled ==> k == 1
            &&& !s.scroll_enabled ==> !reply(
                Req::IsScrollLayout(layouts[(index + offset * k) % (layouts.len() as int)]),
            )->Flag_0
            &&& !s.scroll_enabled ==> forall|j: int|
                1 <= j < k ==> reply(
                    Req::IsScrollLayout(
                        #[trigger] layouts[(index + offset * j) % (layouts.len() as int)],
                    ),
                )->Flag_0
        }),
    ensures
        ({
            let layouts = reply(Req::Layouts(space))->Layouts_0;
            let index = reply(Req::ActiveLayoutIndex(space))->Index_0 as int;
            &&& layout == layouts[(index + offset * k) % (layouts.len() as int)]
            &&& s2 == State {
                spaces: s.spaces.insert(
                    space,
                    reply(Req::SelectLayout(space, layout))->Layout_0,
                ),
                ..s
            }
            &&& deeds(l2, l.len() as int) == seq![Req::SelectLayout(space, layout)]
            &&& grew(l, l2)
        }),
{
    broadcast use group_deeds;

    let n = l.len() as int;
    let q1 = Req::Layouts(space);
    let q2 = Req::ActiveLayoutIndex(space);
    let t1 = ask(l, l2, q1);
    let layouts = answer(t1)->Layouts_0;
    let t2 = ask(t1, l2, q2);
    let index = answer(t2)->Index_0 as int;
    if layouts.len() <= 1 {
        lemma_reply(reply, l, l2, q1, n);
        assert(false);
    }
    if s.scroll_enabled {
        lemma_reply(reply, t2, l2, Req::SelectLayout(space, layout), n);
        lemma_reply(reply, t1, l2, q2, n);
        lemma_reply(reply, l, l2, q1, n);
    } else {
        let qs = scroll_questions(layouts, index, offset);
        let (t, found) = choose|t: Log, found: Option<int>|
            {
                &&& #[trigger] asked_until(t2, qs, false, t, found)
                &&& match found {
                    Some(i) => {
                        &&& layout == layout_away(layouts, index, offset, i + 1)
                        &&& layout_selected(s, t, space, layout, s2, l2)
                    },
                    None => layout == s.spaces[space] && s2 == s && l2 == t,
                }
            };
        assert(grew(t2, t));
        assert(grew(t, l2));
        lemma_reply(reply, t1, l2, q2, n);
        lemma_reply(reply, l, l2, q1, n);
        let made: int = match found {
            Some(i) => i + 1,
            None => qs.len() as int,
        };
        assert forall|i: int| 0 <= i < made implies #[trigger] t[t2.len() + i].rep == reply(
            Req::IsScrollLayout(layouts[(index + offset * (i + 1)) % (layouts.len() as int)]),
        ) by {
            assert(l2[t2.len() + i] == t[t2.len() + i]);
            assert(t[t2.len() + i].req == qs.take(made)[i]);
        }
        if k - 1 < made {
            assert(t[t2.len() + (k - 1)].rep->Flag_0 == false);
            assert(qs[k - 1] == qs[k - 1]);
            assert(found == Some(k - 1));
        } else {
            let i = found->0;
            assert(qs[i] == qs[i]);
            assert(t[t2.len() + i].rep->Flag_0 == false);
            assert(reply(
                Req::IsScrollLayout(
                    layouts[(index + offset * (i + 1)) % (layouts.len() as int)],
                ),
            )->Flag_0);
        }
        assert forall|i: int| 0 <= i < qs.take(made).len() implies is_question(
            #[trigger] qs.take(made)[i],
        ) by {}
        lemma_each_asked(t2, t, qs.take(made));
        lemma_deeds_join(l, t2, t);
        lemma_reply(reply, t, l2, Req::SelectLayout(space, layout), n);
    }
}

/// The focused window is selected where the layout has it.
proof fn lemma_focused_selected(
    s: State,
    l: Log,
    layout: LayoutId,
    l2: Log,
    reply: spec_fn(Req) -> Rep,
    from: int,
)
    requires
        focused_selected(s, l, layout, l2),
        answered_by(reply, l2, from),
        0 <= from <= l.len(),
    ensures
        grew(l, l2),
        deeds(l2, from) == match s.focused {
            Some(wid) => match reply(Req::WindowNode(layout, wid))->MaybeNode_0 {
                Some(node) => deeds(l, from).push(Req::Select(node)),
                None => deeds(l, from),
            },
            None => deeds(l, from),
        },
{
    broadcast use group_deeds;

    if let Some(wid) = s.focused {
        lemma_reply(reply, l, l2, Req::WindowNode(layout, wid), from);
    }
}

/// The windows that the nodes stand for, in order.
pub open spec fn windows_of(reply: spec_fn(Req) -> Rep, nodes: Seq<NodeId>) -> Seq<WindowId>
    decreases nodes.len(),
{
    if nodes.len() == 0 {
        Seq::empty()
    } else {
        let before = windows_of(reply, nodes.drop_last());
        match reply(Req::WindowAt(nodes.last()))->MaybeWindow_0 {
            Some(wid) => before.push(wid),
            None => before,
        }
    }
}

pub proof fn lemma_windows_of(
    log: Log,
    start: int,
    nodes: Seq<NodeId>,
    reply: spec_fn(Req) -> Rep,
)
    requires
        0 <= start,
        start + nodes.len() <= log.len(),
        forall|i: int|
            0 <= i < nodes.len() ==> (#[trigger] log[start + i]).rep == reply(
                Req::WindowAt(nodes[i]),
            ),
    ensures
        windows_named(log, start, nodes.len()) == windows_of(reply, nodes),
    decreases nodes.len(),
{
    if nodes.len() > 0 {
        let front = nodes.drop_last();
        lemma_windows_of(log, start, front, reply);
        assert(log[start + (nodes.len() - 1)].rep == reply(Req::WindowAt(nodes.last())));
    }
}

/// The selected node is made full screen, or is so no longer. Where it now is, its windows are
/// raised, in the order of the tree, and none is focused.
pub proof fn law_fullscreen_is_toggled(
    s: State,
    l: Log,
    space: SpaceId,
    visible: Seq<SpaceId>,
    s2: State,
    l2: Log,
    r: Response,
    reply: spec_fn(Req) -> Rep,
)
    requires
        command_handled(s, l, Some(space), visible, LayoutCommand::ToggleFullscreen, s2, l2, r),
        !s.is_floating(),
        answered_by(reply, l2, l.len() as int),
    ensures
        s2 == s,
        r.focus is None,
        ({
            let selection = reply(Req::Selection(s.spaces[space]))->Node_0;
            let toggled = Req::ToggleFullscreen(selection);
            &&& deeds(l2, l.len() as int) == seq![toggled]
            &&& r.raise == if reply(toggled)->Flag_0 {
                windows_of(reply, reply(Req::TraversePreorder(selection))->Nodes_0)
            } else {
                Seq::empty()
            }
        }),
{
    broadcast use group_deeds;

    let n = l.len() as int;
    let q = Req::Selection(s.spaces[space]);
    let t1 = ask(l, l2, q);
    let selection = answer(t1)->Node_0;
    let t2 = ask(t1, l2, Req::ToggleFullscreen(selection));
    if answer(t2)->Flag_0 {
        let q3 = Req::TraversePreorder(selection);
        let t3 = ask(t2, l2, q3);
        let nodes = answer(t3)->Nodes_0;
        let qs = window_questions(nodes);
        lemma_each_asked(t3, l2, qs);
        lemma_deeds_join(l, t3, l2);
        assert forall|i: int| 0 <= i < nodes.len() implies (
        #[trigger] l2[t3.len() + i]).rep == reply(Req::WindowAt(nodes[i])) by {
            assert(l2[t3.len() + i].req == qs[i]);
        }
        lemma_windows_of(l2, t3.len() as int, nodes, reply);
        lemma_reply(reply, t2, l2, q3, n);
    }
    lemma_reply(reply, t1, l2, Req::ToggleFullscreen(selection), n);
    lemma_reply(reply, l, l2, q, n);
}

/// The selected column of a scroll layout gets the first of the preset widths that is wider
/// than its own by more than a hundredth, or the first of all where none is: `pick`. It is
/// widened at its right side by the difference, unless that is a thousandth or less.
pub proof fn law_column_gets_next_width(
    s: State,
    l: Log,
    space: SpaceId,
    visible: Seq<SpaceId>,
    pick: int,
    s2: State,
    l2: Log,
    r: Response,
    reply: spec_fn(Req) -> Rep,
)
    requires
        command_handled(s, l, Some(space), visible, LayoutCommand::CycleColumnWidth, s2, l2, r),
        !s.is_floating(),
        answered_by(reply, l2, l.len() as int),
        s.scroll_enabled,
        ({
            let layout = reply(Req::PrepareModify(space))->Layout_0;
            let selection = reply(Req::Selection(layout))->Node_0;
            let column = reply(Req::ColumnOf(layout, selection))->MaybeNode_0;
            let current = match reply(Req::Proportion(column->0))->MaybeNumber_0 {
                Some(current) => current,
                None => Real(0x3ff0_0000_0000_0000),
            };
            let bound = reply(
                Req::Binary(Binary::Add, current, Real(0x3f84_7ae1_47ae_147b)),
            )->Number_0;
            let presets = s.scroll.column_width_presets;
            &&& reply(Req::IsScrollLayout(layout))->Flag_0
            &&& column is Some
            &&& 0 <= pick < presets.len()
            &&& if reply(Req::Less(bound, presets[pick]))->Flag_0 {
                forall|j: int|
                    0 <= j < pick ==> !reply(Req::Less(bound, #[trigger] presets[j]))->Flag_0
            } else {
                &&& pick == 0
                &&& forall|j: int|
                    0 <= j < presets.len() ==> !reply(
                        Req::Less(bound, #[trigger] presets[j]),
                    )->Flag_0
            }
        }),
    ensures
        r == nothing(),
        ({
            let layout = reply(Req::PrepareModify(space))->Layout_0;
            let selection = reply(Req::Selection(layout))->Node_0;
            let column = reply(Req::ColumnOf(layout, selection))->MaybeNode_0->0;
            let current = match reply(Req::Proportion(column))->MaybeNumber_0 {
                Some(current) => current,
                None => Real(0x3ff0_0000_0000_0000),
            };
            let delta = reply(
                Req::Binary(Binary::Subtract, s.scroll.column_width_presets[pick], current),
            )->Number_0;
            let size = reply(Req::Unary(Unary::Abs, delta))->Number_0;
            &&& s2 == State { spaces: s.spaces.insert(space, layout), ..s }
            &&& deeds(l2, l.len() as int) == if reply(
                Req::Less(Real(0x3f50_624d_d2f1_a9fc), size),
            )->Flag_0 {
                seq![Req::PrepareModify(space), Req::Resize(column, delta, Direction::Right)]
            } else {
                seq![Req::PrepareModify(space)]
            }
        }),
{
    broadcast use group_deeds;

    let n = l.len() as int;
    let q0 = Req::PrepareModify(space);
    let t0 = ask(l, l2, q0);
    let layout = answer(t0)->Layout_0;
    let q1 = Req::IsScrollLayout(layout);
    let t1 = ask(t0, l2, q1);
    let q2 = Req::Selection(layout);
    let t2 = ask(t1, l2, q2);
    let q3 = Req::ColumnOf(layout, answer(t2)->Node_0);
    let t3 = ask(t2, l2, q3);
    let presets = s.scroll.column_width_presets;
    if !answer(t1)->Flag_0 {
        lemma_reply(reply, t0, l2, q1, n);
        lemma_reply(reply, l, l2, q0, n);
        assert(false);
    }
    if answer(t3)->MaybeNode_0 is None {
        lemma_reply(reply, t2, l2, q3, n);
        lemma_reply(reply, t1, l2, q2, n);
        lemma_reply(reply, t0, l2, q1, n);
        lemma_reply(reply, l, l2, q0, n);
        assert(false);
    }
    let column = answer(t3)->MaybeNode_0->0;
    lemma_column_cycled_grows(t3, presets, column, l2);
    lemma_reply(reply, t2, l2, q3, n);
    lemma_reply(reply, t1, l2, q2, n);
    lemma_reply(reply, t0, l2, q1, n);
    lemma_reply(reply, l, l2, q0, n);
    lemma_column_cycled(t3, presets, column, l2, pick, reply, n);
}

proof fn lemma_width_chosen_grows(
    l: Log,
    presets: Seq<Real>,
    bound: Real,
    column: NodeId,
    current: Real,
    l2: Log,
)
    requires
        width_chosen(l, presets, bound, column, current, l2),
    ensures
        grew(l, l2),
{
    let (t, found) = choose|t: Log, found: Option<int>|
        {
            &&& #[trigger] asked_until(l, width_questions(presets, bound), true, t, found)
            &&& width_set(
                t,
                column,
                current,
                presets[match found {
                    Some(i) => i,
                    None => 0,
                }],
                l2,
            )
        };
    assert(grew(l, t));
    assert(grew(t, l2));
}

proof fn lemma_column_cycled_grows(l: Log, presets: Seq<Real>, column: NodeId, l2: Log)
    requires
        column_cycled(l, presets, column, l2),
    ensures
        grew(l, l2),
{
    let t1 = ask(l, l2, Req::Proportion(column));
    let current = match answer(t1)->MaybeNumber_0 {
        Some(current) => current,
        None => Real(ONE),
    };
    let t2 = ask(t1, l2, Req::Binary(Binary::Add, current, Real(PRESET_MARGIN)));
    lemma_width_chosen_grows(t2, presets, answer(t2)->Number_0, column, current, l2);
}

/// The width that a column gets.
proof fn lemma_column_cycled(
    l: Log,
    presets: Seq<Real>,
    column: NodeId,
    l2: Log,
    pick: int,
    reply: spec_fn(Req) -> Rep,
    from: int,
)
    requires
        column_cycled(l, presets, column, l2),
        answered_by(reply, l2, from),
        0 <= from <= l.len(),
        ({
            let current = match reply(Req::Proportion(column))->MaybeNumber_0 {
                Some(current) => current,
                None => Real(ONE),
            };
            let bound = reply(
                Req::Binary(Binary::Add, current, Real(PRESET_MARGIN)),
            )->Number_0;
            &&& 0 <= pick < presets.len()
            &&& if reply(Req::Less(bound, presets[pick]))->Flag_0 {
                forall|j: int|
                    0 <= j < pick ==> !reply(Req::Less(bound, #[trigger] presets[j]))->Flag_0
            } else {
                &&& pick == 0
                &&& forall|j: int|
                    0 <= j < presets.len() ==> !reply(
                        Req::Less(bound, #[trigger] presets[j]),
                    )->Flag_0
            }
        }),
    ensures
        ({
            let current = match reply(Req::Proportion(column))->MaybeNumber_0 {
                Some(current) => current,
                None => Real(ONE),
            };
            let delta = reply(
                Req::Binary(Binary::Subtract, presets[pick], current),
            )->Number_0;
            let size = reply(Req::Unary(Unary::Abs, delta))->Number_0;
            deeds(l2, from) == if reply(Req::Less(Real(LEAST_RESIZE), size))->Flag_0 {
                deeds(l, from).push(Req::Resize(column, delta, Direction::Right))
            } else {
                deeds(l, from)
            }
        }),
{
    broadcast use group_deeds;

    let q1 = Req::Proportion(column);
    let t1 = ask(l, l2, q1);
    let current = match answer(t1)->MaybeNumber_0 {
        Some(current) => current,
        None => Real(ONE),
    };
    let q2 = Req::Binary(Binary::Add, current, Real(PRESET_MARGIN));
    let t2 = ask(t1, l2, q2);
    let bound = answer(t2)->Number_0;
    lemma_width_chosen_grows(t2, presets, bound, column, current, l2);
    lemma_reply(reply, t1, l2, q2, from);
    lemma_reply(reply, l, l2, q1, from);
    lemma_width_chosen(t2, presets, bound, column, current, l2, pick, reply, from);
}

/// The preset that is picked.
proof fn lemma_width_chosen(
    l: Log,
    presets: Seq<Real>,
    bound: Real,
    column: NodeId,
    current: Real,
    l2: Log,
    pick: int,
    reply: spec_fn(Req) -> Rep,
    from: int,
)
    requires
        width_chosen(l, presets, bound, column, current, l2),
        answered_by(reply, l2, from),
        0 <= from <= l.len(),
        0 <= pick < presets.len(),
        if reply(Req::Less(bound, presets[pick]))->Flag_0 {
            forall|j: int|
                0 <= j < pick ==> !reply(Req::Less(bound, #[trigger] presets[j]))->Flag_0
        } else {
            &&& pick == 0
            &&& forall|j: int|
                0 <= j < presets.len() ==> !reply(Req::Less(bound, #[trigger] presets[j]))->Flag_0
        },
    ensures
        ({
            let delta = reply(
                Req::Binary(Binary::Subtract, presets[pick], current),
            )->Number_0;
            let size = reply(Req::Unary(Unary::Abs, delta))->Number_0;
            deeds(l2, from) == if reply(Req::Less(Real(LEAST_RESIZE), size))->Flag_0 {
                deeds(l, from).push(Req::Resize(column, delta, Direction::Right))
            } else {
                deeds(l, from)
            }
        }),
{
    broadcast use group_deeds;

    let qs = width_questions(presets, bound);
    let (t, found) = choose|t: Log, found: Option<int>|
        {
            &&& #[trigger] asked_until(l, qs, true, t, found)
            &&& width_set(
                t,
                column,
                current,
                presets[match found {
                    Some(i) => i,
                    None => 0,
                }],
                l2,
            )
        };
    let made: int = match found {
        Some(i) => i + 1,
        None => qs.len() as int,
    };
    assert(grew(l, t));
    assert(grew(t, l2));
    assert forall|i: int| 0 <= i < made implies #[trigger] t[l.len() + i].rep == reply(
        Req::Less(bound, presets[i]),
    ) by {
        assert(l2[l.len() + i] == t[l.len() + i]);
        assert(t[l.len() + i].req == qs.take(made)[i]);
    }
    if found is Some {
        let i = found->0;
        assert(qs[i] == qs[i]);
        assert(t[l.len() + i].rep->Flag_0);
        assert(reply(Req::Less(bound, presets[i]))->Flag_0);
    }
    if reply(Req::Less(bound, presets[pick]))->Flag_0 && pick < made {
        assert(qs[pick] == qs[pick]);
        assert(t[l.len() + pick].rep->Flag_0);
    }
    let next = presets[match found {
        Some(i) => i,
        None => 0,
    }];
    assert(next == presets[pick]);
    lemma_each_asked(l, t, qs.take(made));
    let start = l.take(from);
    assert(grew(start, l));
    lemma_deeds_join(start, l, t);
    let q3 = Req::Binary(Binary::Subtract, next, current);
    let t3 = ask(t, l2, q3);
    let delta = answer(t3)->Number_0;
    let q4 = Req::Unary(Unary::Abs, delta);
    let t4 = ask(t3, l2, q4);
    let q5 = Req::Less(Real(LEAST_RESIZE), answer(t4)->Number_0);
    lemma_reply(reply, t4, l2, q5, from);
    lemma_reply(reply, t3, l2, q4, from);
    lemma_reply(reply, t, l2, q3, from);
}

/// The selected column of a scroll layout shows tabs in place of windows below each other,
/// and the other way round. A column that shows neither is left as it is.
pub proof fn law_column_is_tabbed_or_not(
    s: State,
    l: Log,
    space: SpaceId,
    visible: Seq<SpaceId>,
    s2: State,
    l2: Log,
    r: Response,
    reply: spec_fn(Req) -> Rep,
)
    requires
        command_handled(s, l, Some(space), visible, LayoutCommand::ToggleColumnTabbed, s2, l2, r),
        !s.is_floating(),
        answered_by(reply, l2, l.len() as int),
        s.scroll_enabled,
    ensures
        r == nothing(),
        ({
            let layout = reply(Req::PrepareModify(space))->Layout_0;
            let selection = reply(Req::Selection(layout))->Node_0;
            let column = if reply(Req::IsScrollLayout(layout))->Flag_0 {
                reply(Req::ColumnOf(layout, selection))->MaybeNode_0
            } else {
                None
            };
            &&& s2 == State { spaces: s.spaces.insert(space, layout), ..s }
            &&& deeds(l2, l.len() as int) == match column {
                Some(column) => seq![
                    Req::PrepareModify(space),
                    Req::SetContainerKind(
                        column,
                        match reply(Req::ContainerKind(column))->Container_0 {
                            ContainerKind::Vertical => ContainerKind::Tabbed,
                            ContainerKind::Tabbed => ContainerKind::Vertical,
                            ContainerKind::Other(kind) => ContainerKind::Other(kind),
                        },
                    ),
                ],
                None => seq![Req::PrepareModify(space)],
            }
        }),
{
    broadcast use group_deeds;

    let n = l.len() as int;
    let q0 = Req::PrepareModify(space);
    let t0 = ask(l, l2, q0);
    let layout = answer(t0)->Layout_0;
    let q1 = Req::IsScrollLayout(layout);
    let t1 = ask(t0, l2, q1);
    let q2 = Req::Selection(layout);
    let t2 = ask(t1, l2, q2);
    let q3 = Req::ColumnOf(layout, answer(t2)->Node_0);
    let t3 = ask(t2, l2, q3);
    if answer(t1)->Flag_0 {
        if let Some(column) = answer(t3)->MaybeNode_0 {
            lemma_reply(reply, t3, l2, Req::ContainerKind(column), n);
        }
        lemma_reply(reply, t2, l2, q3, n);
        lemma_reply(reply, t1, l2, q2, n);
    }
    lemma_reply(reply, t0, l2, q1, n);
    lemma_reply(reply, l, l2, q0, n);
}

/// From the floating windows the focus goes back to the layout: the windows that it shows
/// are raised, and the window of its selection is focused. Where the selection is no
/// window, the last of those that are shown is focused in place of being raised.
pub proof fn law_focus_goes_back_to_the_layout(
    s: State,
    l: Log,
    space: SpaceId,
    visible: Seq<SpaceId>,
    s2: State,
    l2: Log,
    r: Response,
    reply: spec_fn(Req) -> Rep,
)
    requires
        command_handled(
            s,
            l,
            Some(space),
            visible,
            LayoutCommand::ToggleFocusFloating,
            s2,
            l2,
            r,
        ),
        s.is_floating(),
        answered_by(reply, l2, l.len() as int),
    ensures
        s2 == s,
        deeds(l2, l.len() as int) == Seq::<Req>::empty(),
        ({
            let layout = s.spaces[space];
            let shown = reply(
                Req::VisibleWindowsUnder(reply(Req::Root(layout))->Node_0),
            )->Windows_0;
            let selected = reply(
                Req::WindowAt(reply(Req::Selection(layout))->Node_0),
            )->MaybeWindow_0;
            if selected is Some {
                r.raise == shown && r.focus == selected
            } else if shown.len() > 0 {
                r.raise.push(r.focus->0) == shown && r.focus is Some
            } else {
                r == nothing()
            }
        }),
{
    broadcast use group_deeds;

    let n = l.len() as int;
    let layout = s.spaces[space];
    let q1 = Req::Selection(layout);
    let t1 = ask(l, l2, q1);
    let q2 = Req::WindowAt(answer(t1)->Node_0);
    let t2 = ask(t1, l2, q2);
    let q3 = Req::Root(layout);
    let t3 = ask(t2, l2, q3);
    lemma_reply(reply, t3, l2, Req::VisibleWindowsUnder(answer(t3)->Node_0), n);
    lemma_reply(reply, t2, l2, q3, n);
    lemma_reply(reply, t1, l2, q2, n);
    lemma_reply(reply, l, l2, q1, n);
    let shown = answer(l2)->Windows_0;
    if shown.len() > 0 {
        assert(shown.drop_last().push(shown.last()) =~= shown);
    } else {
        assert(shown =~= Seq::<WindowId>::empty());
    }
}

/// From the layout the focus goes to the floating windows of the space: the last one that
/// had it gets it again, and the others are raised. Where none had it, one of those of the
/// space gets it.
pub proof fn law_focus_goes_to_the_floats(
    s: State,
    l: Log,
    space: SpaceId,
    visible: Seq<SpaceId>,
    s2: State,
    l2: Log,
    r: Response,
)
    requires
        command_handled(
            s,
            l,
            Some(space),
            visible,
            LayoutCommand::ToggleFocusFloating,
            s2,
            l2,
            r,
        ),
        !s.is_floating(),
    ensures
        s2 == s,
        l2 == l,
        s.last_floating is Some ==> r.focus == s.last_floating,
        s.last_floating is None ==> (r.focus is Some <==> exists|i: int|
            0 <= i < s.active_floating.len() && (#[trigger] s.active_floating[i]).space == space),
        forall|w: WindowId| #[trigger]
            r.raise.contains(w) && s.last_floating is Some ==> Some(w) != s.last_floating,
        forall|w: WindowId|
            (#[trigger] r.raise.contains(w) || (r.focus == Some(w) && s.last_floating is None))
                ==> exists|i: int|
                0 <= i < s.active_floating.len() && (#[trigger] s.active_floating[i]).space
                    == space && s.active_floating[i].wid == w,
        forall|i: int|
            0 <= i < s.active_floating.len() && (#[trigger] s.active_floating[i]).space == space
                ==> r.raise.contains(s.active_floating[i].wid) || r.focus == Some(
                s.active_floating[i].wid,
            ),
{
    let floats = floats_in(s.active_floating, space);
    assert forall|w: WindowId| #[trigger] floats.contains(w) <==> exists|i: int|
        0 <= i < s.active_floating.len() && (#[trigger] s.active_floating[i]).space == space
            && s.active_floating[i].wid == w by {
        lemma_floats_in(s.active_floating, space, w);
    }
    let rest = match s.last_floating {
        Some(last) => without(floats, last),
        None => floats,
    };
    assert forall|w: WindowId| #[trigger] rest.contains(w) <==> floats.contains(w) && Some(w)
        != s.last_floating by {
        if let Some(last) = s.last_floating {
            lemma_left_out(floats, last, w);
        }
    }
    if s.last_floating is None && rest.len() > 0 {
        let front = rest.drop_last();
        assert(rest[rest.len() - 1] == rest.last());
        assert(floats.contains(rest.last()));
        assert forall|w: WindowId| #[trigger] front.contains(w) implies rest.contains(w) by {
            let i = choose|i: int| 0 <= i < front.len() && front[i] == w;
            assert(rest[i] == w);
        }
        assert forall|w: WindowId| rest.contains(w) implies #[trigger] front.contains(w) || w
            == rest.last() by {
            let i = choose|i: int| 0 <= i < rest.len() && rest[i] == w;
            if i < front.len() {
                assert(front[i] == w);
            }
        }
        assert forall|i: int|
            0 <= i < s.active_floating.len() && (#[trigger] s.active_floating[i]).space
                == space implies r.raise.contains(s.active_floating[i].wid) || r.focus == Some(
            s.active_floating[i].wid,
        ) by {
            assert(floats.contains(s.active_floating[i].wid));
            assert(rest.contains(s.active_floating[i].wid));
        }
    } else {
        assert forall|i: int|
            0 <= i < s.active_floating.len() && (#[trigger] s.active_floating[i]).space
                == space implies r.raise.contains(s.active_floating[i].wid) || r.focus == Some(
            s.active_floating[i].wid,
        ) by {
            assert(floats.contains(s.active_floating[i].wid));
            assert(rest.contains(s.active_floating[i].wid) || Some(s.active_floating[i].wid)
                == s.last_floating);
        }
        if s.last_floating is None {
            assert forall|w: WindowId| !rest.contains(w) by {}
        }
    }
}

/// Which windows float in a space.
proof fn lemma_floats_in(active: Seq<ActiveFloat>, space: SpaceId, w: WindowId)
    ensures
        floats_in(active, space).contains(w) <==> exists|i: int|
            0 <= i < active.len() && (#[trigger] active[i]).space == space && active[i].wid == w,
{
    let there = |f: ActiveFloat| f.space == space;
    let kept = active.filter(there);
    let floats = floats_in(active, space);
    if floats.contains(w) {
        let k = choose|k: int| 0 <= k < floats.len() && floats[k] == w;
        assert(kept.contains(kept[k]));
        lemma_filtered(active, there, kept[k]);
        let i = choose|i: int| 0 <= i < active.len() && active[i] == kept[k];
        assert(active[i].space == space && active[i].wid == w);
    }
    if exists|i: int|
        0 <= i < active.len() && (#[trigger] active[i]).space == space && active[i].wid == w {
        let i = choose|i: int|
            0 <= i < active.len() && (#[trigger] active[i]).space == space && active[i].wid == w;
        assert(active.contains(active[i]));
        lemma_filtered(active, there, active[i]);
        let k = choose|k: int| 0 <= k < kept.len() && kept[k] == active[i];
        assert(floats[k] == w);
    }
}

/// The focused window that does not float leaves the tree and floats, on screen in the
/// space, as the last that had the focus. The one that floats is put back behind the
/// selection of the space and selected, and no floating window is the last then.
pub proof fn law_focused_window_floats_or_not(
    s: State,
    l: Log,
    space: SpaceId,
    visible: Seq<SpaceId>,
    wid: WindowId,
    s2: State,
    l2: Log,
    r: Response,
    reply: spec_fn(Req) -> Rep,
)
    requires
        command_handled(
            s,
            l,
            Some(space),
            visible,
            LayoutCommand::ToggleWindowFloating,
            s2,
            l2,
            r,
        ),
        s.focused == Some(wid),
        answered_by(reply, l2, l.len() as int),
    ensures
        r == nothing(),
        s2 == (State {
            floating: s2.floating,
            active_floating: s2.active_floating,
            last_floating: s2.last_floating,
            ..s
        }),
        ({
            let layout = s.spaces[space];
            let back = Req::AddWindowAfter(layout, reply(Req::Selection(layout))->Node_0, wid);
            let float = ActiveFloat { space, pid: wid.pid, wid };
            if s.floating.contains(wid) {
                &&& deeds(l2, l.len() as int) == seq![back, Req::Select(reply(back)->Node_0)]
                &&& s2.last_floating is None
                &&& forall|w: WindowId| #[trigger]
                    s2.floating.contains(w) <==> s.floating.contains(w) && w != wid
                &&& forall|f: ActiveFloat| #[trigger]
                    s2.active_floating.contains(f) <==> s.active_floating.contains(f) && f != float
            } else {
                &&& deeds(l2, l.len() as int) == seq![Req::RemoveWindow(wid)]
                &&& s2.last_floating == Some(wid)
                &&& forall|w: WindowId| #[trigger]
                    s2.floating.contains(w) <==> s.floating.contains(w) || w == wid
                &&& forall|f: ActiveFloat| #[trigger]
                    s2.active_floating.contains(f) <==> s.active_floating.contains(f) || f == float
            }
        }),
{
    broadcast use group_deeds;

    let n = l.len() as int;
    let layout = s.spaces[space];
    let float = ActiveFloat { space, pid: wid.pid, wid };
    if s.floating.contains(wid) {
        let q1 = Req::Selection(layout);
        let t1 = ask(l, l2, q1);
        let q2 = Req::AddWindowAfter(layout, answer(t1)->Node_0, wid);
        lemma_reply(reply, t1, l2, q2, n);
        lemma_reply(reply, l, l2, q1, n);
        assert forall|w: WindowId| #[trigger] without(s.floating, wid).contains(w)
            <==> s.floating.contains(w) && w != wid by {
            lemma_left_out(s.floating, wid, w);
        }
        assert forall|f: ActiveFloat| #[trigger] without(s.active_floating, float).contains(f)
            <==> s.active_floating.contains(f) && f != float by {
            lemma_left_out(s.active_floating, float, f);
        }
    } else {
        lemma_with(s.floating, wid);
        lemma_with(s.active_floating, float);
    }
}

/// Where no space is given, the focused window that does not float leaves the tree and floats,
/// and the one that floats does so no longer; on screen it is noted nowhere, and the tree
/// gets nothing back.
pub proof fn law_focused_window_floats_without_a_space(
    s: State,
    l: Log,
    visible: Seq<SpaceId>,
    wid: WindowId,
    s2: State,
    l2: Log,
    r: Response,
)
    requires
        command_handled(
            s,
            l,
            None,
            visible,
            LayoutCommand::ToggleWindowFloating,
            s2,
            l2,
            r,
        ),
        s.focused == Some(wid),
    ensures
        r == nothing(),
        s2 == (State { floating: s2.floating, last_floating: s2.last_floating, ..s }),
        forall|w: WindowId|
            w != wid ==> (#[trigger] s2.floating.contains(w) <==> s.floating.contains(w)),
        s2.floating.contains(wid) <==> !s.floating.contains(wid),
        s2.last_floating == if s.floating.contains(wid) {
            None
        } else {
            Some(wid)
        },
        deeds(l2, l.len() as int) == if s.floating.contains(wid) {
            Seq::empty()
        } else {
            seq![Req::RemoveWindow(wid)]
        },
{
    broadcast use group_deeds;

    if s.floating.contains(wid) {
        assert forall|w: WindowId| #[trigger] without(s.floating, wid).contains(w)
            <==> s.floating.contains(w) && w != wid by {
            lemma_left_out(s.floating, wid, w);
        }
    } else {
        lemma_with(s.floating, wid);
    }
}

/// Without a focused window, nothing can be let float.
pub proof fn law_nothing_floats_without_focus(
    s: State,
    l: Log,
    space: Option<SpaceId>,
    visible: Seq<SpaceId>,
    s2: State,
    l2: Log,
    r: Response,
)
    requires
        command_handled(
            s,
            l,
            space,
            visible,
            LayoutCommand::ToggleWindowFloating,
            s2,
            l2,
            r,
        ),
        s.focused is None,
    ensures
        s2 == s,
        l2 == l,
        r == nothing(),
{
}

/// While scroll layouts are off, the width of a column cannot be changed to a preset, no column
/// gets tabs, and no layout changes its kind.
pub proof fn law_columns_need_scroll_layouts(
    s: State,
    l: Log,
    space: Option<SpaceId>,
    visible: Seq<SpaceId>,
    command: LayoutCommand,
    s2: State,
    l2: Log,
    r: Response,
)
    requires
        command_handled(s, l, space, visible, command, s2, l2, r),
        !s.scroll_enabled,
        command == LayoutCommand::CycleColumnWidth || command == LayoutCommand::ToggleColumnTabbed
            || command == LayoutCommand::ChangeLayoutKind,
    ensures
        s2 == s,
        l2 == l,
        r == nothing(),
{
}

/// While a floating window has the focus, no node is focused, moved, split, grouped or resized,
/// and no layout is switched.
pub proof fn law_floating_focus_spares_the_layout(
    s: State,
    l: Log,
    space: SpaceId,
    visible: Seq<SpaceId>,
    command: LayoutCommand,
    s2: State,
    l2: Log,
    r: Response,
)
    requires
        command_handled(s, l, Some(space), visible, command, s2, l2, r),
        s.is_floating(),
        command != LayoutCommand::ToggleWindowFloating,
        command != LayoutCommand::ToggleFocusFloating,
    ensures
        r == nothing(),
        s2.focused == s.focused,
        s2.floating == s.floating,
        deeds(l2, l.len() as int) == Seq::<Req>::empty() || deeds(l2, l.len() as int) == seq![
            Req::PrepareModify(space),
        ],
{
    broadcast use group_deeds;

}

/// A resize that does not say how far it goes goes by 5, as a bit pattern.
pub proof fn law_resize_goes_by_five()
    ensures
        DEFAULT_RESIZE_PERCENT == 0x4014_0000_0000_0000,
{
}

/// A step through the layouts only adds to the record.
proof fn lemma_switched_grows(s: State, l: Log, space: SpaceId, offset: int, s2: State, l2: Log)
    requires
        layout_switched(s, l, space, offset, s2, l2),
    ensures
        grew(l, l2),
{
    let (t, layout) = choose|t: Log, layout: LayoutId| #[trigger]
        index_changed(s, l, space, offset, s.scroll_enabled, s2, t, layout) && focused_selected(
            s,
            t,
            layout,
            l2,
        );
    let t1 = ask(l, t, Req::Layouts(space));
    let layouts = answer(t1)->Layouts_0;
    if layouts.len() > 1 && !s.scroll_enabled {
        let t2 = ask(t1, t, Req::ActiveLayoutIndex(space));
        let index = answer(t2)->Index_0 as int;
        let qs = scroll_questions(layouts, index, offset);
        let (u, found) = choose|u: Log, found: Option<int>|
            {
                &&& #[trigger] asked_until(t2, qs, false, u, found)
                &&& match found {
                    Some(i) => {
                        &&& layout == layout_away(layouts, index, offset, i + 1)
                        &&& layout_selected(s, u, space, layout, s2, t)
                    },
                    None => layout == s.spaces[space] && s2 == s && t == u,
                }
            };
        assert(grew(t2, u));
        assert(grew(u, t));
    }
    assert(grew(l, t));
}

proof fn lemma_focus_moved_grows(
    s: State,
    l: Log,
    space: SpaceId,
    visible: Seq<SpaceId>,
    direction: Direction,
    l2: Log,
    r: Response,
)
    requires
        focus_moved(s, l, space, visible, direction, l2, r),
    ensures
        grew(l, l2),
{
    let layout = s.spaces[space];
    let t1 = ask(l, l2, Req::IsScrollLayout(layout));
    let scrolls = answer(t1)->Flag_0;
    let t2 = ask(t1, l2, Req::Selection(layout));
    let selection = answer(t2)->Node_0;
    let t3 = ask(
        t2,
        l2,
        if goes_round(s, scrolls, direction) {
            Req::TraverseScrollWrapping(layout, selection, direction)
        } else {
            Req::Traverse(selection, direction)
        },
    );
    let next = answer(t3)->MaybeNode_0;
    match (next, neighbour(visible, space, direction)) {
        (None, Some(other)) => {
            let t4 = ask(t3, l2, Req::Selection(s.spaces[other]));
            lemma_stepped_to_grows(s, t4, space, scrolls, Some(answer(t4)->Node_0), l2, r);
        },
        _ => lemma_stepped_to_grows(s, t3, space, scrolls, next, l2, r),
    }
}

proof fn lemma_stepped_to_grows(
    s: State,
    l: Log,
    space: SpaceId,
    scrolls: bool,
    node: Option<NodeId>,
    l2: Log,
    r: Response,
)
    requires
        stepped_to(s, l, space, scrolls, node, l2, r),
    ensures
        grew(l, l2),
{
    if node is Some && scrolls {
        let t = choose|t: Log| #[trigger]
            scrolling_cleared(s, l, space, t) && node_focused(t, node, l2, r);
        assert(grew(l, t));
        assert(grew(t, l2));
    }
}

proof fn lemma_tiling_grows(
    s: State,
    l: Log,
    space: SpaceId,
    visible: Seq<SpaceId>,
    command: LayoutCommand,
    s2: State,
    l2: Log,
    r: Response,
)
    requires
        tiling_handled(s, l, space, visible, command, s2, l2, r),
    ensures
        grew(l, l2),
{
    let layout = s.spaces[space];
    match command {
        LayoutCommand::NextLayout => lemma_switched_grows(s, l, space, 1, s2, l2),
        LayoutCommand::PrevLayout => lemma_switched_grows(s, l, space, -1, s2, l2),
        LayoutCommand::MoveFocus(direction) => lemma_focus_moved_grows(
            s,
            l,
            space,
            visible,
            direction,
            l2,
            r,
        ),
        LayoutCommand::Resize { direction, percent } => {
            let (t, within) = choose|t: Log, within: Real|
                {
                    let t1 = ask(t, l2, Req::Selection(layout));
                    let t2 = ask(t1, l2, Req::Binary(Binary::Divide, within, Real(HUNDRED)));
                    &&& #[trigger] clamped(l, percent, t, within)
                    &&& l2 == ask(
                        t2,
                        l2,
                        Req::Resize(answer(t1)->Node_0, answer(t2)->Number_0, direction),
                    )
                };
            assert(grew(l, t));
        },
        LayoutCommand::CycleColumnWidth => {
            let t1 = ask(l, l2, Req::IsScrollLayout(layout));
            let t2 = ask(t1, l2, Req::Selection(layout));
            let t3 = ask(t2, l2, Req::ColumnOf(layout, answer(t2)->Node_0));
            if answer(t1)->Flag_0 && s.scroll.column_width_presets.len() > 0 {
                if let Some(column) = answer(t3)->MaybeNode_0 {
                    lemma_column_cycled_grows(t3, s.scroll.column_width_presets, column, l2);
                }
            }
        },
        LayoutCommand::ChangeLayoutKind => {
            let t0 = ask(l, l2, Req::LayoutKind(layout));
            let kind = other_kind(answer(t0)->Kind_0);
            let (t, new_layout) = choose|t: Log, new_layout: LayoutId|
                {
                    &&& #[trigger] converted(
                        t0,
                        s.scroll.visible_columns,
                        s.focused,
                        layout,
                        kind,
                        t,
                        new_layout,
                    )
                    &&& active_replaced(s, t, space, layout, new_layout, s2, l2)
                };
            lemma_converted_grows(
                t0,
                s.scroll.visible_columns,
                s.focused,
                layout,
                kind,
                t,
                new_layout,
            );
        },
        _ => {},
    }
}

/// A command only adds to the record.
pub proof fn lemma_command_grows(
    s: State,
    l: Log,
    space: Option<SpaceId>,
    visible: Seq<SpaceId>,
    command: LayoutCommand,
    s2: State,
    l2: Log,
    r: Response,
)
    requires
        command_handled(s, l, space, visible, command, s2, l2, r),
    ensures
        grew(l, l2),
{
    if let Some(space) = space {
        if !(command is ToggleWindowFloating) && !(command is ToggleFocusFloating)
            && !s.is_floating() && (s.scroll_enabled || !command.is_for_scroll()) {
            if command.changes_layout() {
                let t = ask(l, l2, Req::PrepareModify(space));
                let m = State { spaces: s.spaces.insert(space, answer(t)->Layout_0), ..s };
                lemma_tiling_grows(m, t, space, visible, command, s2, l2, r);
            } else {
                lemma_tiling_grows(s, l, space, visible, command, s2, l2, r);
            }
        }
    }
}

} // verus!
