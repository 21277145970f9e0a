//! What changing the kind of a layout is for.

use vstd::prelude::*;

use crate::deeds::{
    deeds, group_deeds, lemma_deeds_join, lemma_each_asked, lemma_reply, lemma_reply_part,
};
use crate::ids::{LayoutId, LayoutKind, NodeId, SpaceId, WindowId};
use crate::layout::command_laws::{lemma_windows_of, windows_of};
use crate::layout::commands::{command_handled, LayoutCommand};
use crate::layout::conversion::{active_replaced, converted, moved_over};
use crate::layout::event_laws::lemma_left_out;
use crate::layout::laws::{lemma_converted_grows, lemma_moved_over_grows};
use crate::layout::state::State;
use crate::layout::traversal::{window_questions, windows_named};
use crate::layout::tree_model::{acts_in_order, in_columns, is_ordered_tree, windows_along, Tree};
use crate::link::{answer, answered_by, ask, ask_each, grew, Log, Rep, Req};
use crate::response::{nothing, Response};

verus! {

/// Windows that are moved over leave all layouts for the new one, where they have a column
/// each if it scrolls, in order.
proof fn lemma_moved(
    l: Log,
    windows: Seq<WindowId>,
    layout: LayoutId,
    kind: LayoutKind,
    visible_columns: u32,
    l2: Log,
    whole: Log,
    trees: Seq<Tree>,
)
    requires
        moved_over(l, windows, layout, kind, visible_columns, l2),
        grew(l2, whole),
        is_ordered_tree(trees, whole, l.len() as int),
        trees[l.len() as int].tiled.contains_key(layout),
        trees[l.len() as int].tiled[layout] == Set::<WindowId>::empty(),
        trees[l.len() as int].columns.contains_key(layout),
        trees[l.len() as int].columns[layout] == Seq::<Seq<WindowId>>::empty(),
        windows.no_duplicates(),
    ensures
        ({
            let a = trees[l.len() as int];
            let b = trees[l2.len() as int];
            &&& grew(l, l2)
            &&& b.scroll == a.scroll
            &&& b.tiled.contains_key(layout)
            &&& forall|wid: WindowId| #[trigger]
                b.tiled[layout].contains(wid) <==> windows.contains(wid)
            &&& kind == LayoutKind::Scroll ==> b.columns.contains_key(layout)
                && b.columns[layout].len() == windows.len() && forall|i: int|
                0 <= i < windows.len() ==> #[trigger] b.columns[layout][i] == seq![windows[i]]
        }),
    decreases windows.len(),
{
    lemma_moved_over_grows(l, windows, layout, kind, visible_columns, l2);
    if windows.len() > 0 {
        let n = l2.len() as int;
        let front = windows.drop_last();
        let wid = windows.last();
        let m = match kind {
            LayoutKind::Scroll => n - 2,
            LayoutKind::Tree => n - 3,
        };
        let before = l2.take(m);
        lemma_moved_over_grows(l, front, layout, kind, visible_columns, before);
        assert(grew(before, whole)) by {
            assert forall|i: int| 0 <= i < before.len() implies #[trigger] whole[i] == before[i] by {
                assert(whole[i] == l2[i]);
            }
        }
        assert(front.no_duplicates());
        lemma_moved(l, front, layout, kind, visible_columns, before, whole, trees);
        let c = trees[m];
        assert(whole[m] == l2[m] && l2[m].req == Req::RemoveWindow(wid));
        assert(acts_in_order(trees[m], whole[m], trees[m + 1]));
        let d = trees[m + 1];
        assert forall|w: WindowId| #[trigger] windows.contains(w) <==> front.contains(w) || w == wid by {
            assert(windows[windows.len() - 1] == wid);
            if front.contains(w) {
                let k = choose|k: int| 0 <= k < front.len() && front[k] == w;
                assert(windows[k] == w);
            }
            if windows.contains(w) && w != wid {
                let k = choose|k: int| 0 <= k < windows.len() && windows[k] == w;
                assert(front[k] == w);
            }
        }
        assert(d.tiled[layout] == c.tiled[layout].remove(wid));
        assert(whole[m + 1] == l2[m + 1]);
        assert(acts_in_order(trees[m + 1], whole[m + 1], trees[m + 2]));
        match kind {
            LayoutKind::Scroll => {
                assert(!in_columns(c.columns[layout], wid)) by {
                    if in_columns(c.columns[layout], wid) {
                        let i = choose|i: int|
                            0 <= i < c.columns[layout].len() && (
                            #[trigger] c.columns[layout][i]).contains(wid);
                        assert(c.columns[layout][i] == seq![front[i]]);
                        assert(front[i] == wid);
                        assert(windows[i] == windows[windows.len() - 1]);
                    }
                }
                assert(d.columns[layout] == c.columns[layout]);
                let b = trees[m + 2];
                assert(b.columns[layout] == d.columns[layout].push(seq![wid]));
                assert forall|i: int| 0 <= i < windows.len() implies #[trigger] b.columns[layout][i]
                    == seq![windows[i]] by {
                    if i < front.len() {
                        assert(c.columns[layout][i] == seq![front[i]]);
                    }
                }
            },
            LayoutKind::Tree => {
                assert(whole[m + 2] == l2[m + 2] && l2[m + 2].req is AddWindowAfter);
                assert(acts_in_order(trees[m + 2], whole[m + 2], trees[m + 3]));
            },
        }
    } else {
        assert forall|wid: WindowId| !windows.contains(wid) by {}
    }
}

/// The windows that answers name are those that a tree has along the nodes.
proof fn lemma_along(log: Log, start: int, nodes: Seq<NodeId>, tree: Tree)
    requires
        0 <= start,
        start + nodes.len() <= log.len(),
        forall|i: int|
            0 <= i < nodes.len() ==> (#[trigger] log[start + i]).rep->MaybeWindow_0
                == tree.window_at(nodes[i]),
    ensures
        windows_named(log, start, nodes.len()) == windows_along(tree, nodes),
    decreases nodes.len(),
{
    if nodes.len() > 0 {
        lemma_along(log, start, nodes.drop_last(), tree);
        assert(log[start + (nodes.len() - 1)].rep->MaybeWindow_0 == tree.window_at(nodes.last()));
    }
}

/// Asking for windows leaves the tree as it is.
proof fn lemma_still(whole: Log, trees: Seq<Tree>, start: int, nodes: Seq<NodeId>, i: int)
    requires
        is_ordered_tree(trees, whole, start),
        0 <= i <= nodes.len(),
        0 <= start,
        start + nodes.len() <= whole.len(),
        forall|j: int|
            0 <= j < nodes.len() ==> #[trigger] whole[start + j].req == Req::WindowAt(nodes[j]),
    ensures
        trees[start + i] == trees[start],
    decreases i,
{
    if i > 0 {
        lemma_still(whole, trees, start, nodes, i - 1);
        assert(whole[start + (i - 1)].req == Req::WindowAt(nodes[i - 1]));
        assert(acts_in_order(trees[start + i - 1], whole[start + i - 1], trees[start + i]));
    }
}

/// What is read of a layout before it gives its windows away: they are named in order, and
/// the tree is as before.
proof fn lemma_read(l: Log, layout: LayoutId, t5: Log, l2: Log, whole: Log, trees: Seq<Tree>)
    requires
        grew(t5, l2),
        grew(l2, whole),
        is_ordered_tree(trees, whole, l.len() as int),
        trees[l.len() as int].tiled.contains_key(layout),
        ({
            let n = l.len() as int;
            let nodes = l2[n + 4].rep->Nodes_0;
            let k = nodes.len() as int;
            &&& t5.len() == n + 6 + k
            &&& t5[n].req == Req::LayoutKind(layout)
            &&& t5[n + 1].req == Req::Selection(layout)
            &&& t5[n + 2].req == Req::WindowAt(l2[n + 1].rep->Node_0)
            &&& t5[n + 3].req == Req::Root(layout)
            &&& t5[n + 4].req == Req::TraversePostorder(l2[n + 3].rep->Node_0)
            &&& forall|i: int|
                0 <= i < k ==> (#[trigger] t5[n + 5 + i]).req == Req::WindowAt(nodes[i])
        }),
    ensures
        ({
            let n = l.len() as int;
            let a = trees[n];
            let nodes = l2[n + 4].rep->Nodes_0;
            &&& windows_named(l2, n + 5, nodes.len()) == a.order[layout]
            &&& trees[n + 5 + nodes.len()] == a
            &&& forall|w: WindowId| #[trigger]
                a.order[layout].contains(w) <==> a.tiled[layout].contains(w)
            &&& a.selected.contains_key(layout) ==> l2[n + 2].rep->MaybeWindow_0 == a.window_at(
                a.selected[layout],
            )
        }),
{
    let n = l.len() as int;
    let a = trees[n];
    let nodes = l2[n + 4].rep->Nodes_0;
    let k = nodes.len() as int;
    assert forall|i: int| 0 <= i < t5.len() implies #[trigger] whole[i] == t5[i] && l2[i]
        == t5[i] by {
        assert(l2[i] == t5[i]);
        assert(whole[i] == l2[i]);
    }
    assert(whole[n] == t5[n]);
    assert(acts_in_order(trees[n], whole[n], trees[n + 1]));
    assert(whole[n + 1] == t5[n + 1]);
    assert(acts_in_order(trees[n + 1], whole[n + 1], trees[n + 2]));
    assert(whole[n + 2] == t5[n + 2]);
    assert(acts_in_order(trees[n + 2], whole[n + 2], trees[n + 3]));
    assert(whole[n + 3] == t5[n + 3]);
    assert(acts_in_order(trees[n + 3], whole[n + 3], trees[n + 4]));
    assert(whole[n + 4] == t5[n + 4]);
    assert(acts_in_order(trees[n + 4], whole[n + 4], trees[n + 5]));
    assert(trees[n + 4].tiled.contains_key(layout));
    assert(trees[n + 5] == a);
    assert forall|j: int| 0 <= j < k implies #[trigger] whole[n + 5 + j].req == Req::WindowAt(
        nodes[j],
    ) by {
        assert(whole[n + 5 + j] == t5[n + 5 + j]);
    }
    lemma_still(whole, trees, n + 5, nodes, k);
    assert forall|j: int| 0 <= j < k implies (#[trigger] l2[n + 5 + j]).rep->MaybeWindow_0
        == a.window_at(nodes[j]) by {
        assert(whole[n + 5 + j] == l2[n + 5 + j]);
        lemma_still(whole, trees, n + 5, nodes, j);
        assert(acts_in_order(trees[n + 5 + j], whole[n + 5 + j], trees[n + 5 + j + 1]));
    }
    lemma_along(l2, n + 5, nodes, a);
    assert forall|w: WindowId| #[trigger] a.order[layout].contains(w)
        <==> a.tiled[layout].contains(w) by {
        lemma_along_stands(a, nodes, w);
    }
}

/// A layout has given way to a new one of the other kind.
spec fn gave_way(
    a: Tree,
    layout: LayoutId,
    focused: Option<WindowId>,
    new_layout: LayoutId,
    b: Tree,
) -> bool {
    let windows = a.order[layout];
    let wanted = match focused {
        Some(wid) => Some(wid),
        None => if a.selected.contains_key(layout) {
            a.window_at(a.selected[layout])
        } else {
            None
        },
    };
    &&& !a.tiled.contains_key(new_layout)
    &&& b.tiled.contains_key(new_layout)
    &&& b.tiled[new_layout] == a.tiled[layout]
    &&& b.scroll.contains(new_layout) <==> !a.scroll.contains(layout)
    &&& wanted is Some && a.tiled[layout].contains(wanted->0) ==> b.window_at(
        b.selected[new_layout],
    ) == wanted && b.homes[b.selected[new_layout]] == new_layout
    &&& !a.scroll.contains(layout) ==> b.columns[new_layout].len() == windows.len() && forall|
        i: int,
    |
        0 <= i < windows.len() ==> #[trigger] b.columns[new_layout][i] == seq![windows[i]]
}

/// A layout gives its windows to a new one of another kind.
#[verifier::rlimit(60)]
proof fn lemma_converted(
    l: Log,
    visible_columns: u32,
    focused: Option<WindowId>,
    layout: LayoutId,
    kind: LayoutKind,
    l2: Log,
    new_layout: LayoutId,
    whole: Log,
    trees: Seq<Tree>,
)
    requires
        converted(l, visible_columns, focused, layout, kind, l2, new_layout),
        grew(l2, whole),
        is_ordered_tree(trees, whole, l.len() as int),
        trees[l.len() as int].tiled.contains_key(layout),
        trees[l.len() as int].scroll.contains(layout) <==> kind == LayoutKind::Tree,
        trees[l.len() as int].order[layout].no_duplicates(),
    ensures
        grew(l, l2),
        gave_way(trees[l.len() as int], layout, focused, new_layout, trees[l2.len() as int]),
{
    let n = l.len() as int;
    let a = trees[n];
    lemma_converted_grows(l, visible_columns, focused, layout, kind, l2, new_layout);
    let t0 = ask(l, l2, Req::LayoutKind(layout));
    assert(whole[n] == l2[n]);
    if answer(t0)->Kind_0 == kind {
        assert(l2[n] == t0[n]);
        assert(acts_in_order(trees[n], whole[n], trees[n + 1]));
        assert(false);
    }
    let t1 = ask(t0, l2, Req::Selection(layout));
    let t2 = ask(t1, l2, Req::WindowAt(answer(t1)->Node_0));
    let t3 = ask(t2, l2, Req::Root(layout));
    let t4 = ask(t3, l2, Req::TraversePostorder(answer(t3)->Node_0));
    let nodes = answer(t4)->Nodes_0;
    let k = nodes.len() as int;
    let windows = windows_named(l2, t4.len() as int, nodes.len());
    let asked = ask_each(t4, l2, window_questions(nodes));
    let t5 = ask(
        asked,
        l2,
        match kind {
            LayoutKind::Tree => Req::CreateLayout,
            LayoutKind::Scroll => Req::CreateScrollLayout,
        },
    );
    let wanted = if focused is Some {
        focused
    } else {
        answer(t2)->MaybeWindow_0
    };
    let t = choose|t: Log| #[trigger]
        moved_over(t5, windows, new_layout, kind, visible_columns, t) && match wanted {
            None => l2 == t,
            Some(wid) => {
                let t1 = ask(t, l2, Req::WindowNode(new_layout, wid));
                match answer(t1)->MaybeNode_0 {
                    None => l2 == t1,
                    Some(node) => l2 == ask(t1, l2, Req::Select(node)),
                }
            },
        };
    lemma_moved_over_grows(t5, windows, new_layout, kind, visible_columns, t);
    assert(grew(t5, l2));
    assert(grew(t, l2));
    assert(grew(t5, whole));
    assert(grew(t, whole));
    assert forall|i: int| 0 <= i < k implies (#[trigger] t5[n + 5 + i]).req == Req::WindowAt(
        nodes[i],
    ) by {
        assert(t5[n + 5 + i].req == window_questions(nodes)[i]);
    }
    assert(l2[n + 1] == t5[n + 1] && l2[n + 2] == t5[n + 2] && l2[n + 3] == t5[n + 3] && l2[n + 4]
        == t5[n + 4]);
    lemma_read(l, layout, t5, l2, whole, trees);
    assert(whole[n + 5 + k] == t5[n + 5 + k]);
    assert(acts_in_order(trees[n + 5 + k], whole[n + 5 + k], trees[n + 6 + k]));
    lemma_moved(t5, windows, new_layout, kind, visible_columns, t, whole, trees);
    let m = t.len() as int;
    let b = trees[l2.len() as int];
    assert(trees[m].tiled[new_layout] =~= a.tiled[layout]);
    if wanted is Some {
        assert(whole[m] == l2[m]);
        assert(acts_in_order(trees[m], whole[m], trees[m + 1]));
        let t6 = ask(t, l2, Req::WindowNode(new_layout, wanted->0));
        if answer(t6)->MaybeNode_0 is Some {
            assert(whole[m + 1] == l2[m + 1]);
            assert(acts_in_order(trees[m + 1], whole[m + 1], trees[m + 2]));
        }
    }
}

/// Which windows there are along nodes.
proof fn lemma_along_stands(tree: Tree, nodes: Seq<NodeId>, wid: WindowId)
    ensures
        windows_along(tree, nodes).contains(wid) <==> exists|i: int|
            0 <= i < nodes.len() && tree.window_at(#[trigger] nodes[i]) == Some(wid),
    decreases nodes.len(),
{
    if nodes.len() > 0 {
        let front = nodes.drop_last();
        let before = windows_along(tree, front);
        let now = windows_along(tree, nodes);
        lemma_along_stands(tree, front, wid);
        if now.contains(wid) {
            let k = choose|k: int| 0 <= k < now.len() && now[k] == wid;
            if k < before.len() {
                assert(before[k] == wid);
                let i = choose|i: int|
                    0 <= i < front.len() && tree.window_at(#[trigger] front[i]) == Some(wid);
                assert(nodes[i] == front[i]);
            } else {
                assert(tree.window_at(nodes[nodes.len() - 1]) == Some(wid));
            }
        }
        if exists|i: int|
            0 <= i < nodes.len() && tree.window_at(#[trigger] nodes[i]) == Some(wid) {
            let i = choose|i: int|
                0 <= i < nodes.len() && tree.window_at(#[trigger] nodes[i]) == Some(wid);
            if i < front.len() {
                assert(front[i] == nodes[i]);
                let k = choose|k: int| 0 <= k < before.len() && before[k] == wid;
                assert(now[k] == wid);
            } else {
                assert(now[now.len() - 1] == wid);
            }
        }
    }
}

/// Changing the kind of a layout keeps its windows: a tree layout gives way to a scroll
/// layout, and the other way round, and the space's new layout tiles what the old one did. A
/// scroll layout that came of it has as many columns as the old layout had windows, each
/// with one window, in the old order. The focused window, or else the one that was
/// selected, is selected in the new layout, if the old one had it; and the old layout has no
/// viewport any more. No window is in the old layout twice.
pub proof fn law_change_of_kind_keeps_windows(
    s: State,
    l: Log,
    space: SpaceId,
    visible: Seq<SpaceId>,
    s2: State,
    l2: Log,
    r: Response,
    trees: Seq<Tree>,
)
    requires
        command_handled(
            s,
            l,
            Some(space),
            visible,
            LayoutCommand::ChangeLayoutKind,
            s2,
            l2,
            r,
        ),
        s.scroll_enabled,
        !s.is_floating(),
        is_ordered_tree(trees, l2, l.len() as int),
        trees[l.len() as int].tiled.contains_key(s.spaces[space]),
        trees[l.len() as int].order[s.spaces[space]].no_duplicates(),
    ensures
        r == nothing(),
        ({
            let a = trees[l.len() as int];
            let b = trees.last();
            let old_layout = s.spaces[space];
            let new_layout = s2.spaces[space];
            let windows = a.order[old_layout];
            &&& s2 == State {
                spaces: s.spaces.insert(space, new_layout),
                viewports: s2.viewports,
                ..s
            }
            &&& !s2.viewports.contains(old_layout)
            &&& forall|x: LayoutId|
                x != old_layout ==> (#[trigger] s2.viewports.contains(x)
                    <==> s.viewports.contains(x))
            &&& !a.tiled.contains_key(new_layout)
            &&& b.tiled.contains_key(new_layout)
            &&& b.tiled[new_layout] == a.tiled[old_layout]
            &&& b.scroll.contains(new_layout) <==> !a.scroll.contains(old_layout)
        }),
        ({
            let a = trees[l.len() as int];
            let b = trees.last();
            let old_layout = s.spaces[space];
            let new_layout = s2.spaces[space];
            let windows = a.order[old_layout];
            let wanted = match s.focused {
                Some(wid) => Some(wid),
                None => if a.selected.contains_key(old_layout) {
                    a.window_at(a.selected[old_layout])
                } else {
                    None
                },
            };
            &&& wanted is Some && a.tiled[old_layout].contains(wanted->0) ==> b.window_at(
                b.selected[new_layout],
            ) == wanted && b.homes[b.selected[new_layout]] == new_layout
            &&& !a.scroll.contains(old_layout) ==> {
                &&& b.columns[new_layout].len() == windows.len()
                &&& forall|i: int|
                    0 <= i < windows.len() ==> #[trigger] b.columns[new_layout][i]
                        == seq![windows[i]]
            }
        }),
{
    let n = l.len() as int;
    let a = trees[n];
    let layout = s.spaces[space];
    let t0 = ask(l, l2, Req::LayoutKind(layout));
    let kind = match answer(t0)->Kind_0 {
        LayoutKind::Tree => LayoutKind::Scroll,
        LayoutKind::Scroll => LayoutKind::Tree,
    };
    let (t, new_layout) = choose|t: Log, new_layout: LayoutId|
        {
            &&& #[trigger] converted(
                t0,
                s.scroll.visible_columns,
                s.focused,
                layout,
                kind,
                t,
                new_layout,
            )
            &&& active_replaced(s, t, space, layout, new_layout, s2, l2)
        };
    lemma_replaced(s, l, space, kind, t, new_layout, s2, l2, trees);
}

/// A space gets a layout of another kind.
#[verifier::rlimit(60)]
proof fn lemma_replaced(
    s: State,
    l: Log,
    space: SpaceId,
    kind: LayoutKind,
    t: Log,
    new_layout: LayoutId,
    s2: State,
    l2: Log,
    trees: Seq<Tree>,
)
    requires
        ({
            let t0 = ask(l, l2, Req::LayoutKind(s.spaces[space]));
            &&& converted(
                t0,
                s.scroll.visible_columns,
                s.focused,
                s.spaces[space],
                kind,
                t,
                new_layout,
            )
            &&& kind == if answer(t0)->Kind_0 == LayoutKind::Tree {
                LayoutKind::Scroll
            } else {
                LayoutKind::Tree
            }
        }),
        active_replaced(s, t, space, s.spaces[space], new_layout, s2, l2),
        is_ordered_tree(trees, l2, l.len() as int),
        trees[l.len() as int].tiled.contains_key(s.spaces[space]),
        trees[l.len() as int].order[s.spaces[space]].no_duplicates(),
    ensures
        gave_way(
            trees[l.len() as int],
            s.spaces[space],
            s.focused,
            new_layout,
            trees[l2.len() as int],
        ),
        s2.spaces == s.spaces.insert(space, new_layout),
        forall|x: LayoutId| #[trigger]
            s2.viewports.contains(x) <==> s.viewports.contains(x) && x != s.spaces[space],
        s2 == (State { spaces: s2.spaces, viewports: s2.viewports, ..s }),
{
    let n = l.len() as int;
    let layout = s.spaces[space];
    let t0 = ask(l, l2, Req::LayoutKind(layout));
    lemma_converted_grows(t0, s.scroll.visible_columns, s.focused, layout, kind, t, new_layout);
    let m = t.len() as int;
    let t1 = ask(t, l2, Req::ReplaceActiveLayout(space, new_layout));
    assert(grew(t1, l2));
    assert(grew(t, l2));
    assert(grew(t0, l2));
    assert(l2[n] == t0[n]);
    assert(acts_in_order(trees[n], l2[n], trees[n + 1]));
    lemma_converted(
        t0,
        s.scroll.visible_columns,
        s.focused,
        layout,
        kind,
        t,
        new_layout,
        l2,
        trees,
    );
    assert(l2[m] == t1[m]);
    assert(acts_in_order(trees[m], l2[m], trees[m + 1]));
    if l2.len() > m + 1 {
        assert(acts_in_order(trees[m + 1], l2[m + 1], trees[m + 2]));
    }
    assert forall|x: LayoutId| #[trigger] s2.viewports.contains(x) <==> s.viewports.contains(x) && x
        != layout by {
        lemma_left_out(s.viewports, layout, x);
    }
}

/// The requests that move windows to a new layout: each is taken out of where it is, and
/// added to the new layout, in a new column where it scrolls and behind the selection where
/// it does not.
pub open spec fn moving(
    windows: Seq<WindowId>,
    layout: LayoutId,
    kind: LayoutKind,
    visible_columns: u32,
    selection: NodeId,
) -> Seq<Req>
    decreases windows.len(),
{
    if windows.len() == 0 {
        Seq::empty()
    } else {
        let wid = windows.last();
        moving(windows.drop_last(), layout, kind, visible_columns, selection) + seq![
            Req::RemoveWindow(wid),
            if kind == LayoutKind::Scroll {
                Req::AddWindowToScrollColumn(layout, wid, true, visible_columns)
            } else {
                Req::AddWindowAfter(layout, selection, wid)
            },
        ]
    }
}

proof fn lemma_moving(
    l: Log,
    windows: Seq<WindowId>,
    layout: LayoutId,
    kind: LayoutKind,
    visible_columns: u32,
    l2: Log,
    reply: spec_fn(Req) -> Rep,
    from: int,
)
    requires
        moved_over(l, windows, layout, kind, visible_columns, l2),
        answered_by(reply, l2, from),
        0 <= from <= l.len(),
    ensures
        grew(l, l2),
        deeds(l2, from) == deeds(l, from) + moving(
            windows,
            layout,
            kind,
            visible_columns,
            reply(Req::Selection(layout))->Node_0,
        ),
    decreases windows.len(),
{
    broadcast use group_deeds;

    let selection = reply(Req::Selection(layout))->Node_0;
    lemma_moved_over_grows(l, windows, layout, kind, visible_columns, l2);
    if windows.len() == 0 {
        assert(deeds(l, from) + Seq::<Req>::empty() =~= deeds(l, from));
    } else {
        let n = l2.len() as int;
        let front = windows.drop_last();
        let wid = windows.last();
        let m = match kind {
            LayoutKind::Scroll => n - 2,
            LayoutKind::Tree => n - 3,
        };
        let before = l2.take(m);
        lemma_moved_over_grows(l, front, layout, kind, visible_columns, before);
        assert(grew(before, l2));
        lemma_reply_part(reply, before, l2, from);
        lemma_moving(l, front, layout, kind, visible_columns, before, reply, from);
        let t = ask(before, l2, Req::RemoveWindow(wid));
        if kind == LayoutKind::Tree {
            let t1 = ask(t, l2, Req::Selection(layout));
            lemma_reply(reply, t, l2, Req::Selection(layout), from);
        }
        let old = deeds(l, from);
        let moved = moving(front, layout, kind, visible_columns, selection);
        let added = if kind == LayoutKind::Scroll {
            Req::AddWindowToScrollColumn(layout, wid, true, visible_columns)
        } else {
            Req::AddWindowAfter(layout, selection, wid)
        };
        assert((old + moved).push(Req::RemoveWindow(wid)).push(added) =~= old + (moved + seq![
            Req::RemoveWindow(wid),
            added,
        ]));
    }
}

/// What is asked on a change of the kind of a layout: a layout of the other kind is made, the
/// windows of the old one are moved there in the order in which the old layout lists them,
/// the focused window, or else the one that was selected, is selected there, and the space
/// gets the new layout. The viewport of the old one is closed.
#[verifier::rlimit(60)]
pub proof fn law_change_of_kind_moves_in_order(
    s: State,
    l: Log,
    space: SpaceId,
    visible: Seq<SpaceId>,
    s2: State,
    l2: Log,
    r: Response,
    reply: spec_fn(Req) -> Rep,
)
    requires
        command_handled(
            s,
            l,
            Some(space),
            visible,
            LayoutCommand::ChangeLayoutKind,
            s2,
            l2,
            r,
        ),
        s.scroll_enabled,
        !s.is_floating(),
        answered_by(reply, l2, l.len() as int),
    ensures
        r == nothing(),
        ({
            let layout = s.spaces[space];
            let scrolls = reply(Req::LayoutKind(layout))->Kind_0 == LayoutKind::Scroll;
            let made = if scrolls {
                Req::CreateLayout
            } else {
                Req::CreateScrollLayout
            };
            let kind = if scrolls {
                LayoutKind::Tree
            } else {
                LayoutKind::Scroll
            };
            let new_layout = reply(made)->Layout_0;
            let windows = windows_of(
                reply,
                reply(Req::TraversePostorder(reply(Req::Root(layout))->Node_0))->Nodes_0,
            );
            let wanted = match s.focused {
                Some(wid) => Some(wid),
                None => reply(
                    Req::WindowAt(reply(Req::Selection(layout))->Node_0),
                )->MaybeWindow_0,
            };
            let selected = match wanted {
                Some(wid) => reply(Req::WindowNode(new_layout, wid))->MaybeNode_0,
                None => None,
            };
            let replaced = Req::ReplaceActiveLayout(space, new_layout);
            &&& s2.spaces == s.spaces.insert(space, reply(replaced)->Layout_0)
            &&& deeds(l2, l.len() as int) == seq![made] + moving(
                windows,
                new_layout,
                kind,
                s.scroll.visible_columns,
                reply(Req::Selection(new_layout))->Node_0,
            ) + (match selected {
                Some(node) => seq![Req::Select(node)],
                None => Seq::empty(),
            }) + seq![replaced] + if s.viewports.contains(layout) {
                seq![Req::CloseViewport(layout)]
            } else {
                Seq::empty()
            }
        }),
{
    broadcast use group_deeds;

    let n = l.len() as int;
    let layout = s.spaces[space];
    let q0 = Req::LayoutKind(layout);
    let t0 = ask(l, l2, q0);
    let kind = match answer(t0)->Kind_0 {
        LayoutKind::Tree => LayoutKind::Scroll,
        LayoutKind::Scroll => LayoutKind::Tree,
    };
    let (t, new_layout) = choose|t: Log, new_layout: LayoutId|
        {
            &&& #[trigger] converted(
                t0,
                s.scroll.visible_columns,
                s.focused,
                layout,
                kind,
                t,
                new_layout,
            )
            &&& active_replaced(s, t, space, layout, new_layout, s2, l2)
        };
    lemma_converted_grows(t0, s.scroll.visible_columns, s.focused, layout, kind, t, new_layout);
    let replaced = Req::ReplaceActiveLayout(space, new_layout);
    let t1 = ask(t, l2, replaced);
    assert(grew(t1, l2));
    lemma_reply(reply, t, l2, replaced, n);
    assert(grew(t0, l2));
    lemma_reply(reply, l, l2, q0, n);
    lemma_reply_part(reply, t, l2, n);
    lemma_converted_deeds(
        t0,
        s.scroll.visible_columns,
        s.focused,
        layout,
        kind,
        t,
        new_layout,
        reply,
        n,
    );
    let all = deeds(t, n);
    assert(all.push(replaced) =~= all + seq![replaced] + Seq::<Req>::empty());
    if s.viewports.contains(layout) {
        assert(all.push(replaced).push(Req::CloseViewport(layout)) =~= all + seq![replaced] + seq![
            Req::CloseViewport(layout),
        ]);
    }
}

#[verifier::rlimit(60)]
proof fn lemma_converted_deeds(
    l: Log,
    visible_columns: u32,
    focused: Option<WindowId>,
    layout: LayoutId,
    kind: LayoutKind,
    l2: Log,
    new_layout: LayoutId,
    reply: spec_fn(Req) -> Rep,
    from: int,
)
    requires
        converted(l, visible_columns, focused, layout, kind, l2, new_layout),
        answered_by(reply, l2, from),
        0 <= from <= l.len(),
        deeds(l, from) == Seq::<Req>::empty(),
        reply(Req::LayoutKind(layout))->Kind_0 != kind,
    ensures
        ({
            let made = match kind {
                LayoutKind::Tree => Req::CreateLayout,
                LayoutKind::Scroll => Req::CreateScrollLayout,
            };
            let windows = windows_of(
                reply,
                reply(Req::TraversePostorder(reply(Req::Root(layout))->Node_0))->Nodes_0,
            );
            let wanted = match focused {
                Some(wid) => Some(wid),
                None => reply(
                    Req::WindowAt(reply(Req::Selection(layout))->Node_0),
                )->MaybeWindow_0,
            };
            let selected = match wanted {
                Some(wid) => reply(Req::WindowNode(new_layout, wid))->MaybeNode_0,
                None => None,
            };
            &&& new_layout == reply(made)->Layout_0
            &&& deeds(l2, from) == seq![made] + moving(
                windows,
                new_layout,
                kind,
                visible_columns,
                reply(Req::Selection(new_layout))->Node_0,
            ) + (match selected {
                Some(node) => seq![Req::Select(node)],
                None => Seq::empty(),
            })
        }),
{
    broadcast use group_deeds;

    lemma_converted_grows(l, visible_columns, focused, layout, kind, l2, new_layout);
    let q0 = Req::LayoutKind(layout);
    let t0 = ask(l, l2, q0);
    assert(l2[l.len() as int].rep == t0[l.len() as int].rep);
    if answer(t0)->Kind_0 == kind {
        lemma_reply(reply, l, l2, q0, from);
        assert(false);
    }
    let q1 = Req::Selection(layout);
    let t1 = ask(t0, l2, q1);
    let q2 = Req::WindowAt(answer(t1)->Node_0);
    let t2 = ask(t1, l2, q2);
    let q3 = Req::Root(layout);
    let t3 = ask(t2, l2, q3);
    let q4 = Req::TraversePostorder(answer(t3)->Node_0);
    let t4 = ask(t3, l2, q4);
    let nodes = answer(t4)->Nodes_0;
    let windows = windows_named(l2, t4.len() as int, nodes.len());
    let qs = window_questions(nodes);
    let asked = ask_each(t4, l2, qs);
    let made = match kind {
        LayoutKind::Tree => Req::CreateLayout,
        LayoutKind::Scroll => Req::CreateScrollLayout,
    };
    let t5 = ask(asked, l2, made);
    let wanted = if focused is Some {
        focused
    } else {
        answer(t2)->MaybeWindow_0
    };
    let t = choose|t: Log| #[trigger]
        moved_over(t5, windows, new_layout, kind, visible_columns, t) && match wanted {
            None => l2 == t,
            Some(wid) => {
                let t1 = ask(t, l2, Req::WindowNode(new_layout, wid));
                match answer(t1)->MaybeNode_0 {
                    None => l2 == t1,
                    Some(node) => l2 == ask(t1, l2, Req::Select(node)),
                }
            },
        };
    lemma_moved_over_grows(t5, windows, new_layout, kind, visible_columns, t);
    assert(grew(t, l2));
    assert(grew(t5, l2));
    lemma_reply(reply, asked, l2, made, from);
    assert(grew(t4, l2));
    lemma_reply(reply, t3, l2, q4, from);
    lemma_reply(reply, t2, l2, q3, from);
    lemma_reply(reply, t1, l2, q2, from);
    lemma_reply(reply, t0, l2, q1, from);
    assert forall|i: int| 0 <= i < nodes.len() implies (#[trigger] l2[t4.len() + i]).rep == reply(
        Req::WindowAt(nodes[i]),
    ) by {
        assert(l2[t4.len() + i] == t5[t4.len() + i]);
        assert(t5[t4.len() + i].req == qs[i]);
    }
    lemma_windows_of(l2, t4.len() as int, nodes, reply);
    assert(asked =~= ask_each(t4, asked, qs)) by {
        assert forall|i: int| 0 <= i < asked.len() implies #[trigger] asked[i] == ask_each(
            t4,
            asked,
            qs,
        )[i] by {
            assert(l2[i] == t5[i]);
        }
    }
    lemma_each_asked(t4, asked, qs);
    let start = l.take(from);
    assert(grew(start, t4));
    lemma_deeds_join(start, t4, asked);
    lemma_reply_part(reply, t, l2, from);
    lemma_moving(t5, windows, new_layout, kind, visible_columns, t, reply, from);
    let moved = moving(
        windows,
        new_layout,
        kind,
        visible_columns,
        reply(Req::Selection(new_layout))->Node_0,
    );
    assert(deeds(t5, from) =~= seq![made]);
    if let Some(wid) = wanted {
        lemma_reply(reply, t, l2, Req::WindowNode(new_layout, wid), from);
    }
    assert(seq![made] + moved + Seq::<Req>::empty() =~= seq![made] + moved);
}

} // verus!
