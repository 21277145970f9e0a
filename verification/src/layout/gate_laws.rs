//! What turning scroll layouts off does to the layouts of a tree.

use vstd::prelude::*;

use crate::collections::lists;
use crate::config::Config;
use crate::ids::{LayoutId, LayoutKind, NodeId, Size, SpaceId, WindowId};
use crate::layout::conversion::{
    active_replaced, config_set, configured, converted, kind_allowed, kinds_allowed, moved_over,
};
use crate::layout::events::{event_handled, exposed_settled, top_layer, LayoutEventView};
use crate::layout::laws::{lemma_converted_grows, lemma_moved_over_grows};
use crate::layout::state::State;
use crate::layout::traversal::{window_questions, windows_named};
use crate::layout::tree_model::{
    acts_as_tree, all_in_tree, is_tree, stand_for, tiled_once, tiles_alike, Tree,
};
use crate::link::{answer, ask, ask_each, grew, Log, Req};
use crate::response::Response;

verus! {

/// A new tree layout tiles what an old layout did, and no other layout tiles any of it.
pub open spec fn handed_over(a: Tree, layout: LayoutId, new_layout: LayoutId, b: Tree) -> bool {
    &&& !a.tiled.contains_key(new_layout)
    &&& b.tiled.contains_key(new_layout)
    &&& !b.scroll.contains(new_layout)
    &&& b.tiled[new_layout] == a.tiled[layout]
    &&& forall|x: LayoutId| #[trigger]
        a.tiled.contains_key(x) ==> b.tiled.contains_key(x) && (b.scroll.contains(x)
            <==> a.scroll.contains(x)) && b.tiled[x] == a.tiled[x].difference(a.tiled[layout])
}

/// The windows that are named are those of the answers.
proof fn lemma_named(answers: Log, start: int, n: nat, wid: WindowId)
    ensures
        windows_named(answers, start, n).contains(wid) <==> exists|i: int|
            start <= i < start + n && (#[trigger] answers[i]).rep->MaybeWindow_0 == Some(wid),
    decreases n,
{
    if n > 0 {
        lemma_named(answers, start, (n - 1) as nat, wid);
        let before = windows_named(answers, start, (n - 1) as nat);
        let now = windows_named(answers, start, n);
        let at = start + n - 1;
        if before.contains(wid) {
            let k = choose|k: int| 0 <= k < before.len() && before[k] == wid;
            assert(now[k] == wid);
        }
        if let Some(last) = answers[at].rep->MaybeWindow_0 {
            assert(now[before.len() as int] == last);
            if now.contains(wid) && wid != last {
                let k = choose|k: int| 0 <= k < now.len() && now[k] == wid;
                assert(before[k] == wid);
            }
        }
        if exists|i: int|
            start <= i < start + n && (#[trigger] answers[i]).rep->MaybeWindow_0 == Some(wid) {
            let i = choose|i: int|
                start <= i < start + n && (#[trigger] answers[i]).rep->MaybeWindow_0 == Some(wid);
            if i < at {
                assert(start <= i < start + (n - 1));
            }
        }
    }
}

/// Windows that are moved over leave all layouts for the new one.
proof fn lemma_moved_over(
    l: Log,
    windows: Seq<WindowId>,
    layout: LayoutId,
    visible_columns: u32,
    l2: Log,
    whole: Log,
    trees: Seq<Tree>,
)
    requires
        moved_over(l, windows, layout, LayoutKind::Tree, visible_columns, l2),
        grew(l2, whole),
        is_tree(trees, whole, l.len() as int),
        trees[l.len() as int].tiled.contains_key(layout),
        trees[l.len() as int].tiled[layout] == Set::<WindowId>::empty(),
    ensures
        ({
            let a = trees[l.len() as int];
            let b = trees[l2.len() as int];
            &&& b.scroll == a.scroll
            &&& forall|x: LayoutId| #[trigger] b.tiled.contains_key(x) <==> a.tiled.contains_key(x)
            &&& forall|x: LayoutId, wid: WindowId|
                a.tiled.contains_key(x) ==> (#[trigger] b.tiled[x].contains(wid) <==> if x == layout {
                    windows.contains(wid)
                } else {
                    a.tiled[x].contains(wid) && !windows.contains(wid)
                })
        }),
    decreases windows.len(),
{
    if windows.len() > 0 {
        let n = l2.len() as int;
        let before = l2.take(n - 3);
        let wid = windows.last();
        lemma_moved_over_grows(
            l,
            windows.drop_last(),
            layout,
            LayoutKind::Tree,
            visible_columns,
            before,
        );
        assert(grew(before, whole));
        lemma_moved_over(
            l,
            windows.drop_last(),
            layout,
            visible_columns,
            before,
            whole,
            trees,
        );
        let a = trees[l.len() as int];
        let c = trees[n - 3];
        let b = trees[n];
        assert(whole[n - 3] == l2[n - 3] && l2[n - 3].req == Req::RemoveWindow(wid));
        assert(whole[n - 2] == l2[n - 2] && l2[n - 2].req == Req::Selection(layout));
        assert(whole[n - 1] == l2[n - 1] && l2[n - 1].req is AddWindowAfter);
        assert(acts_as_tree(trees[n - 3], whole[n - 3], trees[n - 2]));
        assert(acts_as_tree(trees[n - 2], whole[n - 2], trees[n - 1]));
        assert(acts_as_tree(trees[n - 1], whole[n - 1], trees[n]));
        let front = windows.drop_last();
        assert forall|w: WindowId| #[trigger] windows.contains(w) <==> front.contains(w) || w == wid by {
            assert(windows[windows.len() - 1] == wid);
            if front.contains(w) {
                let k = choose|k: int| 0 <= k < front.len() && front[k] == w;
                assert(windows[k] == w);
            }
            if windows.contains(w) && w != wid {
                let k = choose|k: int| 0 <= k < windows.len() && windows[k] == w;
                assert(front[k] == w);
            }
        }
        assert forall|x: LayoutId, w: WindowId| a.tiled.contains_key(x) implies (
        #[trigger] b.tiled[x].contains(w) <==> if x == layout {
            windows.contains(w)
        } else {
            a.tiled[x].contains(w) && !windows.contains(w)
        }) by {
            assert(c.tiled.contains_key(x));
            assert(c.tiled[x].contains(w) <==> if x == layout {
                front.contains(w)
            } else {
                a.tiled[x].contains(w) && !front.contains(w)
            });
            assert(trees[n - 2].tiled[x] == c.tiled[x].remove(wid));
        }
    } else {
        let a = trees[l.len() as int];
        assert forall|wid: WindowId| !windows.contains(wid) by {}
    }
}

/// What is asked while a layout of another kind is turned into a tree. The result is
/// the record up to where the windows have been moved.
proof fn lemma_converted_record(
    l: Log,
    visible_columns: u32,
    focused: Option<WindowId>,
    layout: LayoutId,
    l2: Log,
    new_layout: LayoutId,
) -> (t: Log)
    requires
        converted(l, visible_columns, focused, layout, LayoutKind::Tree, l2, new_layout),
        l2[l.len() as int].rep->Kind_0 != LayoutKind::Tree,
    ensures
        ({
            let n = l.len() as int;
            let nodes = l2[n + 4].rep->Nodes_0;
            let k = nodes.len() as int;
            &&& grew(l, l2)
            &&& l2.len() >= n + 6 + k
            &&& l2[n].req == Req::LayoutKind(layout)
            &&& l2[n + 1].req == Req::Selection(layout)
            &&& l2[n + 2].req is WindowAt
            &&& l2[n + 3].req == Req::Root(layout)
            &&& l2[n + 4].req == Req::TraversePostorder(l2[n + 3].rep->Node_0)
            &&& forall|i: int|
                0 <= i < k ==> #[trigger] l2[n + 5 + i].req == Req::WindowAt(nodes[i])
            &&& l2[n + 5 + k].req == Req::CreateLayout
            &&& new_layout == l2[n + 5 + k].rep->Layout_0
            &&& moved_over(
                l2.take(n + 6 + k),
                windows_named(l2, n + 5, nodes.len()),
                new_layout,
                LayoutKind::Tree,
                visible_columns,
                t,
            )
            &&& grew(l2.take(n + 6 + k), t)
            &&& grew(t, l2)
            &&& l2.len() <= t.len() + 2
            &&& l2.len() > t.len() ==> l2[t.len() as int].req is WindowNode
            &&& l2.len() > t.len() + 1 ==> l2[t.len() as int + 1].req is Select
        }),
{
    let n = l.len() as int;
    let t0 = ask(l, l2, Req::LayoutKind(layout));
    assert(answer(t0)->Kind_0 == l2[n].rep->Kind_0);
    let t1 = ask(t0, l2, Req::Selection(layout));
    let t2 = ask(t1, l2, Req::WindowAt(answer(t1)->Node_0));
    let t3 = ask(t2, l2, Req::Root(layout));
    let t4 = ask(t3, l2, Req::TraversePostorder(answer(t3)->Node_0));
    let nodes = answer(t4)->Nodes_0;
    let k = nodes.len() as int;
    let windows = windows_named(l2, t4.len() as int, nodes.len());
    let asked = ask_each(t4, l2, window_questions(nodes));
    let t5 = ask(asked, l2, Req::CreateLayout);
    let wanted = if focused is Some {
        focused
    } else {
        answer(t2)->MaybeWindow_0
    };
    let t = choose|t: Log| #[trigger]
        moved_over(t5, windows, new_layout, LayoutKind::Tree, visible_columns, t) && match wanted {
            None => l2 == t,
            Some(wid) => {
                let t1 = ask(t, l2, Req::WindowNode(new_layout, wid));
                match answer(t1)->MaybeNode_0 {
                    None => l2 == t1,
                    Some(node) => l2 == ask(t1, l2, Req::Select(node)),
                }
            },
        };
    lemma_moved_over_grows(t5, windows, new_layout, LayoutKind::Tree, visible_columns, t);
    assert(grew(t5, l2));
    assert(t5.len() == n + 6 + k);
    assert(l2.take(n + 6 + k) =~= t5);
    assert(l2[n] == t5[n]);
    assert(l2[n + 1] == t5[n + 1]);
    assert(l2[n + 2] == t5[n + 2]);
    assert(l2[n + 3] == t5[n + 3]);
    assert(l2[n + 4] == t5[n + 4]);
    assert(l2[n + 5 + k] == t5[n + 5 + k]);
    assert forall|i: int| 0 <= i < k implies #[trigger] l2[n + 5 + i].req == Req::WindowAt(
        nodes[i],
    ) by {
        assert(l2[n + 5 + i] == t5[n + 5 + i]);
        assert(t5[n + 5 + i].req == window_questions(nodes)[i]);
    }
    t
}

/// Where the nodes of a tree are asked for their windows, those that the layout tiles
/// are named.
proof fn lemma_named_are_tiled(
    log: Log,
    whole: Log,
    trees: Seq<Tree>,
    start: int,
    nodes: Seq<NodeId>,
    wids: Set<WindowId>,
)
    requires
        grew(log, whole),
        is_tree(trees, whole, start),
        0 <= start,
        start + nodes.len() <= log.len(),
        stand_for(trees[start], nodes, wids),
        forall|j: int|
            0 <= j < nodes.len() ==> #[trigger] log[start + j].req == Req::WindowAt(nodes[j]),
    ensures
        trees[start + nodes.len()] == trees[start],
        forall|wid: WindowId| #[trigger]
            windows_named(log, start, nodes.len()).contains(wid) <==> wids.contains(wid),
{
    let tree = trees[start];
    assert forall|j: int| 0 <= j < nodes.len() implies #[trigger] whole[start + j].req
        == Req::WindowAt(nodes[j]) by {
        assert(whole[start + j] == log[start + j]);
    }
    lemma_questions_change_nothing(whole, trees, start, nodes, nodes.len() as int);
    assert forall|i: int| 0 <= i < nodes.len() implies (
    #[trigger] log[start + i]).rep->MaybeWindow_0 == tree.window_at(nodes[i]) by {
        assert(whole[start + i] == log[start + i]);
        assert(acts_as_tree(trees[start + i], whole[start + i], trees[start + i + 1]));
        lemma_questions_change_nothing(whole, trees, start, nodes, i);
    }
    let named = windows_named(log, start, nodes.len());
    assert forall|wid: WindowId| #[trigger] named.contains(wid) <==> wids.contains(wid) by {
        lemma_named(log, start, nodes.len(), wid);
        if named.contains(wid) {
            let i = choose|i: int|
                start <= i < start + nodes.len() && (#[trigger] log[i]).rep->MaybeWindow_0 == Some(
                    wid,
                );
            assert(log[start + (i - start)].rep->MaybeWindow_0 == tree.window_at(nodes[i - start]));
        }
        if wids.contains(wid) {
            let i = choose|i: int|
                0 <= i < nodes.len() && tree.window_at(#[trigger] nodes[i]) == Some(wid);
            assert(log[start + i].rep->MaybeWindow_0 == Some(wid));
        }
    }
}

/// A scroll layout gives its windows to a new tree layout.
proof fn lemma_converted(
    l: Log,
    visible_columns: u32,
    focused: Option<WindowId>,
    layout: LayoutId,
    l2: Log,
    new_layout: LayoutId,
    whole: Log,
    trees: Seq<Tree>,
)
    requires
        converted(l, visible_columns, focused, layout, LayoutKind::Tree, l2, new_layout),
        grew(l2, whole),
        is_tree(trees, whole, l.len() as int),
        trees[l.len() as int].tiled.contains_key(layout),
        trees[l.len() as int].scroll.contains(layout),
    ensures
        grew(l, l2),
        handed_over(trees[l.len() as int], layout, new_layout, trees[l2.len() as int]),
{
    let n = l.len() as int;
    let a = trees[n];
    lemma_converted_grows(l, visible_columns, focused, layout, LayoutKind::Tree, l2, new_layout);
    assert(whole[n] == l2[n]);
    let t0 = ask(l, l2, Req::LayoutKind(layout));
    if l2[n].rep->Kind_0 == LayoutKind::Tree {
        assert(answer(t0)->Kind_0 == LayoutKind::Tree);
        assert(whole[n] == t0[n]);
        assert(acts_as_tree(trees[n], whole[n], trees[n + 1]));
        assert(false);
    }
    let t = lemma_converted_record(l, visible_columns, focused, layout, l2, new_layout);
    let nodes = l2[n + 4].rep->Nodes_0;
    let k = nodes.len() as int;
    let windows = windows_named(l2, n + 5, nodes.len());
    let t5 = l2.take(n + 6 + k);
    lemma_before_windows(l2, n, layout, whole, trees);
    lemma_named_are_tiled(l2, whole, trees, n + 5, nodes, a.tiled[layout]);
    let d = trees[n + 5 + k];
    assert(tiles_alike(a, d));
    let e = trees[n + 6 + k];
    assert(whole[n + 5 + k] == l2[n + 5 + k]);
    assert(acts_as_tree(trees[n + 5 + k], whole[n + 5 + k], trees[n + 6 + k]));
    assert(grew(t, whole));
    lemma_moved_over(t5, windows, new_layout, visible_columns, t, whole, trees);
    let f = trees[t.len() as int];
    let b = trees[l2.len() as int];
    let m = t.len() as int;
    if l2.len() > m {
        assert(whole[m] == l2[m]);
        assert(acts_as_tree(trees[m], whole[m], trees[m + 1]));
    }
    if l2.len() > m + 1 {
        assert(whole[m + 1] == l2[m + 1]);
        assert(acts_as_tree(trees[m + 1], whole[m + 1], trees[m + 2]));
    }
    assert(tiles_alike(f, b));
    assert(e.tiled.contains_key(new_layout));
    assert(b.tiled[new_layout] =~= a.tiled[layout]);
    assert forall|x: LayoutId| #[trigger] a.tiled.contains_key(x) implies b.tiled.contains_key(x) && (
    b.scroll.contains(x) <==> a.scroll.contains(x)) && b.tiled[x] == a.tiled[x].difference(
        a.tiled[layout],
    ) by {
        assert(e.tiled.contains_key(x));
        assert(e.tiled[x] == a.tiled[x]);
        assert(b.tiled[x] =~= a.tiled[x].difference(a.tiled[layout]));
    }
}

/// Looking up what a layout holds leaves the layouts as they are.
proof fn lemma_before_windows(l2: Log, n: int, layout: LayoutId, whole: Log, trees: Seq<Tree>)
    requires
        grew(l2, whole),
        is_tree(trees, whole, n),
        0 <= n,
        n + 5 <= l2.len(),
        trees[n].tiled.contains_key(layout),
        l2[n].req == Req::LayoutKind(layout),
        l2[n + 1].req == Req::Selection(layout),
        l2[n + 2].req is WindowAt,
        l2[n + 3].req == Req::Root(layout),
        l2[n + 4].req == Req::TraversePostorder(l2[n + 3].rep->Node_0),
    ensures
        tiles_alike(trees[n], trees[n + 5]),
        stand_for(trees[n + 5], l2[n + 4].rep->Nodes_0, trees[n].tiled[layout]),
{
    assert(whole[n] == l2[n]);
    assert(acts_as_tree(trees[n], whole[n], trees[n + 1]));
    assert(whole[n + 1] == l2[n + 1]);
    assert(acts_as_tree(trees[n + 1], whole[n + 1], trees[n + 2]));
    assert(whole[n + 2] == l2[n + 2]);
    assert(acts_as_tree(trees[n + 2], whole[n + 2], trees[n + 3]));
    assert(whole[n + 3] == l2[n + 3]);
    assert(acts_as_tree(trees[n + 3], whole[n + 3], trees[n + 4]));
    assert(whole[n + 4] == l2[n + 4]);
    assert(acts_as_tree(trees[n + 4], whole[n + 4], trees[n + 5]));
    assert(trees[n + 4].tiled.contains_key(layout));
}

/// Asking which windows nodes stand for leaves the tree as it is.
proof fn lemma_questions_change_nothing(
    whole: Log,
    trees: Seq<Tree>,
    start: int,
    nodes: Seq<NodeId>,
    i: int,
)
    requires
        is_tree(trees, whole, start),
        0 <= i <= nodes.len(),
        0 <= start,
        start + nodes.len() <= whole.len(),
        forall|j: int|
            0 <= j < nodes.len() ==> #[trigger] whole[start + j].req == Req::WindowAt(nodes[j]),
    ensures
        trees[start + i] == trees[start],
    decreases i,
{
    if i > 0 {
        lemma_questions_change_nothing(whole, trees, start, nodes, i - 1);
        assert(whole[start + (i - 1)].req == Req::WindowAt(nodes[i - 1]));
        assert(acts_as_tree(trees[start + i - 1], whole[start + i - 1], trees[start + i]));
    }
}

/// While scroll layouts are off, a space ends with a tree layout, which tiles what its
/// layout did; other layouts lose at most what that one tiles.
proof fn lemma_kind_allowed(
    s: State,
    l: Log,
    space: SpaceId,
    s2: State,
    l2: Log,
    whole: Log,
    trees: Seq<Tree>,
)
    requires
        kind_allowed(s, l, space, s2, l2),
        !s.scroll_enabled,
        s.spaces.contains_key(space),
        grew(l2, whole),
        is_tree(trees, whole, l.len() as int),
        trees[l.len() as int].tiled.contains_key(s.spaces[space]),
    ensures
        grew(l, l2),
        ({
            let a = trees[l.len() as int];
            let b = trees[l2.len() as int];
            let layout = s.spaces[space];
            let new_layout = s2.spaces[space];
            &&& s2 == State { spaces: s2.spaces, viewports: s2.viewports, ..s }
            &&& s2.spaces == s.spaces.insert(space, new_layout)
            &&& b.tiled.contains_key(new_layout)
            &&& !b.scroll.contains(new_layout)
            &&& b.tiled[new_layout] == a.tiled[layout]
            &&& handed_over(a, layout, new_layout, b) || (new_layout == layout && tiles_alike(a, b))
        }),
{
    let n = l.len() as int;
    let layout = s.spaces[space];
    let t = ask(l, l2, Req::IsScrollLayout(layout));
    if answer(t)->Flag_0 {
        let (u, new_layout) = choose|u: Log, new_layout: LayoutId|
            {
                &&& #[trigger] converted(
                    t,
                    s.scroll.visible_columns,
                    s.focused,
                    layout,
                    LayoutKind::Tree,
                    u,
                    new_layout,
                )
                &&& active_replaced(s, u, space, layout, new_layout, s2, l2)
            };
        lemma_converted_grows(
            t,
            s.scroll.visible_columns,
            s.focused,
            layout,
            LayoutKind::Tree,
            u,
            new_layout,
        );
        assert(grew(u, l2));
        assert(grew(t, l2));
        assert(grew(u, whole));
        assert(whole[n] == t[n]);
        assert(acts_as_tree(trees[n], whole[n], trees[n + 1]));
        lemma_converted(
            t,
            s.scroll.visible_columns,
            s.focused,
            layout,
            u,
            new_layout,
            whole,
            trees,
        );
        let m = u.len() as int;
        assert(whole[m] == l2[m] && l2[m].req == Req::ReplaceActiveLayout(space, new_layout));
        assert(acts_as_tree(trees[m], whole[m], trees[m + 1]));
        if l2.len() > m + 1 {
            assert(whole[m + 1] == l2[m + 1] && l2[m + 1].req is CloseViewport);
            assert(acts_as_tree(trees[m + 1], whole[m + 1], trees[m + 2]));
        }
        assert(l2.len() <= m + 2);
        assert(tiles_alike(trees[m], trees[l2.len() as int]));
        assert(s2.spaces == s.spaces.insert(space, new_layout));
    } else {
        assert(whole[n] == t[n]);
        assert(acts_as_tree(trees[n], whole[n], trees[n + 1]));
        assert(s.spaces =~= s.spaces.insert(space, layout));
    }
}

/// All spaces tile what they did, and those that were seen to have tree layouts.
spec fn brought_in_line(s: State, a: Tree, done: Seq<SpaceId>, m: State, b: Tree) -> bool {
    &&& m == State { spaces: m.spaces, viewports: m.viewports, ..s }
    &&& m.spaces.dom() == s.spaces.dom()
    &&& forall|space: SpaceId| #[trigger]
        s.spaces.contains_key(space) ==> {
            &&& b.tiled.contains_key(m.spaces[space])
            &&& b.tiled[m.spaces[space]] == a.tiled[s.spaces[space]]
            &&& done.contains(space) ==> !b.scroll.contains(m.spaces[space])
        }
}

proof fn lemma_kinds_grow(s: State, l: Log, spaces: Seq<SpaceId>, s2: State, l2: Log)
    requires
        kinds_allowed(s, l, spaces, s2, l2),
    ensures
        grew(l, l2),
    decreases spaces.len(),
{
    if spaces.len() > 0 {
        let (m, t) = choose|m: State, t: Log|
            kinds_allowed(s, l, spaces.drop_last(), m, t) && #[trigger] kind_allowed(
                m,
                t,
                spaces.last(),
                s2,
                l2,
            );
        lemma_kinds_grow(s, l, spaces.drop_last(), m, t);
        lemma_kind_grows(m, t, spaces.last(), s2, l2);
    }
}

proof fn lemma_kind_grows(s: State, l: Log, space: SpaceId, s2: State, l2: Log)
    requires
        kind_allowed(s, l, space, s2, l2),
    ensures
        grew(l, l2),
{
    if !s.scroll_enabled && s.spaces.contains_key(space) {
        let layout = s.spaces[space];
        let t = ask(l, l2, Req::IsScrollLayout(layout));
        if answer(t)->Flag_0 {
            let (u, new_layout) = choose|u: Log, new_layout: LayoutId|
                {
                    &&& #[trigger] converted(
                        t,
                        s.scroll.visible_columns,
                        s.focused,
                        layout,
                        LayoutKind::Tree,
                        u,
                        new_layout,
                    )
                    &&& active_replaced(s, u, space, layout, new_layout, s2, l2)
                };
            lemma_converted_grows(
                t,
                s.scroll.visible_columns,
                s.focused,
                layout,
                LayoutKind::Tree,
                u,
                new_layout,
            );
            assert(grew(u, l2));
        }
    }
}

proof fn lemma_kinds_allowed(
    s: State,
    l: Log,
    spaces: Seq<SpaceId>,
    s2: State,
    l2: Log,
    whole: Log,
    trees: Seq<Tree>,
)
    requires
        kinds_allowed(s, l, spaces, s2, l2),
        !s.scroll_enabled,
        forall|i: int| 0 <= i < spaces.len() ==> s.spaces.contains_key(#[trigger] spaces[i]),
        grew(l2, whole),
        is_tree(trees, whole, l.len() as int),
        all_in_tree(s.spaces, trees[l.len() as int]),
        tiled_once(s.spaces, trees[l.len() as int]),
    ensures
        brought_in_line(s, trees[l.len() as int], spaces, s2, trees[l2.len() as int]),
    decreases spaces.len(),
{
    let a = trees[l.len() as int];
    if spaces.len() > 0 {
        let front = spaces.drop_last();
        let last = spaces.last();
        let (m, t) = choose|m: State, t: Log|
            kinds_allowed(s, l, spaces.drop_last(), m, t) && #[trigger] kind_allowed(
                m,
                t,
                spaces.last(),
                s2,
                l2,
            );
        lemma_kinds_grow(s, l, front, m, t);
        lemma_kind_grows(m, t, last, s2, l2);
        assert(grew(t, whole));
        assert forall|i: int| 0 <= i < front.len() implies s.spaces.contains_key(
            #[trigger] front[i],
        ) by {
            assert(front[i] == spaces[i]);
        }
        lemma_kinds_allowed(s, l, front, m, t, whole, trees);
        let c = trees[t.len() as int];
        let b = trees[l2.len() as int];
        assert(s.spaces.contains_key(spaces[spaces.len() - 1]));
        assert(m.spaces.dom().contains(last));
        lemma_kind_allowed(m, t, last, s2, l2, whole, trees);
        assert(s2.spaces.dom() =~= s.spaces.dom());
        assert forall|space: SpaceId| #[trigger] s.spaces.contains_key(space) implies {
            &&& b.tiled.contains_key(s2.spaces[space])
            &&& b.tiled[s2.spaces[space]] == a.tiled[s.spaces[space]]
            &&& spaces.contains(space) ==> !b.scroll.contains(s2.spaces[space])
        } by {
            if space != last {
                let x = m.spaces[space];
                assert(s2.spaces[space] == x);
                assert(c.tiled.contains_key(x));
                if spaces.contains(space) {
                    let k = choose|k: int| 0 <= k < spaces.len() && spaces[k] == space;
                    assert(front[k] == space);
                }
                if handed_over(c, m.spaces[last], s2.spaces[last], b) {
                    assert forall|wid: WindowId| c.tiled[x].contains(wid) implies !c.tiled[m.spaces[last]].contains(
                        wid,
                    ) by {
                        assert(a.tiled[s.spaces[space]].contains(wid));
                        if c.tiled[m.spaces[last]].contains(wid) {
                            assert(a.tiled[s.spaces[last]].contains(wid));
                        }
                    }
                    assert(c.tiled[x].difference(c.tiled[m.spaces[last]]) =~= c.tiled[x]);
                }
            }
        }
    }
}

/// Turning scroll layouts off loses no window: with a layout tree in which no window
/// is tiled in two spaces, every space has a tree layout afterwards, which tiles the
/// windows that the space's layout tiled before. Spaces that are seen for the first
/// time later are to have tree layouts, whatever the configuration's default is.
pub proof fn law_gate_off_keeps_windows(
    s: State,
    l: Log,
    config: Config,
    s2: State,
    l2: Log,
    trees: Seq<Tree>,
)
    requires
        config_set(s, l, config, s2, l2),
        !config.valid_scroll.enable,
        is_tree(trees, l2, l.len() as int),
        all_in_tree(s.spaces, trees[l.len() as int]),
        tiled_once(s.spaces, trees[l.len() as int]),
    ensures
        s2 == (State { spaces: s2.spaces, viewports: s2.viewports, ..configured(s, config) }),
        s2.default_kind == LayoutKind::Tree,
        !s2.scroll_enabled,
        s2.spaces.dom() == s.spaces.dom(),
        all_in_tree(s2.spaces, trees[l2.len() as int]),
        tiled_once(s2.spaces, trees[l2.len() as int]),
        forall|space: SpaceId| #[trigger]
            s.spaces.contains_key(space) ==> {
                &&& !trees[l2.len() as int].scroll.contains(s2.spaces[space])
                &&& trees[l2.len() as int].tiled[s2.spaces[space]]
                    == trees[l.len() as int].tiled[s.spaces[space]]
            },
{
    let s1 = configured(s, config);
    let spaces = choose|spaces: Seq<SpaceId>| #[trigger]
        lists(spaces, s.spaces) && kinds_allowed(s1, l, spaces, s2, l2);
    let a = trees[l.len() as int];
    let b = trees[l2.len() as int];
    assert forall|i: int| 0 <= i < spaces.len() implies s1.spaces.contains_key(
        #[trigger] spaces[i],
    ) by {
        assert(spaces.contains(spaces[i]));
    }
    lemma_kinds_allowed(s1, l, spaces, s2, l2, l2, trees);
    assert forall|space: SpaceId| #[trigger] s2.spaces.contains_key(space) implies b.tiled.contains_key(
        s2.spaces[space],
    ) by {
        assert(s2.spaces.dom().contains(space));
        assert(s1.spaces.contains_key(space));
    }
    assert forall|x: SpaceId, y: SpaceId, wid: WindowId|
        x != y && s2.spaces.contains_key(x) && s2.spaces.contains_key(y) implies !(
    #[trigger] b.tiled[s2.spaces[x]].contains(wid)
        && #[trigger] b.tiled[s2.spaces[y]].contains(wid)) by {
        assert(s2.spaces.dom().contains(x) && s2.spaces.dom().contains(y));
        assert(s1.spaces.contains_key(x) && s1.spaces.contains_key(y));
        if b.tiled[s2.spaces[x]].contains(wid) && b.tiled[s2.spaces[y]].contains(wid) {
            assert(a.tiled[s.spaces[x]].contains(wid));
            assert(a.tiled[s.spaces[y]].contains(wid));
        }
    }
    assert forall|space: SpaceId| #[trigger] s.spaces.contains_key(space) implies !b.scroll.contains(
        s2.spaces[space],
    ) && b.tiled[s2.spaces[space]] == a.tiled[s.spaces[space]] by {
        assert(s1.spaces.contains_key(space));
        assert(spaces.contains(space));
    }
}

/// While scroll layouts are off, a space that is shown has a tree layout. One that was
/// never shown before is given its first layout with the default kind.
pub proof fn law_gate_off_shows_trees(
    s: State,
    l: Log,
    space: SpaceId,
    size: Size,
    s2: State,
    l2: Log,
    r: Response,
    trees: Seq<Tree>,
)
    requires
        event_handled(s, l, LayoutEventView::SpaceExposed(space, size), s2, l2, r),
        !s.scroll_enabled,
        is_tree(trees, l2, l.len() as int),
    ensures
        s2.spaces.contains_key(space),
        trees[l2.len() as int].tiled.contains_key(s2.spaces[space]),
        !trees[l2.len() as int].scroll.contains(s2.spaces[space]),
        !s.spaces.contains_key(space) ==> l2[l.len() as int].req == Req::OpenSpace(
            space,
            size,
            s.default_kind,
        ),
{
    let t = if s.spaces.contains_key(space) {
        l
    } else {
        ask(l, l2, Req::OpenSpace(space, size, s.default_kind))
    };
    let t1 = ask(t, l2, Req::ActivateSize(space, size));
    let s1 = State { spaces: s.spaces.insert(space, answer(t1)->Layout_0), ..s };
    assert(exposed_settled(s1, t1, space, s2, l2, r));
    let u = choose|u: Log| #[trigger]
        kind_allowed(s1, t1, space, s2, u) && top_layer(s2, u, space, l2, r.raise)
            && r.focus is None;
    lemma_kind_grows(s1, t1, space, s2, u);
    assert(grew(u, l2));
    assert(grew(t1, l2));
    let n = t1.len() as int;
    assert(l2[n - 1] == t1[n - 1]);
    assert(l2[l.len() as int] == t1[l.len() as int]);
    assert(acts_as_tree(trees[n - 1], l2[n - 1], trees[n]));
    lemma_kind_allowed(s1, t1, space, s2, u, l2, trees);
    let m = u.len() as int;
    assert(l2[m].req == Req::Root(s2.spaces[space]));
    assert(l2[m + 1].req is VisibleWindowsUnder);
    assert(acts_as_tree(trees[m], l2[m], trees[m + 1]));
    assert(acts_as_tree(trees[m + 1], l2[m + 1], trees[m + 2]));
    assert(l2.len() == m + 2);
}

/// The windows that were added to a tree layout from place `from` up to place `to`, in
/// order.
pub open spec fn added_to(log: Log, layout: LayoutId, from: int, to: int) -> Seq<WindowId>
    decreases to - from,
{
    if to <= from {
        Seq::empty()
    } else {
        let before = added_to(log, layout, from, to - 1);
        match log[to - 1].req {
            Req::AddWindowAfter(to_layout, _, wid) if to_layout == layout => before.push(wid),
            _ => before,
        }
    }
}

/// Where nothing is added, nothing is added.
proof fn lemma_nothing_added(log: Log, layout: LayoutId, from: int, mid: int, to: int)
    requires
        from <= mid <= to,
        forall|i: int| mid <= i < to ==> !((#[trigger] log[i]).req is AddWindowAfter),
    ensures
        added_to(log, layout, from, to) == added_to(log, layout, from, mid),
    decreases to - mid,
{
    if to > mid {
        lemma_nothing_added(log, layout, from, mid, to - 1);
        assert(!(log[to - 1].req is AddWindowAfter));
    }
}

/// Windows that are moved over are added in order.
proof fn lemma_moved_in_order(
    l: Log,
    windows: Seq<WindowId>,
    layout: LayoutId,
    visible_columns: u32,
    l2: Log,
    whole: Log,
    from: int,
)
    requires
        moved_over(l, windows, layout, LayoutKind::Tree, visible_columns, l2),
        grew(l2, whole),
        0 <= from <= l.len(),
        added_to(whole, layout, from, l.len() as int) == Seq::<WindowId>::empty(),
    ensures
        added_to(whole, layout, from, l2.len() as int) == windows,
    decreases windows.len(),
{
    if windows.len() > 0 {
        let n = l2.len() as int;
        let front = windows.drop_last();
        let before = l2.take(n - 3);
        lemma_moved_over_grows(l, front, layout, LayoutKind::Tree, visible_columns, before);
        assert(grew(before, whole));
        lemma_moved_in_order(l, front, layout, visible_columns, before, whole, from);
        assert(whole[n - 3] == l2[n - 3] && l2[n - 3].req is RemoveWindow);
        assert(whole[n - 2] == l2[n - 2] && l2[n - 2].req is Selection);
        assert(whole[n - 1] == l2[n - 1] && l2[n - 1].req is AddWindowAfter);
        lemma_nothing_added(whole, layout, from, n - 3, n - 1);
        assert(windows == front.push(windows.last()));
    } else {
        assert(windows =~= Seq::<WindowId>::empty());
    }
}

/// A space is brought in line: its layout is asked whether it scrolls, and stays where it
/// does not. Otherwise its nodes are gone through, a tree layout is made, and to this are
/// added, in order, the windows that the nodes stand for, and no others. The new layout
/// takes the place of the old one.
pub open spec fn space_in_line(
    l: Log,
    space: SpaceId,
    layout: LayoutId,
    l2: Log,
    active: LayoutId,
) -> bool {
    let n = l.len() as int;
    let nodes = l2[n + 5].rep->Nodes_0;
    let made = n + 6 + nodes.len();
    let new_layout = l2[made].rep->Layout_0;
    &&& grew(l, l2)
    &&& l2.len() > n
    &&& l2[n].req == Req::IsScrollLayout(layout)
    &&& !l2[n].rep->Flag_0 ==> l2.len() == n + 1 && active == layout
    &&& l2[n].rep->Flag_0 ==> l2[n + 1].req == Req::LayoutKind(layout)
    &&& l2[n].rep->Flag_0 && l2[n + 1].rep->Kind_0 == LayoutKind::Scroll ==> {
        &&& l2[n + 4].req == Req::Root(layout)
        &&& l2[n + 5].req == Req::TraversePostorder(l2[n + 4].rep->Node_0)
        &&& forall|i: int|
            0 <= i < nodes.len() ==> #[trigger] l2[n + 6 + i].req == Req::WindowAt(nodes[i])
        &&& l2[made].req == Req::CreateLayout
        &&& added_to(l2, new_layout, n, l2.len() as int) == windows_named(
            l2,
            n + 6,
            nodes.len(),
        )
        &&& exists|i: int|
            made < i < l2.len() && (#[trigger] l2[i]).req == Req::ReplaceActiveLayout(
                space,
                new_layout,
            ) && active == l2[i].rep->Layout_0
    }
}

/// What is named is the same in a longer record.
proof fn lemma_named_in_more(a: Log, b: Log, start: int, n: nat)
    requires
        0 <= start,
        start + n <= a.len(),
        grew(a, b),
    ensures
        windows_named(b, start, n) == windows_named(a, start, n),
    decreases n,
{
    if n > 0 {
        lemma_named_in_more(a, b, start, (n - 1) as nat);
        assert(b[start + n - 1] == a[start + n - 1]);
    }
}

/// Turning a scroll layout into a tree adds its windows in order.
proof fn lemma_converted_in_order(
    l: Log,
    visible_columns: u32,
    focused: Option<WindowId>,
    layout: LayoutId,
    l2: Log,
    new_layout: LayoutId,
    whole: Log,
    from: int,
)
    requires
        converted(l, visible_columns, focused, layout, LayoutKind::Tree, l2, new_layout),
        l2[l.len() as int].rep->Kind_0 == LayoutKind::Scroll,
        grew(l2, whole),
        0 <= from <= l.len(),
        added_to(whole, new_layout, from, l.len() as int) == Seq::<WindowId>::empty(),
    ensures
        ({
            let n = l.len() as int;
            let nodes = l2[n + 4].rep->Nodes_0;
            let made = n + 5 + nodes.len();
            &&& l2.len() > made
            &&& l2[n].req == Req::LayoutKind(layout)
            &&& l2[n + 3].req == Req::Root(layout)
            &&& l2[n + 4].req == Req::TraversePostorder(l2[n + 3].rep->Node_0)
            &&& forall|i: int|
                0 <= i < nodes.len() ==> #[trigger] l2[n + 5 + i].req == Req::WindowAt(nodes[i])
            &&& l2[made].req == Req::CreateLayout
            &&& new_layout == l2[made].rep->Layout_0
            &&& added_to(whole, new_layout, from, l2.len() as int) == windows_named(
                whole,
                n + 5,
                nodes.len(),
            )
        }),
{
    let n = l.len() as int;
    let v = lemma_converted_record(l, visible_columns, focused, layout, l2, new_layout);
    let nodes = l2[n + 4].rep->Nodes_0;
    let made = n + 5 + nodes.len();
    assert forall|i: int| n <= i < made + 1 implies !((#[trigger] whole[i]).req
        is AddWindowAfter) by {
        assert(whole[i] == l2[i]);
        if n + 5 <= i < made {
            assert(l2[n + 5 + (i - n - 5)].req is WindowAt);
        } else if i < n + 5 {
            assert(i == n || i == n + 1 || i == n + 2 || i == n + 3 || i == n + 4);
        }
    }
    lemma_nothing_added(whole, new_layout, from, n, made + 1);
    let windows = windows_named(l2, n + 5, nodes.len());
    assert(grew(v, whole));
    lemma_moved_in_order(
        l2.take(made + 1),
        windows,
        new_layout,
        visible_columns,
        v,
        whole,
        from,
    );
    assert forall|i: int| v.len() <= i < l2.len() implies !((#[trigger] whole[i]).req
        is AddWindowAfter) by {
        assert(whole[i] == l2[i]);
    }
    lemma_nothing_added(whole, new_layout, from, v.len() as int, l2.len() as int);
    lemma_named_in_more(l2, whole, n + 5, nodes.len());
}

proof fn lemma_allowed_in_line(s: State, l: Log, space: SpaceId, s2: State, l2: Log)
    requires
        kind_allowed(s, l, space, s2, l2),
        !s.scroll_enabled,
        s.spaces.contains_key(space),
    ensures
        s2 == (State { spaces: s2.spaces, viewports: s2.viewports, ..s }),
        s2.spaces == s.spaces.insert(space, s2.spaces[space]),
        space_in_line(l, space, s.spaces[space], l2, s2.spaces[space]),
{
    let n = l.len() as int;
    let layout = s.spaces[space];
    let vc = s.scroll.visible_columns;
    let t = ask(l, l2, Req::IsScrollLayout(layout));
    lemma_kind_grows(s, l, space, s2, l2);
    if answer(t)->Flag_0 {
        let (u, new_layout) = choose|u: Log, new_layout: LayoutId|
            {
                &&& #[trigger] converted(
                    t,
                    s.scroll.visible_columns,
                    s.focused,
                    layout,
                    LayoutKind::Tree,
                    u,
                    new_layout,
                )
                &&& active_replaced(s, u, space, layout, new_layout, s2, l2)
            };
        lemma_converted_grows(t, vc, s.focused, layout, LayoutKind::Tree, u, new_layout);
        assert(grew(u, l2));
        assert(grew(t, l2));
        assert(l2[n] == t[n]);
        assert(l2[n + 1] == u[n + 1]);
        let m = u.len() as int;
        assert(l2[m].req == Req::ReplaceActiveLayout(space, new_layout));
        assert(s2.spaces[space] == l2[m].rep->Layout_0);
        if u[n + 1].rep->Kind_0 == LayoutKind::Scroll {
            lemma_nothing_added(l2, new_layout, n, n, n + 1);
            lemma_converted_in_order(t, vc, s.focused, layout, u, new_layout, l2, n);
            lemma_in_line(l, space, layout, t, u, l2, new_layout);
        } else {
            let t0 = ask(t, u, Req::LayoutKind(layout));
            assert(answer(t0)->Kind_0 == u[n + 1].rep->Kind_0);
            assert(u == t0);
        }
    } else {
        assert(s.spaces =~= s.spaces.insert(space, layout));
    }
}

proof fn lemma_in_line(
    l: Log,
    space: SpaceId,
    layout: LayoutId,
    t: Log,
    u: Log,
    l2: Log,
    new_layout: LayoutId,
)
    requires
        grew(l, t),
        grew(t, u),
        grew(u, l2),
        t.len() == l.len() + 1,
        l2[l.len() as int].req == Req::IsScrollLayout(layout),
        l2[l.len() as int].rep->Flag_0,
        u.len() < l2.len() <= u.len() + 2,
        l2[u.len() as int].req == Req::ReplaceActiveLayout(space, new_layout),
        l2.len() > u.len() + 1 ==> l2[u.len() as int + 1].req is CloseViewport,
        ({
            let n = t.len() as int;
            let nodes = u[n + 4].rep->Nodes_0;
            let made = n + 5 + nodes.len();
            &&& u.len() > made
            &&& u[n].req == Req::LayoutKind(layout)
            &&& u[n + 3].req == Req::Root(layout)
            &&& u[n + 4].req == Req::TraversePostorder(u[n + 3].rep->Node_0)
            &&& forall|i: int|
                0 <= i < nodes.len() ==> #[trigger] u[n + 5 + i].req == Req::WindowAt(nodes[i])
            &&& u[made].req == Req::CreateLayout
            &&& new_layout == u[made].rep->Layout_0
            &&& added_to(l2, new_layout, l.len() as int, u.len() as int) == windows_named(
                l2,
                n + 5,
                nodes.len(),
            )
        }),
    ensures
        space_in_line(l, space, layout, l2, l2[u.len() as int].rep->Layout_0),
{
    let n = l.len() as int;
    let nodes = u[n + 5].rep->Nodes_0;
    let made = n + 6 + nodes.len();
    assert(l2[n + 1] == u[n + 1] && l2[n + 4] == u[n + 4] && l2[n + 5] == u[n + 5] && l2[made]
        == u[made]);
    assert forall|i: int| 0 <= i < nodes.len() implies #[trigger] l2[n + 6 + i].req == Req::WindowAt(
        nodes[i],
    ) by {
        assert(l2[n + 6 + i] == u[n + 1 + 5 + i]);
    }
    lemma_nothing_added(l2, new_layout, n, u.len() as int, l2.len() as int);
    assert(l2[u.len() as int].req == Req::ReplaceActiveLayout(space, l2[made].rep->Layout_0));
}

proof fn lemma_kinds_in_line(
    s: State,
    l: Log,
    spaces: Seq<SpaceId>,
    s2: State,
    l2: Log,
    space: SpaceId,
)
    requires
        kinds_allowed(s, l, spaces, s2, l2),
        !s.scroll_enabled,
        spaces.no_duplicates(),
        forall|i: int| 0 <= i < spaces.len() ==> s.spaces.contains_key(#[trigger] spaces[i]),
    ensures
        s2 == (State { spaces: s2.spaces, viewports: s2.viewports, ..s }),
        s2.spaces.dom() == s.spaces.dom(),
        !spaces.contains(space) ==> s2.spaces[space] == s.spaces[space],
        spaces.contains(space) ==> exists|t: Log, u: Log| #[trigger]
            space_in_line(t, space, s.spaces[space], u, s2.spaces[space]) && grew(l, t) && grew(
                u,
                l2,
            ),
    decreases spaces.len(),
{
    if spaces.len() > 0 {
        let front = spaces.drop_last();
        let last = spaces.last();
        let (m, t) = choose|m: State, t: Log|
            kinds_allowed(s, l, spaces.drop_last(), m, t) && #[trigger] kind_allowed(
                m,
                t,
                spaces.last(),
                s2,
                l2,
            );
        assert forall|i: int| 0 <= i < front.len() implies s.spaces.contains_key(
            #[trigger] front[i],
        ) by {
            assert(front[i] == spaces[i]);
        }
        lemma_kinds_in_line(s, l, front, m, t, space);
        lemma_kinds_grow(s, l, front, m, t);
        lemma_kind_grows(m, t, last, s2, l2);
        assert(spaces[spaces.len() - 1] == last);
        assert(m.spaces.dom().contains(last));
        lemma_allowed_in_line(m, t, last, s2, l2);
        assert(s2.spaces.dom() =~= s.spaces.dom());
        if spaces.contains(space) && space != last {
            let k = choose|k: int| 0 <= k < spaces.len() && spaces[k] == space;
            assert(front[k] == space);
            let (x, y) = choose|x: Log, y: Log| #[trigger]
                space_in_line(x, space, s.spaces[space], y, m.spaces[space]) && grew(l, x) && grew(
                    y,
                    t,
                );
            assert(space_in_line(x, space, s.spaces[space], y, s2.spaces[space]));
            assert(grew(y, l2));
        }
        if space == last {
            if front.contains(space) {
                let k = choose|k: int| 0 <= k < front.len() && front[k] == space;
                assert(spaces[k] == spaces[spaces.len() - 1]);
            }
            assert(space_in_line(t, space, s.spaces[space], l2, s2.spaces[space]));
        }
        if !spaces.contains(space) {
            if front.contains(space) {
                let k = choose|k: int| 0 <= k < front.len() && front[k] == space;
                assert(spaces[k] == space);
            }
        }
    }
}

/// Turning scroll layouts off brings every space in line: one that shows a scroll layout
/// is given a tree layout, to which exactly the windows of the old layout are added, in
/// order.
pub proof fn law_gate_off_moves_in_order(
    s: State,
    l: Log,
    config: Config,
    s2: State,
    l2: Log,
    space: SpaceId,
)
    requires
        config_set(s, l, config, s2, l2),
        !config.valid_scroll.enable,
        s.spaces.contains_key(space),
    ensures
        exists|t: Log, u: Log| #[trigger]
            space_in_line(t, space, s.spaces[space], u, s2.spaces[space]) && grew(l, t) && grew(
                u,
                l2,
            ),
{
    let s1 = configured(s, config);
    let spaces = choose|spaces: Seq<SpaceId>| #[trigger]
        lists(spaces, s.spaces) && kinds_allowed(s1, l, spaces, s2, l2);
    assert forall|i: int| 0 <= i < spaces.len() implies s1.spaces.contains_key(
        #[trigger] spaces[i],
    ) by {
        assert(spaces.contains(spaces[i]));
    }
    assert(spaces.contains(space));
    lemma_kinds_in_line(s1, l, spaces, s2, l2, space);
}

} // verus!
