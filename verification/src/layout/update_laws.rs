//! What an update of the windows on screen does to a layout, and that doing it again
//! does nothing more.

use vstd::prelude::*;

use crate::collections::{lemma_filter_each_once, lemma_filter_step, with};
use crate::ids::{LayoutId, SpaceId, WindowId};
use crate::layout::events::{
    asked_for, event_handled, info_of, last_float_kept, scroll_additions, sorted, windows_settled,
    windows_updated, LayoutEventView,
};
use crate::layout::floating::{floats_added, noted_elsewhere};
use crate::layout::laws::lemma_pushed_in;
use crate::layout::state::{ActiveFloat, State};
use crate::layout::tree_model::{acts_as_tree, is_tree, Tree};
use crate::link::{answer, ask, ask_each, grew, Log, Req};
use crate::response::{nothing, Response};
use crate::window_class::{class_of, WindowClass, WindowInfoView};

verus! {

/// The windows that a list names.
pub open spec fn wids_of(windows: Seq<(WindowId, WindowInfoView)>) -> Seq<WindowId> {
    windows.map_values(|w: (WindowId, WindowInfoView)| w.0)
}

/// All windows of a list belong to one application.
pub open spec fn all_of_app(windows: Seq<(WindowId, WindowInfoView)>, pid: i32) -> bool {
    forall|i: int| 0 <= i < windows.len() ==> (#[trigger] windows[i]).0.pid == pid
}

/// The class of a window that is listed.
pub open spec fn listed_class(
    windows: Seq<(WindowId, WindowInfoView)>,
    wid: WindowId,
) -> WindowClass {
    class_of(info_of(windows, wid))
}

/// Whether a window that does not float is in the layout or takes a place in it.
pub open spec fn goes_to_tree(
    floating: Seq<WindowId>,
    windows: Seq<(WindowId, WindowInfoView)>,
    scroll: bool,
    held: spec_fn(WindowId) -> bool,
) -> spec_fn(WindowId) -> bool {
    |wid: WindowId|
        !floating.contains(wid) && (held(wid) || (!scroll && listed_class(windows, wid)
            == WindowClass::Regular))
}

/// Whether a window gets a place in the columns of a scroll layout.
pub open spec fn goes_to_columns(
    floating: Seq<WindowId>,
    windows: Seq<(WindowId, WindowInfoView)>,
    scroll: bool,
    held: spec_fn(WindowId) -> bool,
) -> spec_fn(WindowId) -> bool {
    |wid: WindowId|
        !floating.contains(wid) && !held(wid) && scroll && listed_class(windows, wid)
            == WindowClass::Regular
}

/// Whether a window floats from now on.
pub open spec fn starts_floating(
    floating: Seq<WindowId>,
    windows: Seq<(WindowId, WindowInfoView)>,
    held: spec_fn(WindowId) -> bool,
) -> spec_fn(WindowId) -> bool {
    |wid: WindowId|
        !floating.contains(wid) && !held(wid) && listed_class(windows, wid)
            == WindowClass::FloatByDefault
}

/// From place `from` on, a layout that is asked for a window has it or not as `held` says.
pub open spec fn has_windows(
    layout: LayoutId,
    held: spec_fn(WindowId) -> bool,
    log: Log,
    from: int,
) -> bool {
    forall|k: int|
        from <= k < log.len() && (#[trigger] log[k]).req is WindowNode && log[k].req->WindowNode_0
            == layout ==> (log[k].rep->MaybeNode_0 is Some) == held(log[k].req->WindowNode_1)
}

pub proof fn lemma_filtered<K>(list: Seq<K>, keep: spec_fn(K) -> bool, k: K)
    ensures
        list.filter(keep).contains(k) <==> list.contains(k) && keep(k),
{
    let kept = list.filter(keep);
    if kept.contains(k) {
        let i = choose|i: int| 0 <= i < kept.len() && kept[i] == k;
        list.lemma_filter_pred(keep, i);
        list.lemma_filter_contains_rev(keep, k);
    }
    if list.contains(k) && keep(k) {
        let i = choose|i: int| 0 <= i < list.len() && list[i] == k;
        list.lemma_filter_contains(keep, i);
    }
}

proof fn lemma_filtered_alike<K>(list: Seq<K>, p: spec_fn(K) -> bool, q: spec_fn(K) -> bool)
    requires
        forall|k: K| #[trigger] list.contains(k) ==> p(k) == q(k),
    ensures
        list.filter(p) == list.filter(q),
    decreases list.len(),
{
    reveal(Seq::filter);
    if list.len() > 0 {
        let front = list.drop_last();
        assert forall|k: K| #[trigger] front.contains(k) implies p(k) == q(k) by {
            let i = choose|i: int| 0 <= i < front.len() && front[i] == k;
            assert(list[i] == k);
            assert(list.contains(k));
        }
        lemma_filtered_alike(front, p, q);
        assert(list.contains(list[list.len() - 1]));
    }
}

proof fn lemma_with_in<K>(list: Seq<K>, key: K, k: K)
    ensures
        with(list, key).contains(k) <==> list.contains(k) || k == key,
{
    lemma_pushed_in(list, key, k);
}

/// Asking for windows only adds questions for windows to the record.
pub proof fn lemma_asked_for(
    floating: Seq<WindowId>,
    layout: LayoutId,
    windows: Seq<(WindowId, WindowInfoView)>,
    n: nat,
    l: Log,
    l2: Log,
)
    requires
        asked_for(floating, layout, windows, n, l, l2),
    ensures
        grew(l, l2),
        forall|i: int| l.len() <= i < l2.len() ==> (#[trigger] l2[i]).req is WindowNode,
        forall|i: int|
            l.len() <= i < l2.len() ==> (#[trigger] l2[i]).req->WindowNode_0 == layout,
    decreases n,
{
    if n > 0 {
        if floating.contains(windows[n - 1].0) {
            lemma_asked_for(floating, layout, windows, (n - 1) as nat, l, l2);
        } else {
            let before = l2.drop_last();
            lemma_asked_for(floating, layout, windows, (n - 1) as nat, l, before);
            assert(forall|i: int| 0 <= i < before.len() ==> before[i] == #[trigger] l2[i]);
        }
    }
}

/// The windows of an update, told apart, by what the layout has.
proof fn lemma_sorted(
    s: State,
    space: SpaceId,
    pid: i32,
    scroll: bool,
    layout: LayoutId,
    windows: Seq<(WindowId, WindowInfoView)>,
    n: nat,
    l: Log,
    log: Log,
    held: spec_fn(WindowId) -> bool,
)
    requires
        n <= windows.len(),
        asked_for(s.floating, layout, windows, n, l, log),
        has_windows(layout, held, log, l.len() as int),
    ensures
        ({
            let p = sorted(s, space, pid, scroll, windows, n, log);
            let wids = wids_of(windows).take(n as int);
            &&& p.tree == wids.filter(goes_to_tree(s.floating, windows, scroll, held))
            &&& p.new == wids.filter(goes_to_columns(s.floating, windows, scroll, held))
            &&& p.floats == wids.filter(starts_floating(s.floating, windows, held))
            &&& forall|f: ActiveFloat| #[trigger]
                p.active.contains(f) <==> (s.active_floating.contains(f) && (f.space != space
                    || f.pid != pid)) || (f.space == space && f.pid == pid
                    && s.floating.contains(f.wid) && wids.contains(f.wid))
        }),
    decreases n,
{
    let p = sorted(s, space, pid, scroll, windows, n, log);
    let all = wids_of(windows);
    let wids = all.take(n as int);
    let tree = goes_to_tree(s.floating, windows, scroll, held);
    let columns = goes_to_columns(s.floating, windows, scroll, held);
    let floats = starts_floating(s.floating, windows, held);
    if n == 0 {
        reveal(Seq::filter);
        assert forall|f: ActiveFloat| #[trigger] p.active.contains(f) <==> (
        s.active_floating.contains(f) && (f.space != space || f.pid != pid)) || (f.space == space
            && f.pid == pid && s.floating.contains(f.wid) && wids.contains(f.wid)) by {
            lemma_filtered(s.active_floating, noted_elsewhere(space, pid), f);
        }
    } else {
        let wid = windows[n - 1].0;
        let before = if s.floating.contains(wid) {
            log
        } else {
            log.drop_last()
        };
        let q = sorted(s, space, pid, scroll, windows, (n - 1) as nat, before);
        let front = all.take(n - 1);
        if !s.floating.contains(wid) {
            lemma_asked_for(s.floating, layout, windows, (n - 1) as nat, l, before);
            assert forall|k: int|
                l.len() <= k < before.len() && (#[trigger] before[k]).req is WindowNode
                    && before[k].req->WindowNode_0 == layout implies (
            before[k].rep->MaybeNode_0 is Some) == held(before[k].req->WindowNode_1) by {
                assert(before[k] == log[k]);
            }
            assert(log[log.len() - 1].req == Req::WindowNode(layout, wid));
            assert((answer(log)->MaybeNode_0 is Some) == held(wid));
        }
        lemma_sorted(
            s,
            space,
            pid,
            scroll,
            layout,
            windows,
            (n - 1) as nat,
            l,
            before,
            held,
        );
        lemma_filter_step(all, n - 1, tree);
        lemma_filter_step(all, n - 1, columns);
        lemma_filter_step(all, n - 1, floats);
        assert(all[n - 1] == wid);
        assert(wids == front.push(wid));
        assert forall|f: ActiveFloat| #[trigger] p.active.contains(f) <==> (
        s.active_floating.contains(f) && (f.space != space || f.pid != pid)) || (f.space == space
            && f.pid == pid && s.floating.contains(f.wid) && wids.contains(f.wid)) by {
            lemma_pushed_in(front, wid, f.wid);
            lemma_with_in(q.active, ActiveFloat { space, pid, wid }, f);
            assert(q.active.contains(f) == q.active.contains(f));
        }
    }
}

/// What floats after several windows more do.
pub proof fn lemma_floats_added(s: State, wids: Seq<WindowId>, space: SpaceId)
    ensures
        ({
            let s2 = floats_added(s, wids, space);
            &&& s2 == State {
                floating: s2.floating,
                active_floating: s2.active_floating,
                ..s
            }
            &&& forall|wid: WindowId| #[trigger]
                s2.floating.contains(wid) <==> s.floating.contains(wid) || wids.contains(wid)
            &&& forall|f: ActiveFloat| #[trigger]
                s2.active_floating.contains(f) <==> s.active_floating.contains(f) || (f.space
                    == space && f.pid == f.wid.pid && wids.contains(f.wid))
        }),
    decreases wids.len(),
{
    if wids.len() > 0 {
        let front = wids.drop_last();
        let last = wids.last();
        let m = floats_added(s, front, space);
        let s2 = floats_added(s, wids, space);
        lemma_floats_added(s, front, space);
        assert(wids == front.push(last));
        assert forall|wid: WindowId| #[trigger] s2.floating.contains(wid) <==> s.floating.contains(
            wid,
        ) || wids.contains(wid) by {
            lemma_pushed_in(front, last, wid);
            lemma_with_in(m.floating, last, wid);
            assert(m.floating.contains(wid) == m.floating.contains(wid));
        }
        assert forall|f: ActiveFloat| #[trigger] s2.active_floating.contains(f) <==>
            s.active_floating.contains(f) || (f.space == space && f.pid == f.wid.pid
            && wids.contains(f.wid)) by {
            lemma_pushed_in(front, last, f.wid);
            lemma_with_in(
                m.active_floating,
                ActiveFloat { space, pid: last.pid, wid: last },
                f,
            );
            assert(m.active_floating.contains(f) == m.active_floating.contains(f));
        }
    }
}

/// What an update asks: the layout for its kind and its windows, then, from `at` on, to
/// take what goes there.
pub open spec fn update_asked(
    s: State,
    layout: LayoutId,
    pid: i32,
    tree: Seq<WindowId>,
    new: Seq<WindowId>,
    l: Log,
    l2: Log,
    at: int,
) -> bool {
    &&& grew(l, l2)
    &&& l.len() < at < l2.len()
    &&& l2[l.len() as int].req == Req::IsScrollLayout(layout)
    &&& forall|i: int|
        l.len() < i < at ==> (#[trigger] l2[i]).req is WindowNode && l2[i].req->WindowNode_0
            == layout
    &&& l2[at].req == Req::SetWindowsForApp(layout, pid, tree)
    &&& l2.len() == at + 1 + new.len()
    &&& forall|i: int|
        0 <= i < new.len() ==> (#[trigger] l2[at + 1 + i]).req == scroll_additions(
            s,
            layout,
            new,
        )[i]
}

/// What floats after an update, and that nothing else has changed.
pub open spec fn update_noted(
    s: State,
    space: SpaceId,
    pid: i32,
    windows: Seq<(WindowId, WindowInfoView)>,
    held: spec_fn(WindowId) -> bool,
    s2: State,
) -> bool {
    let wids = wids_of(windows);
    &&& s2 == State {
        floating: s2.floating,
        active_floating: s2.active_floating,
        last_floating: last_float_kept(s.last_floating, pid, windows),
        ..s
    }
    &&& forall|wid: WindowId| #[trigger]
        s2.floating.contains(wid) <==> s.floating.contains(wid) || (wids.contains(wid)
            && !held(wid) && listed_class(windows, wid) == WindowClass::FloatByDefault)
    &&& forall|f: ActiveFloat| #[trigger]
        s2.active_floating.contains(f) <==> if f.space == space && f.pid == pid {
            s2.floating.contains(f.wid) && wids.contains(f.wid)
        } else {
            s.active_floating.contains(f)
        }
    &&& (forall|wid: WindowId| #[trigger]
        s2.floating.contains(wid) ==> s.floating.contains(wid)) ==> s2.floating == s.floating
}

/// The record of an update. The result is the place where the layout takes the windows.
pub proof fn lemma_update_record(
    s: State,
    l: Log,
    space: SpaceId,
    pid: i32,
    windows: Seq<(WindowId, WindowInfoView)>,
    s2: State,
    l2: Log,
) -> (at: int)
    requires
        windows_updated(s, l, space, pid, windows, s2, l2),
    ensures
        ({
            let layout = s.spaces[space];
            let scroll = l2[l.len() as int].rep->Flag_0;
            let t0 = ask(l, l2, Req::IsScrollLayout(layout));
            let t = l2.take(at);
            let p = sorted(s, space, pid, scroll, windows, windows.len(), t);
            let s1 = State {
                active_floating: p.active,
                last_floating: last_float_kept(s.last_floating, pid, windows),
                ..s
            };
            &&& asked_for(s.floating, layout, windows, windows.len(), t0, t)
            &&& update_asked(s, layout, pid, p.tree, p.new, l, l2, at)
            &&& s2 == floats_added(s1, p.floats, space)
        }),
{
    let layout = s.spaces[space];
    let t0 = ask(l, l2, Req::IsScrollLayout(layout));
    let scroll = answer(t0)->Flag_0;
    assert(windows_settled(s, t0, space, pid, scroll, windows, s2, l2));
    let t = choose|t: Log|
        {
            let p = sorted(s, space, pid, scroll, windows, windows.len(), t);
            let t1 = ask(t, l2, Req::SetWindowsForApp(layout, pid, p.tree));
            let s1 = State {
                active_floating: p.active,
                last_floating: last_float_kept(s.last_floating, pid, windows),
                ..s
            };
            &&& #[trigger] asked_for(s.floating, layout, windows, windows.len(), t0, t)
            &&& l2 == ask_each(t1, l2, scroll_additions(s, layout, p.new))
            &&& s2 == floats_added(s1, p.floats, space)
        };
    lemma_asked_for(s.floating, layout, windows, windows.len(), t0, t);
    let p = sorted(s, space, pid, scroll, windows, windows.len(), t);
    let at = t.len() as int;
    assert(l2.take(at) =~= t);
    assert(forall|i: int| 0 <= i < t.len() ==> #[trigger] l2[i] == t[i]);
    assert forall|i: int| 0 <= i < p.new.len() implies (#[trigger] l2[at + 1 + i]).req
        == scroll_additions(s, layout, p.new)[i] by {}
    at
}

/// An update goes by what the layout has.
pub proof fn lemma_update(
    s: State,
    l: Log,
    space: SpaceId,
    pid: i32,
    windows: Seq<(WindowId, WindowInfoView)>,
    s2: State,
    l2: Log,
    held: spec_fn(WindowId) -> bool,
    at: int,
)
    requires
        ({
            let layout = s.spaces[space];
            let scroll = l2[l.len() as int].rep->Flag_0;
            let t0 = ask(l, l2, Req::IsScrollLayout(layout));
            let t = l2.take(at);
            let p = sorted(s, space, pid, scroll, windows, windows.len(), t);
            let s1 = State {
                active_floating: p.active,
                last_floating: last_float_kept(s.last_floating, pid, windows),
                ..s
            };
            &&& asked_for(s.floating, layout, windows, windows.len(), t0, t)
            &&& update_asked(s, layout, pid, p.tree, p.new, l, l2, at)
            &&& s2 == floats_added(s1, p.floats, space)
        }),
        has_windows(s.spaces[space], held, l2.take(at), l.len() as int),
        all_of_app(windows, pid),
    ensures
        ({
            let wids = wids_of(windows);
            let scroll = l2[l.len() as int].rep->Flag_0;
            &&& update_asked(
                s,
                s.spaces[space],
                pid,
                wids.filter(goes_to_tree(s.floating, windows, scroll, held)),
                wids.filter(goes_to_columns(s.floating, windows, scroll, held)),
                l,
                l2,
                at,
            )
            &&& update_noted(s, space, pid, windows, held, s2)
        }),
{
    let layout = s.spaces[space];
    let scroll = l2[l.len() as int].rep->Flag_0;
    let t0 = ask(l, l2, Req::IsScrollLayout(layout));
    let t = l2.take(at);
    let wids = wids_of(windows);
    let p = sorted(s, space, pid, scroll, windows, windows.len(), t);
    let floats = starts_floating(s.floating, windows, held);
    let s1 = State {
        active_floating: p.active,
        last_floating: last_float_kept(s.last_floating, pid, windows),
        ..s
    };
    lemma_sorted(s, space, pid, scroll, layout, windows, windows.len(), t0, t, held);
    assert(wids.take(windows.len() as int) =~= wids);
    lemma_floats_added(s1, p.floats, space);
    assert forall|wid: WindowId| #[trigger] s2.floating.contains(wid) <==> s.floating.contains(wid)
        || (wids.contains(wid) && !held(wid) && listed_class(windows, wid)
        == WindowClass::FloatByDefault) by {
        lemma_filtered(wids, floats, wid);
    }
    assert forall|f: ActiveFloat| #[trigger] s2.active_floating.contains(f) <==> if f.space == space
        && f.pid == pid {
        s2.floating.contains(f.wid) && wids.contains(f.wid)
    } else {
        s.active_floating.contains(f)
    } by {
        lemma_filtered(wids, floats, f.wid);
        assert(p.active.contains(f) == p.active.contains(f));
        assert(s2.floating.contains(f.wid) == s2.floating.contains(f.wid));
        if wids.contains(f.wid) {
            let i = choose|i: int| 0 <= i < wids.len() && wids[i] == f.wid;
            assert(windows[i].0 == f.wid);
        }
    }
    if forall|wid: WindowId| #[trigger] s2.floating.contains(wid) ==> s.floating.contains(wid) {
        if p.floats.len() > 0 {
            let wid = p.floats[0];
            assert(p.floats.contains(wid));
            lemma_filtered(wids, floats, wid);
            assert(s2.floating.contains(wid));
        }
        assert(s2 == s1);
    }
}

/// Whether a window of the application is tiled after an update.
pub open spec fn tiled_after(
    s: State,
    windows: Seq<(WindowId, WindowInfoView)>,
    before: Set<WindowId>,
    wid: WindowId,
) -> bool {
    wids_of(windows).contains(wid) && !s.floating.contains(wid) && (before.contains(wid)
        || listed_class(windows, wid) == WindowClass::Regular)
}

/// A list of windows and a list of windows for new columns, in which none occurs twice,
/// are all that an update gives the layout.
pub open spec fn each_given_once(s: State, layout: LayoutId, pid: i32, l: Log, l2: Log) -> bool {
    exists|tree: Seq<WindowId>, new: Seq<WindowId>, at: int|
        {
            &&& #[trigger] update_asked(s, layout, pid, tree, new, l, l2, at)
            &&& tree.no_duplicates()
            &&& new.no_duplicates()
            &&& forall|wid: WindowId| !(#[trigger] tree.contains(wid) && new.contains(wid))
        }
}

/// The tree over a run of questions for windows.
proof fn lemma_asking_changes_nothing(whole: Log, trees: Seq<Tree>, from: int, to: int, i: int)
    requires
        0 <= from <= i <= to <= whole.len(),
        is_tree(trees, whole, from),
        forall|j: int| from <= j < to ==> (#[trigger] whole[j]).req is WindowNode,
    ensures
        trees[i] == trees[from],
    decreases i - from,
{
    if i > from {
        lemma_asking_changes_nothing(whole, trees, from, to, i - 1);
        assert(whole[i - 1].req is WindowNode);
        assert(acts_as_tree(trees[i - 1], whole[i - 1], trees[i]));
    }
}

/// The tree while columns are added.
proof fn lemma_columns_added(
    s: State,
    layout: LayoutId,
    new: Seq<WindowId>,
    whole: Log,
    trees: Seq<Tree>,
    from: int,
    n: nat,
)
    requires
        0 <= from,
        n <= new.len(),
        from + new.len() <= whole.len(),
        is_tree(trees, whole, from),
        trees[from].tiled.contains_key(layout),
        forall|i: int|
            0 <= i < new.len() ==> (#[trigger] whole[from + i]).req == scroll_additions(
                s,
                layout,
                new,
            )[i],
    ensures
        ({
            let a = trees[from];
            let b = trees[from + n];
            &&& b.scroll == a.scroll
            &&& b.tiled == a.tiled.insert(layout, b.tiled[layout])
            &&& forall|wid: WindowId| #[trigger]
                b.tiled[layout].contains(wid) <==> a.tiled[layout].contains(wid) || new.take(
                    n as int,
                ).contains(wid)
        }),
    decreases n,
{
    let a = trees[from];
    let b = trees[from + n];
    if n > 0 {
        let m = (n - 1) as nat;
        lemma_columns_added(s, layout, new, whole, trees, from, m);
        assert(whole[from + m].req == scroll_additions(s, layout, new)[m as int]);
        let c = trees[from + m];
        assert(acts_as_tree(trees[from + m], whole[from + m], trees[from + m + 1]));
        assert(new.take(n as int) == new.take(m as int).push(new[m as int]));
        assert(b.tiled =~= a.tiled.insert(layout, b.tiled[layout]));
        assert forall|wid: WindowId| #[trigger] b.tiled[layout].contains(wid) <==>
            a.tiled[layout].contains(wid) || new.take(n as int).contains(wid) by {
            lemma_pushed_in(new.take(m as int), new[m as int], wid);
            assert(c.tiled[layout].contains(wid) == c.tiled[layout].contains(wid));
        }
    } else {
        assert(b.tiled =~= a.tiled.insert(layout, b.tiled[layout]));
        assert forall|wid: WindowId| #[trigger] b.tiled[layout].contains(wid) <==>
            a.tiled[layout].contains(wid) || new.take(n as int).contains(wid) by {
            assert(new.take(0).len() == 0);
        }
    }
}

/// What the layout of a space tiles after an update, by what it tiled before.
pub proof fn lemma_update_tiles(
    s: State,
    l: Log,
    space: SpaceId,
    pid: i32,
    windows: Seq<(WindowId, WindowInfoView)>,
    s2: State,
    l2: Log,
    whole: Log,
    trees: Seq<Tree>,
)
    requires
        windows_updated(s, l, space, pid, windows, s2, l2),
        grew(l2, whole),
        is_tree(trees, whole, l.len() as int),
        trees[l.len() as int].tiled.contains_key(s.spaces[space]),
        all_of_app(windows, pid),
    ensures
        grew(l, l2),
        update_noted(
            s,
            space,
            pid,
            windows,
            |wid: WindowId| trees[l.len() as int].tiled[s.spaces[space]].contains(wid),
            s2,
        ),
        wids_of(windows).no_duplicates() ==> each_given_once(s, s.spaces[space], pid, l, l2),
        ({
            let a = trees[l.len() as int];
            let b = trees[l2.len() as int];
            let layout = s.spaces[space];
            &&& b.scroll == a.scroll
            &&& b.tiled == a.tiled.insert(layout, b.tiled[layout])
            &&& forall|wid: WindowId| #[trigger]
                b.tiled[layout].contains(wid) <==> if wid.pid == pid {
                    tiled_after(s, windows, a.tiled[layout], wid)
                } else {
                    a.tiled[layout].contains(wid)
                }
        }),
{
    let n = l.len() as int;
    let a = trees[n];
    let b = trees[l2.len() as int];
    let layout = s.spaces[space];
    let wids = wids_of(windows);
    let scroll = l2[n].rep->Flag_0;
    let held = |wid: WindowId| a.tiled[layout].contains(wid);
    let at = lemma_update_record(s, l, space, pid, windows, s2, l2);
    let t = l2.take(at);
    assert(whole[n] == l2[n]);
    assert(acts_as_tree(trees[n], whole[n], trees[n + 1]));
    assert forall|j: int| n + 1 <= j < at implies (#[trigger] whole[j]).req is WindowNode by {
        assert(whole[j] == l2[j]);
    }
    assert forall|k: int|
        n <= k < t.len() && (#[trigger] t[k]).req is WindowNode && t[k].req->WindowNode_0
            == layout implies (t[k].rep->MaybeNode_0 is Some) == held(t[k].req->WindowNode_1) by {
        assert(whole[k] == l2[k] && l2[k] == t[k]);
        assert(acts_as_tree(trees[k], whole[k], trees[k + 1]));
        if k > n {
            lemma_asking_changes_nothing(whole, trees, n + 1, at, k);
        }
    }
    lemma_update(s, l, space, pid, windows, s2, l2, held, at);
    let to_tree = goes_to_tree(s.floating, windows, scroll, held);
    let to_columns = goes_to_columns(s.floating, windows, scroll, held);
    let tree = wids.filter(to_tree);
    let new = wids.filter(to_columns);
    if wids.no_duplicates() {
        lemma_filter_each_once(wids, to_tree);
        lemma_filter_each_once(wids, to_columns);
        assert forall|wid: WindowId| !(#[trigger] tree.contains(wid) && new.contains(wid)) by {
            lemma_filtered(wids, to_tree, wid);
            lemma_filtered(wids, to_columns, wid);
        }
        assert(each_given_once(s, layout, pid, l, l2));
    }
    lemma_asking_changes_nothing(whole, trees, n + 1, at, at);
    assert(trees[at] == a);
    assert(whole[at] == l2[at]);
    assert(acts_as_tree(trees[at], whole[at], trees[at + 1]));
    assert forall|i: int| 0 <= i < tree.len() implies (#[trigger] tree[i]).pid == pid by {
        assert(tree.contains(tree[i]));
        lemma_filtered(wids, to_tree, tree[i]);
        let k = choose|k: int| 0 <= k < wids.len() && wids[k] == tree[i];
        assert(windows[k].0 == tree[i]);
    }
    let c = trees[at + 1];
    assert forall|i: int| 0 <= i < new.len() implies (#[trigger] whole[at + 1 + i]).req
        == scroll_additions(s, layout, new)[i] by {
        assert(whole[at + 1 + i] == l2[at + 1 + i]);
    }
    lemma_columns_added(s, layout, new, whole, trees, at + 1, new.len());
    assert(new.take(new.len() as int) =~= new);
    assert(b.tiled =~= a.tiled.insert(layout, b.tiled[layout]));
    assert forall|wid: WindowId| #[trigger] b.tiled[layout].contains(wid) <==> if wid.pid == pid {
        tiled_after(s, windows, a.tiled[layout], wid)
    } else {
        a.tiled[layout].contains(wid)
    } by {
        lemma_filtered(wids, to_tree, wid);
        lemma_filtered(wids, to_columns, wid);
        if wids.contains(wid) {
            let k = choose|k: int| 0 <= k < wids.len() && wids[k] == wid;
            assert(windows[k].0 == wid);
        }
    }
}

/// An update of an application's windows on screen makes the layout of a space tile
/// those of its windows, and no others, that are listed, do not float, and were tiled
/// there before or are regular. Each is given to the layout once. The windows of other
/// applications, and what other layouts tile, stay as they were, and nothing is to be
/// raised or focused.
pub proof fn law_update_tiles(
    s: State,
    l: Log,
    space: SpaceId,
    pid: i32,
    windows: Seq<(WindowId, WindowInfoView)>,
    s2: State,
    l2: Log,
    r: Response,
    trees: Seq<Tree>,
)
    requires
        event_handled(
            s,
            l,
            LayoutEventView::WindowsOnScreenUpdated(space, pid, windows),
            s2,
            l2,
            r,
        ),
        is_tree(trees, l2, l.len() as int),
        trees[l.len() as int].tiled.contains_key(s.spaces[space]),
        all_of_app(windows, pid),
        wids_of(windows).no_duplicates(),
    ensures
        r == nothing(),
        s2.spaces == s.spaces,
        each_given_once(s, s.spaces[space], pid, l, l2),
        ({
            let a = trees[l.len() as int];
            let b = trees[l2.len() as int];
            let layout = s.spaces[space];
            &&& b.scroll == a.scroll
            &&& b.tiled == a.tiled.insert(layout, b.tiled[layout])
            &&& forall|wid: WindowId| #[trigger]
                b.tiled[layout].contains(wid) <==> if wid.pid == pid {
                    tiled_after(s, windows, a.tiled[layout], wid)
                } else {
                    a.tiled[layout].contains(wid)
                }
        }),
{
    lemma_update_tiles(s, l, space, pid, windows, s2, l2, l2, trees);
}

/// Two states that differ at most in the order in which the floating windows on screen
/// were noted.
pub open spec fn same_but_order(s: State, s2: State) -> bool {
    &&& s2 == State { active_floating: s2.active_floating, ..s }
    &&& forall|f: ActiveFloat| #[trigger]
        s2.active_floating.contains(f) <==> s.active_floating.contains(f)
}

/// An update that comes again right away changes nothing more: all layouts tile what
/// they did, the state stays as it was, and nothing is to be raised or focused.
pub proof fn law_update_again_changes_nothing(
    s: State,
    l: Log,
    space: SpaceId,
    pid: i32,
    windows: Seq<(WindowId, WindowInfoView)>,
    m: State,
    t: Log,
    r: Response,
    s2: State,
    l2: Log,
    r2: Response,
    trees: Seq<Tree>,
)
    requires
        event_handled(
            s,
            l,
            LayoutEventView::WindowsOnScreenUpdated(space, pid, windows),
            m,
            t,
            r,
        ),
        event_handled(
            m,
            t,
            LayoutEventView::WindowsOnScreenUpdated(space, pid, windows),
            s2,
            l2,
            r2,
        ),
        is_tree(trees, l2, l.len() as int),
        trees[l.len() as int].tiled.contains_key(s.spaces[space]),
        all_of_app(windows, pid),
    ensures
        r2 == nothing(),
        same_but_order(m, s2),
        trees[l2.len() as int].tiled == trees[t.len() as int].tiled,
        trees[l2.len() as int].scroll == trees[t.len() as int].scroll,
{
    let layout = s.spaces[space];
    let wids = wids_of(windows);
    let at = lemma_update_record(m, t, space, pid, windows, s2, l2);
    assert(grew(t, l2));
    lemma_update_tiles(s, l, space, pid, windows, m, t, l2, trees);
    lemma_update_tiles(m, t, space, pid, windows, s2, l2, l2, trees);
    let a = trees[l.len() as int];
    let b = trees[t.len() as int];
    let c = trees[l2.len() as int];
    let held = |wid: WindowId| a.tiled[layout].contains(wid);
    assert forall|wid: WindowId| #[trigger] c.tiled[layout].contains(wid) <==>
        b.tiled[layout].contains(wid) by {
        assert(m.floating.contains(wid) == m.floating.contains(wid));
        if wids.contains(wid) {
            let k = choose|k: int| 0 <= k < wids.len() && wids[k] == wid;
            assert(windows[k].0 == wid);
        }
    }
    assert(c.tiled[layout] =~= b.tiled[layout]);
    assert(c.tiled =~= b.tiled);
    assert forall|wid: WindowId| #[trigger] s2.floating.contains(wid) implies m.floating.contains(
        wid,
    ) by {
        if !m.floating.contains(wid) {
            assert(wids.contains(wid));
            let k = choose|k: int| 0 <= k < wids.len() && wids[k] == wid;
            assert(windows[k].0 == wid);
            assert(!b.tiled[layout].contains(wid));
            assert(!s.floating.contains(wid));
            assert(held(wid));
            assert(tiled_after(s, windows, a.tiled[layout], wid));
        }
    }
    assert(s2.floating == m.floating);
    assert forall|f: ActiveFloat| #[trigger] s2.active_floating.contains(f) <==>
        m.active_floating.contains(f) by {
        assert(s2.floating.contains(f.wid) == m.floating.contains(f.wid));
    }
}

/// An update that comes again and gets the same answers gives the layout the same
/// windows again, and leaves the state as it was.
pub proof fn law_update_again_asks_the_same(
    s: State,
    l: Log,
    space: SpaceId,
    pid: i32,
    windows: Seq<(WindowId, WindowInfoView)>,
    m: State,
    t: Log,
    r: Response,
    s2: State,
    l2: Log,
    r2: Response,
    held: spec_fn(WindowId) -> bool,
)
    requires
        event_handled(
            s,
            l,
            LayoutEventView::WindowsOnScreenUpdated(space, pid, windows),
            m,
            t,
            r,
        ),
        event_handled(
            m,
            t,
            LayoutEventView::WindowsOnScreenUpdated(space, pid, windows),
            s2,
            l2,
            r2,
        ),
        has_windows(s.spaces[space], held, l2, l.len() as int),
        l2[t.len() as int].rep == l2[l.len() as int].rep,
        all_of_app(windows, pid),
    ensures
        same_but_order(m, s2),
        exists|tree: Seq<WindowId>, new: Seq<WindowId>, i: int, j: int| #[trigger]
            update_asked(s, s.spaces[space], pid, tree, new, l, t, i) && #[trigger] update_asked(
                m,
                s.spaces[space],
                pid,
                tree,
                new,
                t,
                l2,
                j,
            ),
{
    let layout = s.spaces[space];
    let wids = wids_of(windows);
    let i = lemma_update_record(s, l, space, pid, windows, m, t);
    let j = lemma_update_record(m, t, space, pid, windows, s2, l2);
    assert(l2[l.len() as int] == t[l.len() as int]);
    let scroll = t[l.len() as int].rep->Flag_0;
    assert forall|k: int|
        l.len() <= k < i && (#[trigger] t.take(i)[k]).req is WindowNode && t.take(
            i,
        )[k].req->WindowNode_0 == layout implies (t.take(i)[k].rep->MaybeNode_0 is Some) == held(
        t.take(i)[k].req->WindowNode_1,
    ) by {
        assert(t.take(i)[k] == l2[k]);
    }
    lemma_update(s, l, space, pid, windows, m, t, held, i);
    assert(m.spaces[space] == layout);
    assert forall|k: int|
        t.len() <= k < j && (#[trigger] l2.take(j)[k]).req is WindowNode && l2.take(
            j,
        )[k].req->WindowNode_0 == layout implies (l2.take(j)[k].rep->MaybeNode_0 is Some) == held(
        l2.take(j)[k].req->WindowNode_1,
    ) by {
        assert(l2.take(j)[k] == l2[k]);
    }
    lemma_update(m, t, space, pid, windows, s2, l2, held, j);
    let tree = wids.filter(goes_to_tree(s.floating, windows, scroll, held));
    let new = wids.filter(goes_to_columns(s.floating, windows, scroll, held));
    assert forall|wid: WindowId| #[trigger] wids.contains(wid) implies (goes_to_tree(
        s.floating,
        windows,
        scroll,
        held,
    )(wid) == goes_to_tree(m.floating, windows, scroll, held)(wid)) && (goes_to_columns(
        s.floating,
        windows,
        scroll,
        held,
    )(wid) == goes_to_columns(m.floating, windows, scroll, held)(wid)) by {
        assert(m.floating.contains(wid) == m.floating.contains(wid));
    }
    lemma_filtered_alike(
        wids,
        goes_to_tree(s.floating, windows, scroll, held),
        goes_to_tree(m.floating, windows, scroll, held),
    );
    lemma_filtered_alike(
        wids,
        goes_to_columns(s.floating, windows, scroll, held),
        goes_to_columns(m.floating, windows, scroll, held),
    );
    assert(update_asked(s, layout, pid, tree, new, l, t, i));
    assert(update_asked(m, layout, pid, tree, new, t, l2, j));
    assert forall|wid: WindowId| #[trigger] s2.floating.contains(wid) implies m.floating.contains(
        wid,
    ) by {
        assert(m.floating.contains(wid) == m.floating.contains(wid));
    }
    assert(s2.floating == m.floating);
    assert forall|f: ActiveFloat| #[trigger] s2.active_floating.contains(f) <==>
        m.active_floating.contains(f) by {
        assert(s2.floating.contains(f.wid) == m.floating.contains(f.wid));
    }
}

} // verus!
