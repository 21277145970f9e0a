//! What each event is for.
//!
//! The laws say what is done on an event, and which windows are raised and focused,
//! by what the host answers to the questions about its tree. `reply` is how it answers
//! at that time.

use vstd::prelude::*;

use crate::collections::{with, without};
use crate::config::NewWindowPlacement;
use crate::deeds::{
    deeds, group_deeds, is_question, lemma_deeds_join, lemma_each_done, lemma_only_questions,
    lemma_reply, lemma_reply_part, those_made,
};
use crate::ids::{Frame, LayoutId, LayoutKind, Size, SpaceId, WindowId};
use crate::layout::conversion::{active_converted, active_replaced, converted, kind_allowed};
use crate::layout::events::{
    all_scrolling_cleared, event_handled, info_of, resized_in, resized_in_all, scroll_additions,
    scrolling_cleared, selected_in, selected_in_all, top_layer, LayoutEventView,
};
use crate::layout::floating::of_other_apps;
use crate::layout::laws::lemma_converted_grows;
use crate::layout::state::{ActiveFloat, State};
use crate::layout::tree_model::{acts_as_tree, is_tree, Tree};
use crate::layout::update_laws::{
    all_of_app, goes_to_columns, goes_to_tree, has_windows, lemma_filtered, lemma_update,
    lemma_update_record, update_asked, wids_of,
};
use crate::link::{answer, answered_by, ask, ask_each, grew, Log, Rep, Req};
use crate::response::{nothing, Response};
use crate::window_class::WindowInfoView;

verus! {

/// The focus follows the mouse to the window under it, if the layout of the space that
/// the event names for that window has it and shows it, and if the current main window
/// is in the layout of its own space. The two spaces may differ. Otherwise nothing is
/// focused. Nothing is raised or done to the tree.
pub proof fn law_focus_follows_the_mouse(
    s: State,
    l: Log,
    over: (SpaceId, WindowId),
    current_main: Option<(SpaceId, WindowId)>,
    s2: State,
    l2: Log,
    r: Response,
    reply: spec_fn(Req) -> Rep,
)
    requires
        event_handled(
            s,
            l,
            (LayoutEventView::MouseMovedOverWindow { over, current_main }),
            s2,
            l2,
            r,
        ),
        answered_by(reply, l2, l.len() as int),
    ensures
        s2 == s,
        r.raise == Seq::<WindowId>::empty(),
        deeds(l2, l.len() as int) == Seq::<Req>::empty(),
        r.focus is Some ==> r.focus == Some(over.1),
        r.focus is Some <==> match current_main {
            None => false,
            Some(current) => {
                &&& reply(Req::WindowNode(s.spaces[current.0], current.1))->MaybeNode_0 is Some
                &&& match reply(Req::WindowNode(s.spaces[over.0], over.1))->MaybeNode_0 {
                    None => false,
                    Some(node) => reply(Req::IsVisible(node))->Flag_0,
                }
            },
        },
{
    broadcast use group_deeds;

    let n = l.len() as int;
    if let Some(current) = current_main {
        let q = Req::WindowNode(s.spaces[current.0], current.1);
        let q1 = Req::WindowNode(s.spaces[over.0], over.1);
        let t = ask(l, l2, q);
        let t1 = ask(t, l2, q1);
        if answer(t)->MaybeNode_0 is Some {
            if answer(t1)->MaybeNode_0 is Some {
                lemma_reply(reply, t1, l2, Req::IsVisible(answer(t1)->MaybeNode_0->0), n);
            }
            lemma_reply(reply, t, l2, q1, n);
        }
        lemma_reply(reply, l, l2, q, n);
    }
}

/// With a layout tree: where the current main window is tiled in its space, and the window
/// under the mouse in the space that the event names for it, the layout is asked whether
/// it shows that window, and the window is focused exactly if it does. Where either is not
/// tiled, nothing is focused.
pub proof fn law_focus_goes_to_tiled_windows(
    s: State,
    l: Log,
    over: (SpaceId, WindowId),
    current: (SpaceId, WindowId),
    s2: State,
    l2: Log,
    r: Response,
    trees: Seq<Tree>,
)
    requires
        event_handled(
            s,
            l,
            (LayoutEventView::MouseMovedOverWindow { over, current_main: Some(current) }),
            s2,
            l2,
            r,
        ),
        is_tree(trees, l2, l.len() as int),
        trees[l.len() as int].tiled.contains_key(s.spaces[over.0]),
        trees[l.len() as int].tiled.contains_key(s.spaces[current.0]),
    ensures
        ({
            let tree = trees[l.len() as int];
            let last = l2.last();
            if tree.tiled[s.spaces[current.0]].contains(current.1)
                && tree.tiled[s.spaces[over.0]].contains(over.1) {
                &&& last.req is IsVisible
                &&& tree.is_window_in(s.spaces[over.0], last.req->IsVisible_0, over.1)
                &&& r.focus == if last.rep->Flag_0 {
                    Some(over.1)
                } else {
                    None
                }
            } else {
                r == nothing()
            }
        }),
{
    let n = l.len() as int;
    let t = ask(l, l2, Req::WindowNode(s.spaces[current.0], current.1));
    let t1 = ask(t, l2, Req::WindowNode(s.spaces[over.0], over.1));
    assert(l2[n] == t[n]);
    assert(acts_as_tree(trees[n], l2[n], trees[n + 1]));
    if answer(t)->MaybeNode_0 is Some {
        assert(l2[n + 1] == t1[n + 1]);
        assert(acts_as_tree(trees[n + 1], l2[n + 1], trees[n + 2]));
    }
}

/// A window that is added goes by its class: one that is not managed is left alone, one
/// that floats is on screen in its space, and any other is put behind the selection of
/// the space's layout. A scroll layout puts it into a column of its own exactly if the
/// settings say so. Nothing is raised or focused.
pub proof fn law_added_window_goes_by_class(
    s: State,
    l: Log,
    space: SpaceId,
    wid: WindowId,
    info: WindowInfoView,
    s2: State,
    l2: Log,
    r: Response,
    reply: spec_fn(Req) -> Rep,
)
    requires
        event_handled(s, l, LayoutEventView::WindowAdded(space, wid, info), s2, l2, r),
        answered_by(reply, l2, l.len() as int),
    ensures
        r == nothing(),
        ({
            let layout = s.spaces[space];
            let other_layer = info.layer is Some && info.layer->0 != 0;
            let phantom = info.layer is None && !info.is_standard && info.bundle_id == Some(
                "com.apple.finder"@,
            );
            let picture = info.bundle_id == Some("org.mozilla.firefox"@) && info.title == Some(
                "Picture-in-Picture"@,
            );
            let odd = !info.is_standard || !info.is_resizable || info.bundle_id == Some(
                "com.apple.systempreferences"@,
            );
            let done = deeds(l2, l.len() as int);
            if other_layer || phantom || picture {
                s2 == s && done == Seq::<Req>::empty()
            } else if odd {
                let float = ActiveFloat { space, pid: wid.pid, wid };
                &&& done == Seq::<Req>::empty()
                &&& s2 == State { floating: s2.floating, active_floating: s2.active_floating, ..s }
                &&& forall|w: WindowId| #[trigger]
                    s2.floating.contains(w) <==> s.floating.contains(w) || w == wid
                &&& forall|f: ActiveFloat| #[trigger]
                    s2.active_floating.contains(f) <==> s.active_floating.contains(f) || f == float
            } else {
                &&& s2 == s
                &&& done == seq![
                    if reply(Req::IsScrollLayout(layout))->Flag_0 {
                        Req::AddWindowToScrollColumn(
                            layout,
                            wid,
                            s.scroll.new_window_in_column == NewWindowPlacement::NewColumn,
                            s.scroll.visible_columns,
                        )
                    } else {
                        Req::AddWindowAfter(layout, reply(Req::Selection(layout))->Node_0, wid)
                    },
                ]
            }
        }),
{
    broadcast use group_deeds;

    let n = l.len() as int;
    let layout = s.spaces[space];
    let t = ask(l, l2, Req::IsScrollLayout(layout));
    let float = ActiveFloat { space, pid: wid.pid, wid };
    lemma_with(s.floating, wid);
    lemma_with(s.active_floating, float);
    if l2.len() > n {
        assert(t[n] == l2[n]);
        let added = scroll_additions(s, layout, seq![wid]);
        if answer(t)->Flag_0 {
            lemma_each_done(t, l2, added);
            lemma_deeds_join(l, t, l2);
            assert(added =~= seq![added[0]]);
        } else {
            let t1 = ask(t, l2, Req::Selection(layout));
            lemma_reply(reply, t, l2, Req::Selection(layout), n);
        }
        lemma_reply(reply, l, l2, Req::IsScrollLayout(layout), n);
    }
}

/// What a list has with one member more.
pub proof fn lemma_with<K>(list: Seq<K>, key: K)
    ensures
        forall|k: K| #[trigger]
            with(list, key).contains(k) <==> list.contains(k) || k == key,
{
    let now = with(list, key);
    assert forall|k: K| #[trigger] now.contains(k) <==> list.contains(k) || k == key by {
        if !list.contains(key) {
            assert(now[list.len() as int] == key);
            if list.contains(k) {
                let i = choose|i: int| 0 <= i < list.len() && list[i] == k;
                assert(now[i] == k);
            }
            if now.contains(k) && k != key {
                let i = choose|i: int| 0 <= i < now.len() && now[i] == k;
                assert(list[i] == k);
            }
        }
    }
}

/// What is left of a list.
pub proof fn lemma_left_out<K>(list: Seq<K>, key: K, x: K)
    ensures
        without(list, key).contains(x) <==> list.contains(x) && x != key,
{
    lemma_filtered(list, |k: K| k != key, x);
}

/// A window that went to another space is put behind the selection of the space that it
/// went to, if the layout of the space that it left has it.
pub proof fn law_window_follows_to_new_space(
    s: State,
    l: Log,
    wid: WindowId,
    added: SpaceId,
    removed: SpaceId,
    s2: State,
    l2: Log,
    r: Response,
    reply: spec_fn(Req) -> Rep,
)
    requires
        event_handled(
            s,
            l,
            (LayoutEventView::WindowSpaceChanged { wid, added, removed }),
            s2,
            l2,
            r,
        ),
        answered_by(reply, l2, l.len() as int),
    ensures
        s2 == s,
        r == nothing(),
        deeds(l2, l.len() as int) == match reply(
            Req::WindowNode(s.spaces[removed], wid),
        )->MaybeNode_0 {
            Some(node) => seq![
                Req::MoveNodeAfter(reply(Req::Selection(s.spaces[added]))->Node_0, node),
            ],
            None => Seq::empty(),
        },
{
    broadcast use group_deeds;

    let n = l.len() as int;
    let q = Req::WindowNode(s.spaces[removed], wid);
    let t = ask(l, l2, q);
    if answer(t)->MaybeNode_0 is Some {
        lemma_reply(reply, t, l2, Req::Selection(s.spaces[added]), n);
    }
    lemma_reply(reply, l, l2, q, n);
}

/// A window that is gone leaves the tree, a closed application's windows do, and when it
/// is told which applications run, the windows of all others do. Which windows of a
/// closed application float is forgotten, and whether a window floats that is gone.
pub proof fn law_what_is_gone_leaves_the_tree(
    s: State,
    l: Log,
    wid: WindowId,
    pid: i32,
    pids: Seq<i32>,
    s2: State,
    l2: Log,
    r: Response,
)
    ensures
        event_handled(s, l, LayoutEventView::WindowRemoved(wid), s2, l2, r) ==> {
            &&& deeds(l2, l.len() as int) == seq![Req::RemoveWindow(wid)]
            &&& r == nothing()
            &&& s2 == State { floating: s2.floating, ..s }
            &&& forall|w: WindowId| #[trigger]
                s2.floating.contains(w) <==> s.floating.contains(w) && w != wid
        },
        event_handled(s, l, LayoutEventView::AppClosed(pid), s2, l2, r) ==> {
            &&& deeds(l2, l.len() as int) == seq![Req::RemoveWindowsForApp(pid)]
            &&& r == nothing()
            &&& s2 == State { floating: s2.floating, ..s }
            &&& forall|w: WindowId| #[trigger]
                s2.floating.contains(w) <==> s.floating.contains(w) && w.pid != pid
        },
        event_handled(s, l, LayoutEventView::AppsRunningUpdated(pids), s2, l2, r) ==> {
            &&& deeds(l2, l.len() as int) == seq![Req::RetainApps(pids)]
            &&& r == nothing()
            &&& s2 == s
        },
{
    broadcast use group_deeds;

    let kept = without(s.floating, wid);
    let others = of_other_apps(s.floating, pid);
    assert forall|w: WindowId| #[trigger] kept.contains(w) <==> s.floating.contains(w) && w
        != wid by {
        lemma_left_out(s.floating, wid, w);
    }
    assert forall|w: WindowId| #[trigger] others.contains(w) <==> s.floating.contains(w) && w.pid
        != pid by {
        lemma_filtered(s.floating, |k: WindowId| k.pid != pid, w);
    }
}

/// The windows that an application has on screen in a space, each listed once: those that the
/// layout of the space has, and that do not float, stay in it. A new one goes by its class: the
/// one that is not managed is left alone, the one that floats by default floats from now on,
/// and any other is given to the layout. A scroll layout gets it in a column of its own exactly
/// if the settings say so. A floating window of the application is noted as on screen there
/// exactly if it is listed, and the last floating window is forgotten if the application no
/// longer has it there.
pub proof fn law_update_gives_windows_out(
    s: State,
    l: Log,
    space: SpaceId,
    pid: i32,
    windows: Seq<(WindowId, WindowInfoView)>,
    s2: State,
    l2: Log,
    r: Response,
    reply: spec_fn(Req) -> Rep,
)
    requires
        event_handled(
            s,
            l,
            LayoutEventView::WindowsOnScreenUpdated(space, pid, windows),
            s2,
            l2,
            r,
        ),
        answered_by(reply, l2, l.len() as int),
        all_of_app(windows, pid),
        wids_of(windows).no_duplicates(),
    ensures
        r == nothing(),
        s2 == (State {
            floating: s2.floating,
            active_floating: s2.active_floating,
            last_floating: s2.last_floating,
            ..s
        }),
        s2.last_floating == match s.last_floating {
            Some(last) if last.pid == pid && !wids_of(windows).contains(last) => None,
            last => last,
        },
        ({
            let layout = s.spaces[space];
            let scroll = reply(Req::IsScrollLayout(layout))->Flag_0;
            let done = deeds(l2, l.len() as int);
            let tree = done[0]->SetWindowsForApp_2;
            let wids = wids_of(windows);
            let fate = |i: int|
                update_fate(
                    s.floating.contains(windows[i].0),
                    reply(Req::WindowNode(layout, windows[i].0))->MaybeNode_0 is Some,
                    windows[i].1,
                );
            &&& done.len() > 0
            &&& done[0] == Req::SetWindowsForApp(layout, pid, tree)
            &&& forall|k: int|
                1 <= k < done.len() ==> {
                    let wid = (#[trigger] done[k])->AddWindowToScrollColumn_1;
                    &&& wids.contains(wid)
                    &&& done[k] == Req::AddWindowToScrollColumn(
                        layout,
                        wid,
                        s.scroll.new_window_in_column == NewWindowPlacement::NewColumn,
                        s.scroll.visible_columns,
                    )
                }
            &&& forall|w: WindowId| #[trigger] tree.contains(w) ==> wids.contains(w)
            &&& forall|i: int|
                0 <= i < windows.len() ==> {
                    let wid = (#[trigger] windows[i]).0;
                    let column = Req::AddWindowToScrollColumn(
                        layout,
                        wid,
                        s.scroll.new_window_in_column == NewWindowPlacement::NewColumn,
                        s.scroll.visible_columns,
                    );
                    let float = ActiveFloat { space, pid, wid };
                    match fate(i) {
                        Fate::Stays => {
                            &&& tree.contains(wid) && !done.contains(column)
                            &&& !s2.floating.contains(wid) && !s2.active_floating.contains(float)
                        },
                        Fate::Joins => {
                            &&& tree.contains(wid) == !scroll && done.contains(column) == scroll
                            &&& !s2.floating.contains(wid) && !s2.active_floating.contains(float)
                        },
                        Fate::Floats => {
                            &&& !tree.contains(wid) && !done.contains(column)
                            &&& s2.floating.contains(wid) && s2.active_floating.contains(float)
                        },
                        Fate::Ignored => {
                            &&& !tree.contains(wid) && !done.contains(column)
                            &&& !s2.floating.contains(wid) && !s2.active_floating.contains(float)
                        },
                    }
                }
            &&& forall|w: WindowId|
                !wids.contains(w) ==> (#[trigger] s2.floating.contains(w) <==> s.floating.contains(
                    w,
                ))
            &&& forall|f: ActiveFloat|
                f.space != space || f.pid != pid ==> (#[trigger] s2.active_floating.contains(f)
                    <==> s.active_floating.contains(f))
            &&& forall|f: ActiveFloat| #[trigger]
                s2.active_floating.contains(f) && f.space == space && f.pid == pid
                    ==> wids.contains(f.wid)
        }),
{
    let n = l.len() as int;
    let layout = s.spaces[space];
    let wids = wids_of(windows);
    let held = |wid: WindowId| reply(Req::WindowNode(layout, wid))->MaybeNode_0 is Some;
    let at = lemma_update_record(s, l, space, pid, windows, s2, l2);
    let scroll = l2[n].rep->Flag_0;
    let t = l2.take(at);
    assert(has_windows(layout, held, t, n)) by {
        assert forall|k: int|
            n <= k < t.len() && (#[trigger] t[k]).req is WindowNode && t[k].req->WindowNode_0
                == layout implies (t[k].rep->MaybeNode_0 is Some) == held(
            t[k].req->WindowNode_1,
        ) by {
            assert(t[k] == l2[k]);
        }
    }
    lemma_update(s, l, space, pid, windows, s2, l2, held, at);
    let to_tree = goes_to_tree(s.floating, windows, scroll, held);
    let to_columns = goes_to_columns(s.floating, windows, scroll, held);
    let tree = wids.filter(to_tree);
    let new = wids.filter(to_columns);
    lemma_update_deeds(s, layout, pid, tree, new, l, l2, at);
    let done = deeds(l2, n);
    let adds = scroll_additions(s, layout, new);
    assert forall|w: WindowId| #[trigger] tree.contains(w) <==> wids.contains(w) && to_tree(w) by {
        lemma_filtered(wids, to_tree, w);
    }
    assert forall|w: WindowId| #[trigger] new.contains(w) <==> wids.contains(w) && to_columns(
        w,
    ) by {
        lemma_filtered(wids, to_columns, w);
    }
    assert forall|k: int| 1 <= k < done.len() implies wids.contains(
        (#[trigger] done[k])->AddWindowToScrollColumn_1,
    ) && done[k] == Req::AddWindowToScrollColumn(
        layout,
        done[k]->AddWindowToScrollColumn_1,
        s.scroll.new_window_in_column == NewWindowPlacement::NewColumn,
        s.scroll.visible_columns,
    ) by {
        assert(done[k] == adds[k - 1]);
        assert(new.contains(new[k - 1]));
    }
    assert forall|i: int| 0 <= i < windows.len() implies info_of(
        windows,
        (#[trigger] windows[i]).0,
    ) == windows[i].1 by {
        lemma_info(windows, i);
    }
    assert forall|i: int| 0 <= i < windows.len() implies {
        let wid = (#[trigger] windows[i]).0;
        let column = Req::AddWindowToScrollColumn(
            layout,
            wid,
            s.scroll.new_window_in_column == NewWindowPlacement::NewColumn,
            s.scroll.visible_columns,
        );
        &&& wids.contains(wid)
        &&& done.contains(column) == new.contains(wid)
    } by {
        let wid = windows[i].0;
        let column = Req::AddWindowToScrollColumn(
            layout,
            wid,
            s.scroll.new_window_in_column == NewWindowPlacement::NewColumn,
            s.scroll.visible_columns,
        );
        assert(wids[i] == wid);
        if new.contains(wid) {
            let k = choose|k: int| 0 <= k < new.len() && new[k] == wid;
            assert(done[k + 1] == adds[k]);
        }
        if done.contains(column) {
            let k = choose|k: int| 0 <= k < done.len() && done[k] == column;
            assert(done[k] == adds[k - 1]);
            assert(new[k - 1] == wid);
        }
    }
}

/// What becomes of a window of an update.
pub enum Fate {
    /// It stays in the layout.
    Stays,
    /// It joins the layout.
    Joins,
    Floats,
    Ignored,
}

/// What becomes of a window that floats or not, that the layout has or not.
pub open spec fn update_fate(floats: bool, tiled: bool, info: WindowInfoView) -> Fate {
    let other_layer = info.layer is Some && info.layer->0 != 0;
    let phantom = info.layer is None && !info.is_standard && info.bundle_id == Some(
        "com.apple.finder"@,
    );
    let picture = info.bundle_id == Some("org.mozilla.firefox"@) && info.title == Some(
        "Picture-in-Picture"@,
    );
    let odd = !info.is_standard || !info.is_resizable || info.bundle_id == Some(
        "com.apple.systempreferences"@,
    );
    if floats {
        Fate::Floats
    } else if tiled {
        Fate::Stays
    } else if other_layer || phantom || picture {
        Fate::Ignored
    } else if odd {
        Fate::Floats
    } else {
        Fate::Joins
    }
}

proof fn lemma_info(windows: Seq<(WindowId, WindowInfoView)>, i: int)
    requires
        0 <= i < windows.len(),
        wids_of(windows).no_duplicates(),
    ensures
        info_of(windows, windows[i].0) == windows[i].1,
    decreases windows.len(),
{
    let wids = wids_of(windows);
    let last = windows.len() - 1;
    assert(wids[i] == windows[i].0 && wids[last] == windows[last].0);
    if i < last {
        let front = windows.drop_last();
        assert(wids_of(front) =~= wids.drop_last());
        assert forall|a: int, b: int|
            0 <= a < front.len() && 0 <= b < front.len() && a != b implies wids_of(front)[a]
            != wids_of(front)[b] by {
            assert(wids_of(front)[a] == wids[a] && wids_of(front)[b] == wids[b]);
        }
        lemma_info(front, i);
    }
}

proof fn lemma_update_deeds(
    s: State,
    layout: LayoutId,
    pid: i32,
    tree: Seq<WindowId>,
    new: Seq<WindowId>,
    l: Log,
    l2: Log,
    at: int,
)
    requires
        update_asked(s, layout, pid, tree, new, l, l2, at),
    ensures
        deeds(l2, l.len() as int) == seq![Req::SetWindowsForApp(layout, pid, tree)]
            + scroll_additions(s, layout, new),
{
    broadcast use group_deeds;

    let t = l2.take(at);
    let t1 = l2.take(at + 1);
    assert(grew(l, t)) by {
        assert forall|i: int| 0 <= i < l.len() implies #[trigger] t[i] == l[i] by {
            assert(l2[i] == l[i]);
        }
    }
    assert forall|i: int| l.len() <= i < t.len() implies is_question((#[trigger] t[i]).req) by {
        assert(t[i] == l2[i]);
    }
    lemma_only_questions(l, t);
    assert(t1 =~= t.push(l2[at]));
    let adds = scroll_additions(s, layout, new);
    assert(l2 =~= ask_each(t1, l2, adds)) by {
        assert forall|i: int| 0 <= i < l2.len() implies #[trigger] l2[i] == ask_each(
            t1,
            l2,
            adds,
        )[i] by {
            if i > at {
                assert(l2[at + 1 + (i - at - 1)].req == adds[i - at - 1]);
            }
        }
    }
    lemma_each_done(t1, l2, adds);
    assert(grew(l, t1));
    lemma_deeds_join(l, t1, l2);
}

/// What the tree is asked to do where a window has the focus: its node, where the layout
/// has one, is selected.
pub open spec fn selecting(
    reply: spec_fn(Req) -> Rep,
    layout: LayoutId,
    wid: WindowId,
) -> Option<Req> {
    match reply(Req::WindowNode(layout, wid))->MaybeNode_0 {
        Some(node) => Some(Req::Select(node)),
        None => None,
    }
}

/// What a viewport is asked to do where a window has the focus.
pub open spec fn following_again(s: State, layout: LayoutId) -> Option<Req> {
    if s.viewports.contains(layout) {
        Some(Req::StopUserScrolling(layout))
    } else {
        None
    }
}

proof fn lemma_all_cleared(s: State, l: Log, spaces: Seq<SpaceId>, l2: Log)
    requires
        all_scrolling_cleared(s, l, spaces, l2),
    ensures
        grew(l, l2),
        deeds(l2, l.len() as int) == those_made(
            Seq::new(spaces.len(), |i: int| following_again(s, s.spaces[spaces[i]])),
        ),
    decreases spaces.len(),
{
    broadcast use group_deeds;

    let all = Seq::new(spaces.len(), |i: int| following_again(s, s.spaces[spaces[i]]));
    if spaces.len() == 0 {
        assert(all =~= Seq::<Option<Req>>::empty());
    } else {
        let front = spaces.drop_last();
        let t = choose|t: Log|
            all_scrolling_cleared(s, l, front, t) && #[trigger] scrolling_cleared(
                s,
                t,
                spaces.last(),
                l2,
            );
        lemma_all_cleared(s, l, front, t);
        assert(all.drop_last() =~= Seq::new(
            front.len(),
            |i: int| following_again(s, s.spaces[front[i]]),
        ));
    }
}

proof fn lemma_all_selected(
    s: State,
    l: Log,
    spaces: Seq<SpaceId>,
    wid: WindowId,
    l2: Log,
    reply: spec_fn(Req) -> Rep,
    from: int,
)
    requires
        selected_in_all(s, l, spaces, wid, l2),
        answered_by(reply, l2, from),
        0 <= from <= l.len(),
    ensures
        grew(l, l2),
        deeds(l2, l.len() as int) == those_made(
            Seq::new(spaces.len(), |i: int| selecting(reply, s.spaces[spaces[i]], wid)),
        ),
    decreases spaces.len(),
{
    broadcast use group_deeds;

    let all = Seq::new(spaces.len(), |i: int| selecting(reply, s.spaces[spaces[i]], wid));
    if spaces.len() == 0 {
        assert(all =~= Seq::<Option<Req>>::empty());
    } else {
        let front = spaces.drop_last();
        let t = choose|t: Log|
            selected_in_all(s, l, front, wid, t) && #[trigger] selected_in(
                s,
                t,
                spaces.last(),
                wid,
                l2,
            );
        let q = Req::WindowNode(s.spaces[spaces.last()], wid);
        assert(grew(ask(t, l2, q), l2));
        lemma_all_selected_grow(s, l, front, wid, t);
        lemma_reply(reply, t, l2, q, from);
        lemma_reply_part(reply, t, l2, from);
        lemma_all_selected(s, l, front, wid, t, reply, from);
        assert(all.drop_last() =~= Seq::new(
            front.len(),
            |i: int| selecting(reply, s.spaces[front[i]], wid),
        ));
    }
}

proof fn lemma_all_selected_grow(s: State, l: Log, spaces: Seq<SpaceId>, wid: WindowId, l2: Log)
    requires
        selected_in_all(s, l, spaces, wid, l2),
    ensures
        grew(l, l2),
    decreases spaces.len(),
{
    if spaces.len() > 0 {
        let front = spaces.drop_last();
        let t = choose|t: Log|
            selected_in_all(s, l, front, wid, t) && #[trigger] selected_in(
                s,
                t,
                spaces.last(),
                wid,
                l2,
            );
        lemma_all_selected_grow(s, l, front, wid, t);
    }
}

/// The window that has the focus is known as such. One that floats is remembered as the
/// last that did, and the tree is left alone. Any other is selected in the layout of each
/// of the spaces that has it, and the viewports of those spaces follow it again.
pub proof fn law_focused_window_is_selected(
    s: State,
    l: Log,
    spaces: Seq<SpaceId>,
    wid: WindowId,
    s2: State,
    l2: Log,
    r: Response,
    reply: spec_fn(Req) -> Rep,
)
    requires
        event_handled(s, l, LayoutEventView::WindowFocused(spaces, wid), s2, l2, r),
        answered_by(reply, l2, l.len() as int),
    ensures
        r == nothing(),
        s2 == (State {
            focused: Some(wid),
            last_floating: if s.floating.contains(wid) {
                Some(wid)
            } else {
                s.last_floating
            },
            ..s
        }),
        deeds(l2, l.len() as int) == if s.floating.contains(wid) {
            Seq::empty()
        } else {
            those_made(Seq::new(spaces.len(), |i: int| following_again(s, s.spaces[spaces[i]])))
                + those_made(
                Seq::new(spaces.len(), |i: int| selecting(reply, s.spaces[spaces[i]], wid)),
            )
        },
{
    broadcast use group_deeds;

    if !s.floating.contains(wid) {
        let t = choose|t: Log| #[trigger]
            all_scrolling_cleared(s, l, spaces, t) && selected_in_all(s, t, spaces, wid, l2);
        lemma_all_cleared(s, l, spaces, t);
        lemma_all_selected(s, t, spaces, wid, l2, reply, l.len() as int);
        lemma_deeds_join(l, t, l2);
    }
}

/// What the tree is asked to do when the user gave a window of a layout the frame `new`,
/// where it had `old`, on a screen. Sizes that do not fit on the screen come to nothing. A
/// window that now fills the screen is full screen; one that was full screen and no longer
/// fills the screen is not; and otherwise its node is resized from the one to the other.
pub open spec fn resizing(
    reply: spec_fn(Req) -> Rep,
    layout: LayoutId,
    wid: WindowId,
    old_frame: Frame,
    new_frame: Frame,
    screen: Frame,
) -> Option<Req> {
    match reply(Req::WindowNode(layout, wid))->MaybeNode_0 {
        Some(node) if reply(Req::ContainsSize(screen.size, old_frame.size))->Flag_0 && reply(
            Req::ContainsSize(screen.size, new_frame.size),
        )->Flag_0 => Some(
            if reply(Req::SameFrame(new_frame, screen))->Flag_0 {
                Req::SetFullscreen(node, true)
            } else if reply(Req::IsFullscreen(node))->Flag_0 {
                Req::SetFullscreen(node, false)
            } else {
                Req::SetFrameFromResize(node, old_frame, new_frame, screen)
            },
        ),
        _ => None,
    }
}

proof fn lemma_resized_in(
    s: State,
    l: Log,
    wid: WindowId,
    old_frame: Frame,
    new_frame: Frame,
    screen: (SpaceId, Frame),
    l2: Log,
    reply: spec_fn(Req) -> Rep,
    from: int,
)
    requires
        resized_in(s, l, wid, old_frame, new_frame, screen, l2),
        answered_by(reply, l2, from),
        0 <= from <= l.len(),
    ensures
        grew(l, l2),
        forall|at: int|
            0 <= at <= l.len() ==> #[trigger] deeds(l2, at) == match resizing(
                reply,
                s.spaces[screen.0],
                wid,
                old_frame,
                new_frame,
                screen.1,
            ) {
                Some(req) => deeds(l, at).push(req),
                None => deeds(l, at),
            },
{
    broadcast use group_deeds;

    let q = Req::WindowNode(s.spaces[screen.0], wid);
    let t = ask(l, l2, q);
    if let Some(node) = answer(t)->MaybeNode_0 {
        let q1 = Req::ContainsSize(screen.1.size, old_frame.size);
        let q2 = Req::ContainsSize(screen.1.size, new_frame.size);
        let q3 = Req::SameFrame(new_frame, screen.1);
        let q4 = Req::IsFullscreen(node);
        let t1 = ask(t, l2, q1);
        let t2 = ask(t1, l2, q2);
        let t3 = ask(t2, l2, q3);
        let t4 = ask(t3, l2, q4);
        if answer(t1)->Flag_0 {
            if answer(t2)->Flag_0 {
                if !answer(t3)->Flag_0 {
                    lemma_reply(reply, t3, l2, q4, from);
                }
                lemma_reply(reply, t2, l2, q3, from);
            }
            lemma_reply(reply, t1, l2, q2, from);
        }
        lemma_reply(reply, t, l2, q1, from);
    }
    lemma_reply(reply, l, l2, q, from);
}

pub proof fn lemma_resized_in_all(
    s: State,
    l: Log,
    wid: WindowId,
    old_frame: Frame,
    new_frame: Frame,
    screens: Seq<(SpaceId, Frame)>,
    l2: Log,
    reply: spec_fn(Req) -> Rep,
    from: int,
)
    requires
        resized_in_all(s, l, wid, old_frame, new_frame, screens, l2),
        0 <= from <= l.len(),
    ensures
        grew(l, l2),
        answered_by(reply, l2, from) ==> deeds(l2, l.len() as int) == those_made(
            Seq::new(
                screens.len(),
                |i: int|
                    resizing(
                        reply,
                        s.spaces[screens[i].0],
                        wid,
                        old_frame,
                        new_frame,
                        screens[i].1,
                    ),
            ),
        ),
    decreases screens.len(),
{
    broadcast use group_deeds;

    let all = Seq::new(
        screens.len(),
        |i: int|
            resizing(reply, s.spaces[screens[i].0], wid, old_frame, new_frame, screens[i].1),
    );
    if screens.len() == 0 {
        assert(all =~= Seq::<Option<Req>>::empty());
    } else {
        let front = screens.drop_last();
        let t = choose|t: Log|
            {
                &&& resized_in_all(s, l, wid, old_frame, new_frame, front, t)
                &&& #[trigger] resized_in(s, t, wid, old_frame, new_frame, screens.last(), l2)
            };
        lemma_resized_in_all(s, l, wid, old_frame, new_frame, front, t, reply, from);
        if answered_by(reply, l2, from) {
            lemma_resized_in(
                s,
                t,
                wid,
                old_frame,
                new_frame,
                screens.last(),
                l2,
                reply,
                from,
            );
            lemma_reply_part(reply, t, l2, from);
            assert(all.drop_last() =~= Seq::new(
                front.len(),
                |i: int|
                    resizing(reply, s.spaces[front[i].0], wid, old_frame, new_frame, front[i].1),
            ));
        }
    }
}

/// A resize by the user goes to the layout of each of the screens that has the window,
/// from the old frame to the new one.
pub proof fn law_resize_reaches_the_layouts(
    s: State,
    l: Log,
    wid: WindowId,
    old_frame: Frame,
    new_frame: Frame,
    screens: Seq<(SpaceId, Frame)>,
    s2: State,
    l2: Log,
    r: Response,
    reply: spec_fn(Req) -> Rep,
)
    requires
        event_handled(
            s,
            l,
            (LayoutEventView::WindowResized { wid, old_frame, new_frame, screens }),
            s2,
            l2,
            r,
        ),
        answered_by(reply, l2, l.len() as int),
    ensures
        s2 == s,
        r == nothing(),
        deeds(l2, l.len() as int) == those_made(
            Seq::new(
                screens.len(),
                |i: int|
                    resizing(
                        reply,
                        s.spaces[screens[i].0],
                        wid,
                        old_frame,
                        new_frame,
                        screens[i].1,
                    ),
            ),
        ),
{
    lemma_resized_in_all(
        s,
        l,
        wid,
        old_frame,
        new_frame,
        screens,
        l2,
        reply,
        l.len() as int,
    );
}

/// A space that is shown has the layout for the size of its screen; one that was never
/// shown before is opened first, with the default kind of layout. The windows that the
/// layout shows are raised, and none is focused. Here scroll layouts are on, or the
/// layout is none.
pub proof fn law_shown_space_has_layout_for_size(
    s: State,
    l: Log,
    space: SpaceId,
    size: Size,
    s2: State,
    l2: Log,
    r: Response,
    reply: spec_fn(Req) -> Rep,
)
    requires
        event_handled(s, l, LayoutEventView::SpaceExposed(space, size), s2, l2, r),
        answered_by(reply, l2, l.len() as int),
        s.scroll_enabled || !reply(
            Req::IsScrollLayout(reply(Req::ActivateSize(space, size))->Layout_0),
        )->Flag_0,
    ensures
        ({
            let layout = reply(Req::ActivateSize(space, size))->Layout_0;
            &&& s2 == State { spaces: s.spaces.insert(space, layout), ..s }
            &&& r.focus is None
            &&& r.raise == reply(
                Req::VisibleWindowsUnder(reply(Req::Root(layout))->Node_0),
            )->Windows_0
            &&& deeds(l2, l.len() as int) == if s.spaces.contains_key(space) {
                seq![Req::ActivateSize(space, size)]
            } else {
                seq![Req::OpenSpace(space, size, s.default_kind), Req::ActivateSize(space, size)]
            }
        }),
{
    broadcast use group_deeds;

    let n = l.len() as int;
    let t = if s.spaces.contains_key(space) {
        l
    } else {
        ask(l, l2, Req::OpenSpace(space, size, s.default_kind))
    };
    let q = Req::ActivateSize(space, size);
    let t1 = ask(t, l2, q);
    let layout = answer(t1)->Layout_0;
    let s1 = State { spaces: s.spaces.insert(space, layout), ..s };
    let t2 = choose|t2: Log| #[trigger]
        kind_allowed(s1, t1, space, s2, t2) && top_layer(s2, t2, space, l2, r.raise)
            && r.focus is None;
    lemma_kind_allowed_grows(s1, t1, space, s2, t2);
    assert(grew(t2, l2));
    lemma_reply(reply, t, l2, q, n);
    if !s.scroll_enabled {
        let q2 = Req::IsScrollLayout(layout);
        lemma_reply_part(reply, t2, l2, n);
        assert(grew(ask(t1, t2, q2), t2)) by {
            if !answer(ask(t1, t2, q2))->Flag_0 {
            } else {
                lemma_active_converted_grows(s1, ask(t1, t2, q2), space, s2, t2);
            }
        }
        lemma_reply(reply, t1, t2, q2, n);
    }
    lemma_reply(
        reply,
        ask(t2, l2, Req::Root(layout)),
        l2,
        Req::VisibleWindowsUnder(answer(ask(t2, l2, Req::Root(layout)))->Node_0),
        n,
    );
    lemma_reply(reply, t2, l2, Req::Root(layout), n);
}

proof fn lemma_active_converted_grows(s: State, l: Log, space: SpaceId, s2: State, l2: Log)
    requires
        active_converted(s, l, space, LayoutKind::Tree, s2, l2),
    ensures
        grew(l, l2),
{
    let layout = s.spaces[space];
    let (t, new_layout) = choose|t: Log, new_layout: LayoutId|
        {
            &&& #[trigger] converted(
                l,
                s.scroll.visible_columns,
                s.focused,
                layout,
                LayoutKind::Tree,
                t,
                new_layout,
            )
            &&& active_replaced(s, t, space, layout, new_layout, s2, l2)
        };
    lemma_converted_grows(
        l,
        s.scroll.visible_columns,
        s.focused,
        layout,
        LayoutKind::Tree,
        t,
        new_layout,
    );
}

pub proof fn lemma_kind_allowed_grows(s: State, l: Log, space: SpaceId, s2: State, l2: Log)
    requires
        kind_allowed(s, l, space, s2, l2),
    ensures
        grew(l, l2),
{
    if !s.scroll_enabled && s.spaces.contains_key(space) {
        let t = ask(l, l2, Req::IsScrollLayout(s.spaces[space]));
        if answer(t)->Flag_0 {
            lemma_active_converted_grows(s, t, space, s2, l2);
        }
    }
}

} // verus!
