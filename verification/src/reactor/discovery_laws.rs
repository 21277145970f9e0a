//! What an application says of its windows, and what becomes of it.

use vstd::prelude::*;

use crate::ids::{Frame, LayoutId, SpaceId, WindowId, WindowServerId};
use crate::layout::events::{
    all_scrolling_cleared, asked_for, event_handled, scrolling_cleared, selected_in,
    selected_in_all, sorted, window_focused, windows_updated, LayoutEventView,
};
use crate::layout::state::State;
use crate::layout::tree_model::{acts_as_tree, is_tree, Tree};
use crate::layout::update_laws::{
    all_of_app, lemma_asked_for, lemma_filtered, lemma_update_record, lemma_update_tiles,
    tiled_after, update_asked, wids_of,
};
use crate::link::{answered_in_turn, ask, ask_each, grew, Log, Rep, Req};
use crate::reactor::discovery::{
    app_of, discovered, findings_told, found_elsewhere, found_in, found_step, has_main, layout_info,
    main_told, screen_told, screens_told, window_of_app, windows_found, windows_noted, FoundView,
};
use crate::reactor::event::WindowInfo;
use crate::reactor::raising::{answered, told};
use crate::reactor::screens::{area_on, area_questions, best_screen, best_space};
use crate::reactor::state::{spaces_of, Known, Screen};
use crate::response::{nothing, Response};
use crate::window_class::WindowInfoView;

verus! {

/// The part of a record is answered as the whole is.
proof fn lemma_part(host: spec_fn(Log, Req) -> Rep, t: Log, whole: Log, from: int)
    requires
        grew(t, whole),
        0 <= from,
        answered_in_turn(host, whole, from),
    ensures
        answered_in_turn(host, t, from),
{
    assert forall|i: int| from <= i < t.len() implies (#[trigger] t[i]).rep == host(
        t.take(i),
        t[i].req,
    ) by {
        assert(whole[i] == t[i]);
        assert(whole.take(i) =~= t.take(i));
    }
}

/// Two records that begin alike go on alike as far as the same is asked.
proof fn lemma_same_record(host: spec_fn(Log, Req) -> Rep, a: Log, b: Log, n: int, i: int)
    requires
        0 <= n <= i <= a.len(),
        i <= b.len(),
        answered_in_turn(host, a, n),
        answered_in_turn(host, b, n),
        a.take(n) == b.take(n),
        forall|j: int| n <= j < i ==> (#[trigger] a[j]).req == b[j].req,
    ensures
        a.take(i) == b.take(i),
    decreases i - n,
{
    if i > n {
        lemma_same_record(host, a, b, n, i - 1);
        assert(a[i - 1].req == b[i - 1].req);
        assert(a[i - 1].rep == host(a.take(i - 1), a[i - 1].req));
        assert(b[i - 1].rep == host(b.take(i - 1), b[i - 1].req));
        assert(a.take(i) =~= a.take(i - 1).push(a[i - 1]));
        assert(b.take(i) =~= b.take(i - 1).push(b[i - 1]));
    }
}

/// Two records that go on from the same one, with the same requests.
proof fn lemma_same_requests(host: spec_fn(Log, Req) -> Rep, l: Log, a: Log, b: Log)
    requires
        grew(l, a),
        grew(l, b),
        a.len() == b.len(),
        answered_in_turn(host, a, l.len() as int),
        answered_in_turn(host, b, l.len() as int),
        forall|j: int| l.len() <= j < a.len() ==> (#[trigger] a[j]).req == b[j].req,
    ensures
        a == b,
{
    let n = l.len() as int;
    assert(a.take(n) =~= l);
    assert(b.take(n) =~= l);
    lemma_same_record(host, a, b, n, a.len() as int);
    assert(a.take(a.len() as int) =~= a);
    assert(b.take(b.len() as int) =~= b);
}

/// The next request is answered alike.
proof fn lemma_same_next(host: spec_fn(Log, Req) -> Rep, l: Log, a: Log, b: Log)
    requires
        grew(l, a),
        grew(l, b),
        l.len() < a.len(),
        l.len() < b.len(),
        answered_in_turn(host, a, l.len() as int),
        answered_in_turn(host, b, l.len() as int),
        a[l.len() as int].req == b[l.len() as int].req,
    ensures
        a[l.len() as int] == b[l.len() as int],
{
    let n = l.len() as int;
    assert(a.take(n) =~= l);
    assert(b.take(n) =~= l);
}

/// Answers count from any later place, too.
proof fn lemma_later(host: spec_fn(Log, Req) -> Rep, a: Log, from: int, later: int)
    requires
        answered_in_turn(host, a, from),
        from <= later,
    ensures
        answered_in_turn(host, a, later),
{
}

/// The best space of a frame follows from the answers.
proof fn lemma_same_best_space(
    host: spec_fn(Log, Req) -> Rep,
    l: Log,
    screens: Seq<Screen>,
    frame: Frame,
    a: Log,
    x: Option<SpaceId>,
    b: Log,
    y: Option<SpaceId>,
)
    requires
        best_space(l, screens, frame, a, x),
        best_space(l, screens, frame, b, y),
        answered_in_turn(host, a, l.len() as int),
        answered_in_turn(host, b, l.len() as int),
    ensures
        a == b,
        x == y,
        grew(l, a),
{
    let reqs = area_questions(screens, frame);
    let p = choose|best: Option<usize>| #[trigger]
        best_screen(l, screens, frame, a, best) && x == match best {
            Some(idx) => screens[idx as int].space,
            None => None,
        };
    let q = choose|best: Option<usize>| #[trigger]
        best_screen(l, screens, frame, b, best) && y == match best {
            Some(idx) => screens[idx as int].space,
            None => None,
        };
    assert(a == ask_each(l, a, reqs));
    assert(b == ask_each(l, b, reqs));
    lemma_same_requests(host, l, a, b);
    if let (Some(i), Some(j)) = (p, q) {
        if i != j {
            let n = l.len() as int;
            assert(area_on(a, n, i as int) < area_on(a, n, j as int) || i < j && area_on(
                a,
                n,
                i as int,
            ) == area_on(a, n, j as int));
            assert(area_on(a, n, j as int) < area_on(a, n, i as int) || j < i && area_on(
                a,
                n,
                i as int,
            ) == area_on(a, n, j as int));
        }
    }
}

pub proof fn lemma_found_step_grows(
    r: Known,
    l: Log,
    pid: i32,
    found: Seq<FoundView>,
    wsid: WindowServerId,
    l2: Log,
    found2: Seq<FoundView>,
)
    requires
        found_step(r, l, pid, found, wsid, l2, found2),
    ensures
        grew(l, l2),
        forall|i: int| l.len() <= i < l2.len() ==> (#[trigger] l2[i]).req is OverlapArea,
{
    if let Some(wid) = window_of_app(r, pid, wsid) {
        let frame = r.windows[wid].frame_monotonic;
        assert(l2 == ask_each(l, l2, area_questions(r.screens, frame)));
        assert forall|i: int| l.len() <= i < l2.len() implies (#[trigger] l2[i]).req
            is OverlapArea by {
            assert(l2[i].req == area_questions(r.screens, frame)[i - l.len()]);
        }
    }
}

pub proof fn lemma_found_grows(
    r: Known,
    l: Log,
    pid: i32,
    visible: Seq<WindowServerId>,
    l2: Log,
    found: Seq<FoundView>,
)
    requires
        windows_found(r, l, pid, visible, l2, found),
    ensures
        grew(l, l2),
        forall|i: int| l.len() <= i < l2.len() ==> (#[trigger] l2[i]).req is OverlapArea,
    decreases visible.len(),
{
    if visible.len() > 0 {
        let (t, before) = choose|t: Log, before: Seq<FoundView>|
            windows_found(r, l, pid, visible.drop_last(), t, before) && #[trigger] found_step(
                r,
                t,
                pid,
                before,
                visible.last(),
                l2,
                found,
            );
        lemma_found_grows(r, l, pid, visible.drop_last(), t, before);
        lemma_found_step_grows(r, t, pid, before, visible.last(), l2, found);
        assert forall|i: int| l.len() <= i < l2.len() implies (#[trigger] l2[i]).req
            is OverlapArea by {
            if i < t.len() {
                assert(l2[i] == t[i]);
            }
        }
    }
}

/// The windows that are found follow from the answers.
proof fn lemma_same_found(
    host: spec_fn(Log, Req) -> Rep,
    r: Known,
    l: Log,
    pid: i32,
    visible: Seq<WindowServerId>,
    a: Log,
    x: Seq<FoundView>,
    b: Log,
    y: Seq<FoundView>,
)
    requires
        windows_found(r, l, pid, visible, a, x),
        windows_found(r, l, pid, visible, b, y),
        answered_in_turn(host, a, l.len() as int),
        answered_in_turn(host, b, l.len() as int),
    ensures
        a == b,
        x == y,
    decreases visible.len(),
{
    if visible.len() > 0 {
        let front = visible.drop_last();
        let last = visible.last();
        let (t, p) = choose|t: Log, before: Seq<FoundView>|
            windows_found(r, l, pid, visible.drop_last(), t, before) && #[trigger] found_step(
                r,
                t,
                pid,
                before,
                visible.last(),
                a,
                x,
            );
        let (u, q) = choose|t: Log, before: Seq<FoundView>|
            windows_found(r, l, pid, visible.drop_last(), t, before) && #[trigger] found_step(
                r,
                t,
                pid,
                before,
                visible.last(),
                b,
                y,
            );
        lemma_found_grows(r, l, pid, front, t, p);
        lemma_found_grows(r, l, pid, front, u, q);
        lemma_found_step_grows(r, t, pid, p, last, a, x);
        lemma_found_step_grows(r, u, pid, q, last, b, y);
        lemma_part(host, t, a, l.len() as int);
        lemma_part(host, u, b, l.len() as int);
        lemma_same_found(host, r, l, pid, front, t, p, u, q);
        if let Some(wid) = window_of_app(r, pid, last) {
            let frame = r.windows[wid].frame_monotonic;
            let info = layout_info(r, app_of(r, pid), r.windows[wid]);
            let v = choose|space: Option<SpaceId>|
                {
                    &&& #[trigger] best_space(t, r.screens, frame, a, space)
                    &&& x == match space {
                        Some(space) => p.push(FoundView { space, wid, info }),
                        None => p,
                    }
                };
            let w = choose|space: Option<SpaceId>|
                {
                    &&& #[trigger] best_space(t, r.screens, frame, b, space)
                    &&& y == match space {
                        Some(space) => p.push(FoundView { space, wid, info }),
                        None => p,
                    }
                };
            lemma_later(host, a, l.len() as int, t.len() as int);
            lemma_later(host, b, l.len() as int, t.len() as int);
            lemma_same_best_space(host, t, r.screens, frame, a, v, b, w);
        }
    }
}

/// The answers for the windows of an update are the same again.
proof fn lemma_same_asked(
    host: spec_fn(Log, Req) -> Rep,
    floating: Seq<WindowId>,
    layout: LayoutId,
    windows: Seq<(WindowId, WindowInfoView)>,
    n: nat,
    l: Log,
    a: Log,
    b: Log,
)
    requires
        asked_for(floating, layout, windows, n, l, a),
        asked_for(floating, layout, windows, n, l, b),
        answered_in_turn(host, a, l.len() as int),
        answered_in_turn(host, b, l.len() as int),
    ensures
        a == b,
    decreases n,
{
    if n > 0 {
        let wid = windows[n - 1].0;
        if floating.contains(wid) {
            lemma_same_asked(host, floating, layout, windows, (n - 1) as nat, l, a, b);
        } else {
            let t = a.drop_last();
            let u = b.drop_last();
            lemma_asked_for(floating, layout, windows, (n - 1) as nat, l, t);
            lemma_asked_for(floating, layout, windows, (n - 1) as nat, l, u);
            lemma_part(host, t, a, l.len() as int);
            lemma_part(host, u, b, l.len() as int);
            lemma_same_asked(host, floating, layout, windows, (n - 1) as nat, l, t, u);
            lemma_later(host, a, l.len() as int, t.len() as int);
            lemma_later(host, b, l.len() as int, t.len() as int);
            lemma_same_requests(host, t, a, b);
        }
    }
}

/// What an update does follows from the answers.
proof fn lemma_same_update(
    host: spec_fn(Log, Req) -> Rep,
    s: State,
    l: Log,
    space: SpaceId,
    pid: i32,
    windows: Seq<(WindowId, WindowInfoView)>,
    x: State,
    a: Log,
    y: State,
    b: Log,
)
    requires
        windows_updated(s, l, space, pid, windows, x, a),
        windows_updated(s, l, space, pid, windows, y, b),
        answered_in_turn(host, a, l.len() as int),
        answered_in_turn(host, b, l.len() as int),
    ensures
        a == b,
        x == y,
        grew(l, a),
{
    let layout = s.spaces[space];
    let n = l.len() as int;
    let i = lemma_update_record(s, l, space, pid, windows, x, a);
    let j = lemma_update_record(s, l, space, pid, windows, y, b);
    lemma_same_next(host, l, a, b);
    let t0 = ask(l, a, Req::IsScrollLayout(layout));
    assert(t0 == ask(l, b, Req::IsScrollLayout(layout)));
    let t = a.take(i);
    let u = b.take(j);
    lemma_part(host, t, a, n);
    lemma_part(host, u, b, n);
    lemma_later(host, t, n, n + 1);
    lemma_later(host, u, n, n + 1);
    lemma_same_asked(host, s.floating, layout, windows, windows.len(), t0, t, u);
    assert(t.len() == i && u.len() == j);
    lemma_later(host, a, n, i);
    lemma_later(host, b, n, i);
    let scroll = a[n].rep->Flag_0;
    let p = sorted(s, space, pid, scroll, windows, windows.len(), t);
    assert(update_asked(s, layout, pid, p.tree, p.new, l, a, i));
    assert(update_asked(s, layout, pid, p.tree, p.new, l, b, i));
    assert(grew(t, a));
    assert(grew(t, b)) by {
        assert(grew(u, b));
    }
    assert forall|k: int| i <= k < a.len() implies (#[trigger] a[k]).req == b[k].req by {
        if k > i {
            assert(a[i + 1 + (k - i - 1)].req == b[i + 1 + (k - i - 1)].req);
        }
    }
    lemma_same_requests(host, t, a, b);
}

/// Telling the viewports that the user no longer scrolls them changes no layout, and is
/// the same again.
proof fn lemma_cleared_grows(s: State, l: Log, spaces: Seq<SpaceId>, l2: Log)
    requires
        all_scrolling_cleared(s, l, spaces, l2),
    ensures
        grew(l, l2),
        forall|i: int| l.len() <= i < l2.len() ==> (#[trigger] l2[i]).req is StopUserScrolling,
    decreases spaces.len(),
{
    if spaces.len() > 0 {
        let t = choose|t: Log|
            all_scrolling_cleared(s, l, spaces.drop_last(), t) && #[trigger] scrolling_cleared(
                s,
                t,
                spaces.last(),
                l2,
            );
        lemma_cleared_grows(s, l, spaces.drop_last(), t);
        assert forall|i: int| l.len() <= i < l2.len() implies (#[trigger] l2[i]).req
            is StopUserScrolling by {
            if i < t.len() {
                assert(l2[i] == t[i]);
            }
        }
    }
}

proof fn lemma_same_cleared(
    host: spec_fn(Log, Req) -> Rep,
    s: State,
    l: Log,
    spaces: Seq<SpaceId>,
    a: Log,
    b: Log,
)
    requires
        all_scrolling_cleared(s, l, spaces, a),
        all_scrolling_cleared(s, l, spaces, b),
        answered_in_turn(host, a, l.len() as int),
        answered_in_turn(host, b, l.len() as int),
    ensures
        a == b,
    decreases spaces.len(),
{
    if spaces.len() > 0 {
        let t = choose|t: Log|
            all_scrolling_cleared(s, l, spaces.drop_last(), t) && #[trigger] scrolling_cleared(
                s,
                t,
                spaces.last(),
                a,
            );
        let u = choose|t: Log|
            all_scrolling_cleared(s, l, spaces.drop_last(), t) && #[trigger] scrolling_cleared(
                s,
                t,
                spaces.last(),
                b,
            );
        lemma_cleared_grows(s, l, spaces.drop_last(), t);
        lemma_cleared_grows(s, l, spaces.drop_last(), u);
        lemma_part(host, t, a, l.len() as int);
        lemma_part(host, u, b, l.len() as int);
        lemma_same_cleared(host, s, l, spaces.drop_last(), t, u);
        lemma_later(host, a, l.len() as int, t.len() as int);
        lemma_later(host, b, l.len() as int, t.len() as int);
        lemma_same_requests(host, t, a, b);
    }
}

proof fn lemma_selected_grows(s: State, l: Log, spaces: Seq<SpaceId>, wid: WindowId, l2: Log)
    requires
        selected_in_all(s, l, spaces, wid, l2),
    ensures
        grew(l, l2),
        forall|i: int|
            l.len() <= i < l2.len() ==> (#[trigger] l2[i]).req is WindowNode
                || l2[i].req is Select,
    decreases spaces.len(),
{
    if spaces.len() > 0 {
        let t = choose|t: Log|
            selected_in_all(s, l, spaces.drop_last(), wid, t) && #[trigger] selected_in(
                s,
                t,
                spaces.last(),
                wid,
                l2,
            );
        lemma_selected_grows(s, l, spaces.drop_last(), wid, t);
        assert forall|i: int| l.len() <= i < l2.len() implies (#[trigger] l2[i]).req is WindowNode
            || l2[i].req is Select by {
            if i < t.len() {
                assert(l2[i] == t[i]);
            }
        }
    }
}

proof fn lemma_same_selected(
    host: spec_fn(Log, Req) -> Rep,
    s: State,
    l: Log,
    spaces: Seq<SpaceId>,
    wid: WindowId,
    a: Log,
    b: Log,
)
    requires
        selected_in_all(s, l, spaces, wid, a),
        selected_in_all(s, l, spaces, wid, b),
        answered_in_turn(host, a, l.len() as int),
        answered_in_turn(host, b, l.len() as int),
    ensures
        a == b,
    decreases spaces.len(),
{
    if spaces.len() > 0 {
        let t = choose|t: Log|
            selected_in_all(s, l, spaces.drop_last(), wid, t) && #[trigger] selected_in(
                s,
                t,
                spaces.last(),
                wid,
                a,
            );
        let u = choose|t: Log|
            selected_in_all(s, l, spaces.drop_last(), wid, t) && #[trigger] selected_in(
                s,
                t,
                spaces.last(),
                wid,
                b,
            );
        lemma_selected_grows(s, l, spaces.drop_last(), wid, t);
        lemma_selected_grows(s, l, spaces.drop_last(), wid, u);
        lemma_part(host, t, a, l.len() as int);
        lemma_part(host, u, b, l.len() as int);
        lemma_same_selected(host, s, l, spaces.drop_last(), wid, t, u);
        lemma_later(host, a, l.len() as int, t.len() as int);
        lemma_later(host, b, l.len() as int, t.len() as int);
        lemma_same_next(host, t, a, b);
        lemma_same_requests(host, t, a, b);
    }
}

/// What a focus does follows from the answers.
proof fn lemma_same_focused(
    host: spec_fn(Log, Req) -> Rep,
    s: State,
    l: Log,
    spaces: Seq<SpaceId>,
    wid: WindowId,
    x: State,
    a: Log,
    y: State,
    b: Log,
)
    requires
        window_focused(s, l, spaces, wid, x, a),
        window_focused(s, l, spaces, wid, y, b),
        answered_in_turn(host, a, l.len() as int),
        answered_in_turn(host, b, l.len() as int),
    ensures
        a == b,
        x == y,
{
    if !s.floating.contains(wid) {
        let t = choose|t: Log| #[trigger]
            all_scrolling_cleared(s, l, spaces, t) && selected_in_all(s, t, spaces, wid, a);
        let u = choose|t: Log| #[trigger]
            all_scrolling_cleared(s, l, spaces, t) && selected_in_all(s, t, spaces, wid, b);
        lemma_cleared_grows(s, l, spaces, t);
        lemma_cleared_grows(s, l, spaces, u);
        lemma_selected_grows(s, t, spaces, wid, a);
        lemma_selected_grows(s, u, spaces, wid, b);
        lemma_part(host, t, a, l.len() as int);
        lemma_part(host, u, b, l.len() as int);
        lemma_same_cleared(host, s, l, spaces, t, u);
        lemma_later(host, a, l.len() as int, t.len() as int);
        lemma_later(host, b, l.len() as int, t.len() as int);
        lemma_same_selected(host, s, t, spaces, wid, a, b);
    }
}

/// The layout manager hears of windows on screen, and nothing is to be raised.
proof fn lemma_update_told(
    r: Known,
    l: Log,
    space: SpaceId,
    pid: i32,
    windows: Seq<(WindowId, WindowInfoView)>,
    r2: Known,
    l2: Log,
)
    requires
        told(
            r,
            l,
            LayoutEventView::WindowsOnScreenUpdated(space, pid, windows),
            r2,
            l2,
        ),
    ensures
        r2 == (Known { layout: r2.layout, ..r }),
        windows_updated(r.layout, l, space, pid, windows, r2.layout, l2),
{
    let event = LayoutEventView::WindowsOnScreenUpdated(space, pid, windows);
    let (s, t, response) = choose|s: State, t: Log, response: Response|
        {
            &&& #[trigger] event_handled(r.layout, l, event, s, t, response)
            &&& r2 == Known { layout: s, ..r }
            &&& answered(r2, t, response, Seq::empty(), false, l2)
        };
    assert(response == nothing());
}

/// The layout manager hears of a focus, and nothing is to be raised.
proof fn lemma_focus_told(
    r: Known,
    l: Log,
    spaces: Seq<SpaceId>,
    wid: WindowId,
    r2: Known,
    l2: Log,
)
    requires
        told(r, l, LayoutEventView::WindowFocused(spaces, wid), r2, l2),
    ensures
        r2 == (Known { layout: r2.layout, ..r }),
        window_focused(r.layout, l, spaces, wid, r2.layout, l2),
{
    let event = LayoutEventView::WindowFocused(spaces, wid);
    let (s, t, response) = choose|s: State, t: Log, response: Response|
        {
            &&& #[trigger] event_handled(r.layout, l, event, s, t, response)
            &&& r2 == Known { layout: s, ..r }
            &&& answered(r2, t, response, Seq::empty(), false, l2)
        };
    assert(response == nothing());
}

pub proof fn lemma_screen_told_grows(
    r: Known,
    l: Log,
    pid: i32,
    screen: Screen,
    found: Seq<FoundView>,
    r2: Known,
    l2: Log,
    rest: Seq<FoundView>,
)
    requires
        screen_told(r, l, pid, screen, found, r2, l2, rest),
    ensures
        grew(l, l2),
        r2 == (Known { layout: r2.layout, ..r }),
{
    if let Some(space) = screen.space {
        let windows = found_in(found, space);
        lemma_update_told(r, l, space, pid, windows, r2, l2);
        let at = lemma_update_record(r.layout, l, space, pid, windows, r2.layout, l2);
    }
}

pub proof fn lemma_screens_told_grow(
    r: Known,
    l: Log,
    pid: i32,
    screens: Seq<Screen>,
    found: Seq<FoundView>,
    r2: Known,
    l2: Log,
    rest: Seq<FoundView>,
)
    requires
        screens_told(r, l, pid, screens, found, r2, l2, rest),
    ensures
        grew(l, l2),
        r2 == (Known { layout: r2.layout, ..r }),
    decreases screens.len(),
{
    if screens.len() > 0 {
        let (m, t, left) = choose|m: Known, t: Log, left: Seq<FoundView>|
            screens_told(r, l, pid, screens.drop_last(), found, m, t, left) && #[trigger] screen_told(
                m,
                t,
                pid,
                screens.last(),
                left,
                r2,
                l2,
                rest,
            );
        lemma_screens_told_grow(r, l, pid, screens.drop_last(), found, m, t, left);
        lemma_screen_told_grows(m, t, pid, screens.last(), left, r2, l2, rest);
    }
}

/// What the layout manager makes of the windows on the screens follows from the answers.
proof fn lemma_same_screens_told(
    host: spec_fn(Log, Req) -> Rep,
    r: Known,
    l: Log,
    pid: i32,
    screens: Seq<Screen>,
    found: Seq<FoundView>,
    x: Known,
    a: Log,
    p: Seq<FoundView>,
    y: Known,
    b: Log,
    q: Seq<FoundView>,
)
    requires
        screens_told(r, l, pid, screens, found, x, a, p),
        screens_told(r, l, pid, screens, found, y, b, q),
        answered_in_turn(host, a, l.len() as int),
        answered_in_turn(host, b, l.len() as int),
    ensures
        a == b,
        x == y,
        p == q,
    decreases screens.len(),
{
    if screens.len() > 0 {
        let front = screens.drop_last();
        let last = screens.last();
        let (m, t, v) = choose|m: Known, t: Log, left: Seq<FoundView>|
            screens_told(r, l, pid, screens.drop_last(), found, m, t, left) && #[trigger] screen_told(
                m,
                t,
                pid,
                screens.last(),
                left,
                x,
                a,
                p,
            );
        let (n, u, w) = choose|m: Known, t: Log, left: Seq<FoundView>|
            screens_told(r, l, pid, screens.drop_last(), found, m, t, left) && #[trigger] screen_told(
                m,
                t,
                pid,
                screens.last(),
                left,
                y,
                b,
                q,
            );
        lemma_screens_told_grow(r, l, pid, front, found, m, t, v);
        lemma_screens_told_grow(r, l, pid, front, found, n, u, w);
        lemma_screen_told_grows(m, t, pid, last, v, x, a, p);
        lemma_screen_told_grows(n, u, pid, last, w, y, b, q);
        lemma_part(host, t, a, l.len() as int);
        lemma_part(host, u, b, l.len() as int);
        lemma_same_screens_told(host, r, l, pid, front, found, m, t, v, n, u, w);
        if let Some(space) = last.space {
            let windows = found_in(v, space);
            lemma_update_told(m, t, space, pid, windows, x, a);
            lemma_update_told(m, t, space, pid, windows, y, b);
            lemma_later(host, a, l.len() as int, t.len() as int);
            lemma_later(host, b, l.len() as int, t.len() as int);
            lemma_same_update(
                host,
                m.layout,
                t,
                space,
                pid,
                windows,
                x.layout,
                a,
                y.layout,
                b,
            );
        }
    }
}

/// What becomes of an application's list of windows follows from the windows that are new
/// to the reactor and from what the host answers: which of the windows known before the
/// application names makes no difference, to the state or to what is asked. `host` says
/// how a request is answered after all that was asked before it.
pub proof fn law_known_windows_make_no_difference(
    r: Known,
    l: Log,
    pid: i32,
    new: Seq<(WindowId, WindowInfo)>,
    x: Known,
    a: Log,
    y: Known,
    b: Log,
    host: spec_fn(Log, Req) -> Rep,
)
    requires
        discovered(r, l, pid, new, x, a),
        discovered(r, l, pid, new, y, b),
        answered_in_turn(host, a, l.len() as int),
        answered_in_turn(host, b, l.len() as int),
    ensures
        x == y,
        a == b,
{
    let noted = windows_noted(r, new);
    let n = l.len() as int;
    let (t, p) = choose|t: Log, found: Seq<FoundView>| #[trigger]
        windows_found(noted, l, pid, noted.visible, t, found) && findings_told(
            noted,
            t,
            pid,
            found,
            x,
            a,
        );
    let (u, q) = choose|t: Log, found: Seq<FoundView>| #[trigger]
        windows_found(noted, l, pid, noted.visible, t, found) && findings_told(
            noted,
            t,
            pid,
            found,
            y,
            b,
        );
    let (m, t1, v) = choose|m: Known, t1: Log, rest: Seq<FoundView>| #[trigger]
        screens_told(noted, t, pid, noted.screens, p, m, t1, rest) && main_told(
            m,
            t1,
            has_main(m, pid),
            x,
            a,
        );
    let (o, u1, w) = choose|m: Known, t1: Log, rest: Seq<FoundView>| #[trigger]
        screens_told(noted, u, pid, noted.screens, q, m, t1, rest) && main_told(
            m,
            t1,
            has_main(m, pid),
            y,
            b,
        );
    lemma_found_grows(noted, l, pid, noted.visible, t, p);
    lemma_found_grows(noted, l, pid, noted.visible, u, q);
    lemma_screens_told_grow(noted, t, pid, noted.screens, p, m, t1, v);
    lemma_screens_told_grow(noted, u, pid, noted.screens, q, o, u1, w);
    lemma_main_told_grows(m, t1, has_main(m, pid), x, a);
    lemma_main_told_grows(o, u1, has_main(o, pid), y, b);
    lemma_part(host, t1, a, n);
    lemma_part(host, u1, b, n);
    lemma_part(host, t, t1, n);
    lemma_part(host, u, u1, n);
    lemma_same_found(host, noted, l, pid, noted.visible, t, p, u, q);
    lemma_later(host, t1, n, t.len() as int);
    lemma_later(host, u1, n, t.len() as int);
    lemma_same_screens_told(host, noted, t, pid, noted.screens, p, m, t1, v, o, u1, w);
    lemma_later(host, a, n, t1.len() as int);
    lemma_later(host, b, n, t1.len() as int);
    if has_main(m, pid) {
        let wid = m.main->0;
        let spaces = spaces_of(m.screens);
        lemma_focus_told(m, t1, spaces, wid, x, a);
        lemma_focus_told(m, t1, spaces, wid, y, b);
        lemma_same_focused(host, m.layout, t1, spaces, wid, x.layout, a, y.layout, b);
    }
}

pub proof fn lemma_main_told_grows(r: Known, l: Log, wanted: bool, r2: Known, l2: Log)
    requires
        main_told(r, l, wanted, r2, l2),
    ensures
        grew(l, l2),
        r2.layout.spaces == r.layout.spaces,
        forall|i: int|
            l.len() <= i < l2.len() ==> (#[trigger] l2[i]).req is WindowNode || l2[i].req is Select
                || l2[i].req is StopUserScrolling,
{
    if r.main is Some && wanted {
        let wid = r.main->0;
        let spaces = spaces_of(r.screens);
        let s = r.layout;
        lemma_focus_told(r, l, spaces, wid, r2, l2);
        if !s.floating.contains(wid) {
            let t = choose|t: Log| #[trigger]
                all_scrolling_cleared(s, l, spaces, t) && selected_in_all(s, t, spaces, wid, l2);
            lemma_cleared_grows(s, l, spaces, t);
            lemma_selected_grows(s, t, spaces, wid, l2);
            assert forall|i: int| l.len() <= i < l2.len() implies (#[trigger] l2[i]).req
                is WindowNode || l2[i].req is Select || l2[i].req is StopUserScrolling by {
                if i < t.len() {
                    assert(l2[i] == t[i]);
                }
            }
        }
    }
}

/// From place `from` on, frames lie on screens as `areas` says.
pub open spec fn areas_are(areas: spec_fn(Frame, Frame) -> i64, log: Log, from: int) -> bool {
    forall|i: int|
        from <= i < log.len() && (#[trigger] log[i]).req is OverlapArea ==> log[i].rep->Area_0
            == areas(log[i].req->OverlapArea_0, log[i].req->OverlapArea_1)
}

/// Screen `k` has most of a frame. Of several, it is the last.
pub open spec fn most_on(
    areas: spec_fn(Frame, Frame) -> i64,
    screens: Seq<Screen>,
    frame: Frame,
    k: int,
) -> bool {
    &&& 0 <= k < screens.len()
    &&& forall|i: int|
        0 <= i < screens.len() && i != k ==> areas((#[trigger] screens[i]).frame, frame) < areas(
            screens[k].frame,
            frame,
        ) || i < k && areas(screens[i].frame, frame) == areas(screens[k].frame, frame)
}

/// No two screens show the same space or the same layout.
pub open spec fn screens_apart(r: Known) -> bool {
    forall|i: int, j: int|
        0 <= i < r.screens.len() && 0 <= j < r.screens.len() && i != j && (
        #[trigger] r.screens[i]).space is Some && (#[trigger] r.screens[j]).space is Some
            ==> r.screens[i].space != r.screens[j].space
            && r.layout.spaces[r.screens[i].space->0] != r.layout.spaces[r.screens[j].space->0]
}

/// The layouts that the screens show are in the tree.
pub open spec fn screens_in_tree(
    screens: Seq<Screen>,
    spaces: Map<SpaceId, LayoutId>,
    tree: Tree,
) -> bool {
    forall|i: int|
        0 <= i < screens.len() && (#[trigger] screens[i]).space is Some ==> tree.tiled.contains_key(
            spaces[screens[i].space->0],
        )
}

/// The best space of a frame, by the areas.
proof fn lemma_best_space_is(
    l: Log,
    screens: Seq<Screen>,
    frame: Frame,
    l2: Log,
    space: Option<SpaceId>,
    whole: Log,
    areas: spec_fn(Frame, Frame) -> i64,
    k: int,
)
    requires
        best_space(l, screens, frame, l2, space),
        grew(l2, whole),
        areas_are(areas, whole, l.len() as int),
        most_on(areas, screens, frame, k),
    ensures
        space == screens[k].space,
{
    let n = l.len() as int;
    let best = choose|best: Option<usize>| #[trigger]
        best_screen(l, screens, frame, l2, best) && space == match best {
            Some(idx) => screens[idx as int].space,
            None => None,
        };
    let reqs = area_questions(screens, frame);
    assert forall|i: int| 0 <= i < screens.len() implies #[trigger] area_on(l2, n, i) == areas(
        screens[i].frame,
        frame,
    ) by {
        assert(whole[n + i] == l2[n + i]);
        assert(l2[n + i].req == reqs[i]);
    }
    let idx = best->0 as int;
    if idx != k {
        assert(area_on(l2, n, k) < area_on(l2, n, idx) || k < idx && area_on(l2, n, k) == area_on(
            l2,
            n,
            idx,
        ));
        assert(area_on(l2, n, idx) == areas(screens[idx].frame, frame));
    }
}

/// What is found: windows of the application only, and `wid`, if at all, in one space
/// only.
spec fn found_there(found: Seq<FoundView>, pid: i32, wid: WindowId, space: SpaceId) -> bool {
    forall|i: int|
        0 <= i < found.len() ==> (#[trigger] found[i]).wid.pid == pid && (found[i].wid == wid
            ==> found[i].space == space)
}

/// `wid` is found.
spec fn is_found(found: Seq<FoundView>, wid: WindowId) -> bool {
    exists|i: int| 0 <= i < found.len() && (#[trigger] found[i]).wid == wid
}

proof fn lemma_found_there(
    r: Known,
    l: Log,
    pid: i32,
    visible: Seq<WindowServerId>,
    l2: Log,
    found: Seq<FoundView>,
    whole: Log,
    areas: spec_fn(Frame, Frame) -> i64,
    wid: WindowId,
    k: int,
)
    requires
        windows_found(r, l, pid, visible, l2, found),
        grew(l2, whole),
        areas_are(areas, whole, l.len() as int),
        r.windows.contains_key(wid),
        most_on(areas, r.screens, r.windows[wid].frame_monotonic, k),
        r.screens[k].space is Some,
    ensures
        found_there(found, pid, wid, r.screens[k].space->0),
        (exists|i: int|
            0 <= i < visible.len() && window_of_app(r, pid, #[trigger] visible[i]) == Some(wid))
            ==> is_found(found, wid),
    decreases visible.len(),
{
    if visible.len() > 0 {
        let front = visible.drop_last();
        let last = visible.last();
        let (t, before) = choose|t: Log, before: Seq<FoundView>|
            windows_found(r, l, pid, visible.drop_last(), t, before) && #[trigger] found_step(
                r,
                t,
                pid,
                before,
                visible.last(),
                l2,
                found,
            );
        lemma_found_grows(r, l, pid, front, t, before);
        lemma_found_step_grows(r, t, pid, before, last, l2, found);
        assert(grew(t, whole));
        lemma_found_there(r, l, pid, front, t, before, whole, areas, wid, k);
        if let Some(w) = window_of_app(r, pid, last) {
            let frame = r.windows[w].frame_monotonic;
            let info = layout_info(r, app_of(r, pid), r.windows[w]);
            let space = choose|space: Option<SpaceId>|
                {
                    &&& #[trigger] best_space(t, r.screens, frame, l2, space)
                    &&& found == match space {
                        Some(space) => before.push(FoundView { space, wid: w, info }),
                        None => before,
                    }
                };
            if w == wid {
                lemma_best_space_is(t, r.screens, frame, l2, space, whole, areas, k);
                assert(found[before.len() as int].wid == wid);
            }
        }
        if is_found(before, wid) {
            let i = choose|i: int| 0 <= i < before.len() && (#[trigger] before[i]).wid == wid;
            assert(found[i].wid == wid);
        }
        if exists|i: int|
            0 <= i < visible.len() && window_of_app(r, pid, #[trigger] visible[i]) == Some(wid) {
            let i = choose|i: int|
                0 <= i < visible.len() && window_of_app(r, pid, #[trigger] visible[i]) == Some(wid);
            if i < front.len() {
                assert(front[i] == visible[i]);
            }
        }
    }
}

/// What is left of the found windows after one space has been told.
proof fn lemma_rest(found: Seq<FoundView>, pid: i32, wid: WindowId, home: SpaceId, space: SpaceId)
    requires
        found_there(found, pid, wid, home),
    ensures
        found_there(found_elsewhere(found, space), pid, wid, home),
        space != home && is_found(found, wid) ==> is_found(found_elsewhere(found, space), wid),
        all_of_app(found_in(found, space), pid),
        wids_of(found_in(found, space)).contains(wid) <==> space == home && is_found(found, wid),
{
    let there = |f: FoundView| f.space != space;
    let here = |f: FoundView| f.space == space;
    let rest = found_elsewhere(found, space);
    let kept = found.filter(here);
    let windows = found_in(found, space);
    assert forall|i: int| 0 <= i < rest.len() implies (#[trigger] rest[i]).wid.pid == pid && (
    rest[i].wid == wid ==> rest[i].space == home) by {
        assert(rest.contains(rest[i]));
        lemma_filtered(found, there, rest[i]);
        let j = choose|j: int| 0 <= j < found.len() && found[j] == rest[i];
    }
    if is_found(found, wid) {
        let i = choose|i: int| 0 <= i < found.len() && (#[trigger] found[i]).wid == wid;
        assert(found.contains(found[i]));
        lemma_filtered(found, there, found[i]);
        lemma_filtered(found, here, found[i]);
        if space != home {
            let j = choose|j: int| 0 <= j < rest.len() && rest[j] == found[i];
            assert(rest[j].wid == wid);
        } else {
            let j = choose|j: int| 0 <= j < kept.len() && kept[j] == found[i];
            assert(windows[j].0 == wid);
            assert(wids_of(windows)[j] == wid);
        }
    }
    assert forall|i: int| 0 <= i < windows.len() implies (#[trigger] windows[i]).0.pid == pid by {
        assert(kept.contains(kept[i]));
        lemma_filtered(found, here, kept[i]);
        let j = choose|j: int| 0 <= j < found.len() && found[j] == kept[i];
    }
    if wids_of(windows).contains(wid) {
        let i = choose|i: int| 0 <= i < windows.len() && wids_of(windows)[i] == wid;
        assert(kept.contains(kept[i]));
        lemma_filtered(found, here, kept[i]);
        let j = choose|j: int| 0 <= j < found.len() && found[j] == kept[i];
        assert(found[j].wid == wid);
    }
}

/// A window that is found where it is tiled stays there while the screens are told.
proof fn lemma_told_stays(
    r: Known,
    l: Log,
    pid: i32,
    n: nat,
    found: Seq<FoundView>,
    r2: Known,
    l2: Log,
    rest: Seq<FoundView>,
    whole: Log,
    trees: Seq<Tree>,
    wid: WindowId,
    k: int,
)
    requires
        n <= r.screens.len(),
        screens_told(r, l, pid, r.screens.take(n as int), found, r2, l2, rest),
        grew(l2, whole),
        is_tree(trees, whole, l.len() as int),
        0 <= k < r.screens.len(),
        r.screens[k].space is Some,
        screens_apart(r),
        screens_in_tree(r.screens, r.layout.spaces, trees[l.len() as int]),
        found_there(found, pid, wid, r.screens[k].space->0),
        is_found(found, wid),
        wid.pid == pid,
        !r.layout.floating.contains(wid),
        trees[l.len() as int].tiled[r.layout.spaces[r.screens[k].space->0]].contains(wid),
    ensures
        r2 == (Known { layout: r2.layout, ..r }),
        r2.layout.spaces == r.layout.spaces,
        screens_in_tree(r.screens, r.layout.spaces, trees[l2.len() as int]),
        found_there(rest, pid, wid, r.screens[k].space->0),
        k >= n ==> is_found(rest, wid) && !r2.layout.floating.contains(wid),
        trees[l2.len() as int].tiled[r.layout.spaces[r.screens[k].space->0]].contains(wid),
    decreases n,
{
    if n > 0 {
        let screens = r.screens.take(n as int);
        let front = r.screens.take(n - 1);
        assert(screens.drop_last() =~= front);
        let last = screens.last();
        assert(last == r.screens[n - 1]);
        let (m, t, left) = choose|m: Known, t: Log, left: Seq<FoundView>|
            screens_told(r, l, pid, screens.drop_last(), found, m, t, left) && #[trigger] screen_told(
                m,
                t,
                pid,
                screens.last(),
                left,
                r2,
                l2,
                rest,
            );
        lemma_screens_told_grow(r, l, pid, front, found, m, t, left);
        lemma_screen_told_grows(m, t, pid, last, left, r2, l2, rest);
        assert(grew(t, whole));
        lemma_told_stays(
            r,
            l,
            pid,
            (n - 1) as nat,
            found,
            m,
            t,
            left,
            whole,
            trees,
            wid,
            k,
        );
        if let Some(space) = last.space {
            let home = r.screens[k].space->0;
            let windows = found_in(left, space);
            lemma_rest(left, pid, wid, home, space);
            lemma_update_told(m, t, space, pid, windows, r2, l2);
            lemma_update_tiles(
                m.layout,
                t,
                space,
                pid,
                windows,
                r2.layout,
                l2,
                whole,
                trees,
            );
            let a = trees[t.len() as int];
            let b = trees[l2.len() as int];
            let layout = r.layout.spaces[space];
            let there = r.layout.spaces[home];
            if n - 1 == k {
                assert(space == home);
                assert(tiled_after(m.layout, windows, a.tiled[layout], wid));
                assert(b.tiled[layout].contains(wid));
            } else {
                assert(space != home && layout != there) by {
                    assert(r.screens[n - 1].space is Some && r.screens[k].space is Some);
                }
                assert(b.tiled[there] == a.tiled[there]);
            }
        }
    }
}

/// Asking how much of frames lies on screens, and giving a window the focus, leaves the
/// layouts as they are.
proof fn lemma_tiles_stay(whole: Log, trees: Seq<Tree>, from: int, to: int)
    requires
        0 <= from <= to <= whole.len(),
        is_tree(trees, whole, from),
        forall|j: int|
            from <= j < to ==> (#[trigger] whole[j]).req is OverlapArea || whole[j].req is WindowNode
                || whole[j].req is Select || whole[j].req is StopUserScrolling,
    ensures
        trees[to].tiled == trees[from].tiled,
    decreases to - from,
{
    if to > from {
        lemma_tiles_stay(whole, trees, from, to - 1);
        assert(acts_as_tree(trees[to - 1], whole[to - 1], trees[to]));
    }
}

/// A window that the window server has on screen stays tiled where it is, whatever its
/// application says or leaves unsaid. The window is one of the application's, does not
/// float, and has most of its frame on the screen whose space tiles it. `areas` is how
/// much of a frame lies on a screen.
pub proof fn law_visible_window_stays_tiled(
    r: Known,
    l: Log,
    pid: i32,
    new: Seq<(WindowId, WindowInfo)>,
    r2: Known,
    l2: Log,
    trees: Seq<Tree>,
    areas: spec_fn(Frame, Frame) -> i64,
    wid: WindowId,
    wsid: WindowServerId,
    k: int,
)
    requires
        discovered(r, l, pid, new, r2, l2),
        is_tree(trees, l2, l.len() as int),
        areas_are(areas, l2, l.len() as int),
        screens_apart(r),
        screens_in_tree(r.screens, r.layout.spaces, trees[l.len() as int]),
        r.visible.contains(wsid),
        window_of_app(windows_noted(r, new), pid, wsid) == Some(wid),
        most_on(areas, r.screens, windows_noted(r, new).windows[wid].frame_monotonic, k),
        r.screens[k].space is Some,
        !r.layout.floating.contains(wid),
        trees[l.len() as int].tiled[r.layout.spaces[r.screens[k].space->0]].contains(wid),
    ensures
        r2.layout.spaces == r.layout.spaces,
        trees[l2.len() as int].tiled[r2.layout.spaces[r.screens[k].space->0]].contains(wid),
{
    let noted = windows_noted(r, new);
    lemma_noted_only_windows(r, new);
    let (t, found) = choose|t: Log, found: Seq<FoundView>| #[trigger]
        windows_found(noted, l, pid, noted.visible, t, found) && findings_told(
            noted,
            t,
            pid,
            found,
            r2,
            l2,
        );
    let (m, t1, rest) = choose|m: Known, t1: Log, rest: Seq<FoundView>| #[trigger]
        screens_told(noted, t, pid, noted.screens, found, m, t1, rest) && main_told(
            m,
            t1,
            has_main(m, pid),
            r2,
            l2,
        );
    lemma_found_grows(noted, l, pid, noted.visible, t, found);
    lemma_screens_told_grow(noted, t, pid, noted.screens, found, m, t1, rest);
    lemma_main_told_grows(m, t1, has_main(m, pid), r2, l2);
    assert(grew(t, l2));
    let i = choose|i: int| 0 <= i < r.visible.len() && r.visible[i] == wsid;
    assert(window_of_app(noted, pid, noted.visible[i]) == Some(wid));
    lemma_found_there(noted, l, pid, noted.visible, t, found, l2, areas, wid, k);
    lemma_tiles_stay_until(l, t, l2, trees);
    let n = noted.screens.len();
    assert(noted.screens.take(n as int) =~= noted.screens);
    lemma_told_stays(noted, t, pid, n, found, m, t1, rest, l2, trees, wid, k);
    lemma_tiles_stay(l2, trees, t1.len() as int, l2.len() as int);
}

proof fn lemma_tiles_stay_until(l: Log, t: Log, l2: Log, trees: Seq<Tree>)
    requires
        grew(l, t),
        grew(t, l2),
        is_tree(trees, l2, l.len() as int),
        forall|i: int| l.len() <= i < t.len() ==> (#[trigger] t[i]).req is OverlapArea,
    ensures
        trees[t.len() as int].tiled == trees[l.len() as int].tiled,
{
    assert forall|j: int| l.len() <= j < t.len() implies (#[trigger] l2[j]).req is OverlapArea by {
        assert(l2[j] == t[j]);
    }
    lemma_tiles_stay(l2, trees, l.len() as int, t.len() as int);
}

/// Windows that are noted change nothing but what is known of windows.
pub proof fn lemma_noted_only_windows(r: Known, new: Seq<(WindowId, WindowInfo)>)
    ensures
        ({
            let noted = windows_noted(r, new);
            noted == Known { windows: noted.windows, window_ids: noted.window_ids, ..r }
        }),
    decreases new.len(),
{
    if new.len() > 0 {
        lemma_noted_only_windows(r, new.drop_last());
    }
}

} // verus!
