//! What finding the windows of applications is for.
//!
//! `reply` is how the host answers while an event is handled.

use vstd::prelude::*;

use crate::deeds::lemma_reply_part;
use crate::ids::{SpaceId, WindowId, WindowServerId};
use crate::layout::events::{
    asked_for, event_handled, last_float_kept, scroll_additions, sorted, LayoutEventView,
};
use crate::layout::floating::floats_added;
use crate::layout::state::State;
use crate::layout::update_laws::{lemma_filtered, lemma_floats_added};
use crate::link::{answer, answered_by, ask, ask_each, grew, Log, Rep, Req};
use crate::reactor::discovery::{
    app_of, discovered, findings_told, found_in, found_step, has_main, layout_info, main_told,
    screen_told, screens_told, window_of_app, windows_found, windows_noted, FoundView,
};
use crate::reactor::discovery_laws::{
    lemma_found_grows, lemma_found_step_grows, lemma_main_told_grows, lemma_noted_only_windows,
    lemma_screen_told_grows, lemma_screens_told_grow,
};
use crate::reactor::event::{Event, WindowInfo};
use crate::reactor::event_laws::described;
use crate::reactor::frame_laws::lemma_told_quietly;
use crate::reactor::handler::event_taken;
use crate::reactor::outcome::Outcome;
use crate::reactor::raise_laws::{lemma_is_home, lemma_one_home, window_at_home};
use crate::reactor::screens::best_space;
use crate::reactor::state::{spaces_of, AppState, Known, Screen};
use crate::response::nothing;
use crate::window_class::WindowInfoView;

verus! {

/// Whether a number of the window server is that of a known window of an application, which is
/// found in a space with its description.
pub open spec fn is_found_as(
    reply: spec_fn(Req) -> Rep,
    r: Known,
    pid: i32,
    id: WindowServerId,
    space: SpaceId,
    wid: WindowId,
    info: WindowInfoView,
) -> bool {
    &&& r.window_ids.contains_key(id)
    &&& r.window_ids[id] == wid
    &&& wid.pid == pid
    &&& r.windows.contains_key(wid)
    &&& info == described(r, wid)
    &&& window_at_home(reply, r, wid, Some(space))
}

/// Whether some number of a list is that of such a window.
pub open spec fn is_found_among(
    reply: spec_fn(Req) -> Rep,
    r: Known,
    pid: i32,
    visible: Seq<WindowServerId>,
    space: SpaceId,
    wid: WindowId,
    info: WindowInfoView,
) -> bool {
    exists|i: int|
        0 <= i < visible.len() && is_found_as(
            reply,
            r,
            pid,
            #[trigger] visible[i],
            space,
            wid,
            info,
        )
}

proof fn lemma_found(
    r: Known,
    l: Log,
    pid: i32,
    visible: Seq<WindowServerId>,
    l2: Log,
    found: Seq<FoundView>,
    reply: spec_fn(Req) -> Rep,
    from: int,
)
    requires
        windows_found(r, l, pid, visible, l2, found),
        answered_by(reply, l2, from),
        0 <= from <= l.len(),
    ensures
        forall|f: FoundView| #[trigger]
            found.contains(f) <==> is_found_among(
                reply,
                r,
                pid,
                visible,
                f.space,
                f.wid,
                f.info,
            ),
    decreases visible.len(),
{
    if visible.len() > 0 {
        let front = visible.drop_last();
        let id = visible.last();
        let (t, before) = choose|t: Log, before: Seq<FoundView>|
            windows_found(r, l, pid, front, t, before) && #[trigger] found_step(
                r,
                t,
                pid,
                before,
                id,
                l2,
                found,
            );
        lemma_found_grows(r, l, pid, front, t, before);
        lemma_found_step_grows(r, t, pid, before, id, l2, found);
        lemma_reply_part(reply, t, l2, from);
        lemma_found(r, l, pid, front, t, before, reply, from);
        assert(visible[visible.len() - 1] == id);
        assert forall|f: FoundView| #[trigger]
            found.contains(f) <==> is_found_among(
                reply,
                r,
                pid,
                visible,
                f.space,
                f.wid,
                f.info,
            ) by {
            if before.contains(f) {
                let i = choose|i: int|
                    0 <= i < front.len() && is_found_as(
                        reply,
                        r,
                        pid,
                        #[trigger] front[i],
                        f.space,
                        f.wid,
                        f.info,
                    );
                assert(visible[i] == front[i]);
            }
            if is_found_among(reply, r, pid, visible, f.space, f.wid, f.info) {
                let i = choose|i: int|
                    0 <= i < visible.len() && is_found_as(
                        reply,
                        r,
                        pid,
                        #[trigger] visible[i],
                        f.space,
                        f.wid,
                        f.info,
                    );
                if i < front.len() {
                    assert(front[i] == visible[i]);
                    assert(before.contains(f));
                }
            }
            match window_of_app(r, pid, id) {
                None => {},
                Some(wid) => {
                    let window = r.windows[wid];
                    let space = choose|space: Option<SpaceId>|
                        {
                            &&& #[trigger] best_space(
                                t,
                                r.screens,
                                window.frame_monotonic,
                                l2,
                                space,
                            )
                            &&& found == match space {
                                Some(space) => before.push(
                                    FoundView {
                                        space,
                                        wid,
                                        info: layout_info(
                                            r,
                                            app_of(r, pid),
                                            window,
                                        ),
                                    },
                                ),
                                None => before,
                            }
                        };
                    lemma_is_home(
                        t,
                        r.screens,
                        window.frame_monotonic,
                        l2,
                        space,
                        reply,
                        from,
                    );
                    if let Some(here) = space {
                        let one = FoundView { space: here, wid, info: described(r, wid) };
                        assert(found == before.push(one));
                        assert(found[before.len() as int] == one);
                        assert(is_found_as(reply, r, pid, id, here, wid, described(r, wid)));
                        if before.contains(f) {
                            let k = choose|k: int| 0 <= k < before.len() && before[k] == f;
                            assert(found[k] == f);
                        }
                        if found.contains(f) && f != one {
                            let k = choose|k: int| 0 <= k < found.len() && found[k] == f;
                            assert(before[k] == f);
                        }
                    }
                    if is_found_as(reply, r, pid, id, f.space, f.wid, f.info) {
                        lemma_one_home(
                            reply,
                            r.screens,
                            window.frame_monotonic,
                            space,
                            Some(f.space),
                        );
                    }
                },
            }
        }
    }
}

/// Whether a space is on one of the screens.
pub open spec fn is_on(screens: Seq<Screen>, space: SpaceId) -> bool {
    exists|i: int| 0 <= i < screens.len() && (#[trigger] screens[i]).space == Some(space)
}

/// The layout manager was told, and it is on record, that exactly the windows for which
/// `listed` holds, with their descriptions, are on screen in a space.
pub open spec fn update_told(
    l: Log,
    space: SpaceId,
    pid: i32,
    listed: spec_fn(WindowId, WindowInfoView) -> bool,
    l2: Log,
) -> bool {
    exists|
        a: State,
        ta: Log,
        list: Seq<(WindowId, WindowInfoView)>,
        b: State,
        tb: Log,
    |
        {
            &&& #[trigger] event_handled(
                a,
                ta,
                LayoutEventView::WindowsOnScreenUpdated(space, pid, list),
                b,
                tb,
                nothing(),
            )
            &&& grew(l, ta)
            &&& grew(tb, l2)
            &&& forall|wid: WindowId, info: WindowInfoView|
                list.contains((wid, info)) <==> #[trigger] listed(wid, info)
        }
}

proof fn lemma_found_in(found: Seq<FoundView>, space: SpaceId, wid: WindowId, info: WindowInfoView)
    ensures
        found_in(found, space).contains((wid, info)) <==> found.contains(
            FoundView { space, wid, info },
        ),
{
    let here = |f: FoundView| f.space == space;
    let kept = found.filter(here);
    let list = found_in(found, space);
    let one = FoundView { space, wid, info };
    if list.contains((wid, info)) {
        let k = choose|k: int| 0 <= k < list.len() && list[k] == (wid, info);
        assert(kept.contains(kept[k]));
        lemma_filtered(found, here, kept[k]);
        assert(kept[k] == one);
    }
    if found.contains(one) {
        lemma_filtered(found, here, one);
        let k = choose|k: int| 0 <= k < kept.len() && kept[k] == one;
        assert(list[k] == (wid, info));
    }
}

/// Every space on screen hears of what was found there.
#[verifier::rlimit(60)]
proof fn lemma_screens_told(
    r: Known,
    l: Log,
    pid: i32,
    screens: Seq<Screen>,
    found: Seq<FoundView>,
    r2: Known,
    l2: Log,
    rest: Seq<FoundView>,
    space: SpaceId,
)
    requires
        screens_told(r, l, pid, screens, found, r2, l2, rest),
    ensures
        forall|f: FoundView| #[trigger]
            rest.contains(f) <==> found.contains(f) && !is_on(screens, f.space),
        is_on(screens, space) ==> update_told(
            l,
            space,
            pid,
            |wid: WindowId, info: WindowInfoView|
                found.contains(FoundView { space, wid, info }),
            l2,
        ),
    decreases screens.len(),
{
    if screens.len() > 0 {
        let front = screens.drop_last();
        let last = screens.last();
        let listed = |wid: WindowId, info: WindowInfoView|
            found.contains(FoundView { space, wid, info });
        let (m, t, left) = choose|m: Known, t: Log, left: Seq<FoundView>|
            screens_told(r, l, pid, front, found, m, t, left) && #[trigger] screen_told(
                m,
                t,
                pid,
                last,
                left,
                r2,
                l2,
                rest,
            );
        lemma_screens_told_grow(r, l, pid, front, found, m, t, left);
        lemma_screen_told_grows(m, t, pid, last, left, r2, l2, rest);
        lemma_screens_told(r, l, pid, front, found, m, t, left, space);
        assert(screens[screens.len() - 1] == last);
        assert forall|other: SpaceId| #[trigger] is_on(screens, other) <==> is_on(front, other)
            || last.space == Some(other) by {
            if is_on(front, other) {
                let i = choose|i: int|
                    0 <= i < front.len() && (#[trigger] front[i]).space == Some(other);
                assert(screens[i].space == Some(other));
            }
            if is_on(screens, other) {
                let i = choose|i: int|
                    0 <= i < screens.len() && (#[trigger] screens[i]).space == Some(other);
                if i < front.len() {
                    assert(front[i].space == Some(other));
                }
            }
        }
        if let Some(here) = last.space {
            assert forall|f: FoundView| #[trigger]
                rest.contains(f) <==> left.contains(f) && f.space != here by {
                lemma_filtered(left, |f: FoundView| f.space != here, f);
            }
        }
        if is_on(front, space) {
            let (a, ta, list, b, tb) = choose|
                a: State,
                ta: Log,
                list: Seq<(WindowId, WindowInfoView)>,
                b: State,
                tb: Log,
            |
                {
                    &&& #[trigger] event_handled(
                        a,
                        ta,
                        LayoutEventView::WindowsOnScreenUpdated(space, pid, list),
                        b,
                        tb,
                        nothing(),
                    )
                    &&& grew(l, ta)
                    &&& grew(tb, t)
                    &&& forall|wid: WindowId, info: WindowInfoView|
                        list.contains((wid, info)) <==> #[trigger] listed(wid, info)
                };
            assert(grew(tb, l2));
            assert(update_told(l, space, pid, listed, l2));
        } else if last.space == Some(space) {
            let list = found_in(left, space);
            let event = LayoutEventView::WindowsOnScreenUpdated(space, pid, list);
            lemma_told_quietly(m, t, event, r2, l2);
            assert forall|wid: WindowId, info: WindowInfoView|
                list.contains((wid, info)) <==> #[trigger] listed(wid, info) by {
                lemma_found_in(left, space, wid, info);
                let one = FoundView { space, wid, info };
                assert(left.contains(one) <==> found.contains(one) && !is_on(front, one.space));
            }
            assert(event_handled(m.layout, t, event, r2.layout, l2, nothing()));
            assert(update_told(l, space, pid, listed, l2));
        }
    } else {
        assert forall|f: FoundView| !is_on(screens, #[trigger] f.space) by {}
    }
}

/// Hearing what was found leaves the focus where it is.
proof fn lemma_screens_told_keep_focus(
    r: Known,
    l: Log,
    pid: i32,
    screens: Seq<Screen>,
    found: Seq<FoundView>,
    r2: Known,
    l2: Log,
    rest: Seq<FoundView>,
)
    requires
        screens_told(r, l, pid, screens, found, r2, l2, rest),
    ensures
        r2 == (Known { layout: r2.layout, ..r }),
        r2.layout.focused == r.layout.focused,
    decreases screens.len(),
{
    if screens.len() > 0 {
        let front = screens.drop_last();
        let last = screens.last();
        let (m, t, left) = choose|m: Known, t: Log, left: Seq<FoundView>|
            screens_told(r, l, pid, front, found, m, t, left) && #[trigger] screen_told(
                m,
                t,
                pid,
                last,
                left,
                r2,
                l2,
                rest,
            );
        lemma_screens_told_keep_focus(r, l, pid, front, found, m, t, left);
        if let Some(space) = last.space {
            let list = found_in(left, space);
            let event = LayoutEventView::WindowsOnScreenUpdated(space, pid, list);
            lemma_told_quietly(m, t, event, r2, l2);
            let s = m.layout;
            let t0 = ask(t, l2, Req::IsScrollLayout(s.spaces[space]));
            let scroll = answer(t0)->Flag_0;
            let t1 = choose|t1: Log|
                {
                    let p = sorted(s, space, pid, scroll, list, list.len(), t1);
                    let t2 = ask(t1, l2, Req::SetWindowsForApp(s.spaces[space], pid, p.tree));
                    let s1 = State {
                        active_floating: p.active,
                        last_floating: last_float_kept(s.last_floating, pid, list),
                        ..s
                    };
                    &&& #[trigger] asked_for(
                        s.floating,
                        s.spaces[space],
                        list,
                        list.len(),
                        t0,
                        t1,
                    )
                    &&& l2 == ask_each(t2, l2, scroll_additions(s, s.spaces[space], p.new))
                    &&& r2.layout == floats_added(s1, p.floats, space)
                };
            let p = sorted(s, space, pid, scroll, list, list.len(), t1);
            let s1 = State {
                active_floating: p.active,
                last_floating: last_float_kept(s.last_floating, pid, list),
                ..s
            };
            lemma_floats_added(s1, p.floats, space);
        }
    }
}

/// What an application says of its windows moves the focus of the layout manager to the main
/// window, if that is a window of this application, and nowhere else.
pub proof fn law_focus_waits_for_its_application(
    r: Known,
    l: Log,
    pid: i32,
    new: Seq<(WindowId, WindowInfo)>,
    r2: Known,
    l2: Log,
)
    requires
        discovered(r, l, pid, new, r2, l2),
    ensures
        r2.layout.focused == match r.main {
            Some(wid) if wid.pid == pid => Some(wid),
            _ => r.layout.focused,
        },
{
    let known = windows_noted(r, new);
    lemma_noted_only_windows(r, new);
    let (t, found) = choose|t: Log, found: Seq<FoundView>| #[trigger]
        windows_found(known, l, pid, known.visible, t, found) && findings_told(
            known,
            t,
            pid,
            found,
            r2,
            l2,
        );
    let (m, t1, rest) = choose|m: Known, t1: Log, rest: Seq<FoundView>| #[trigger]
        screens_told(known, t, pid, known.screens, found, m, t1, rest) && main_told(
            m,
            t1,
            has_main(m, pid),
            r2,
            l2,
        );
    lemma_screens_told_keep_focus(known, t, pid, known.screens, found, m, t1, rest);
    if has_main(m, pid) {
        lemma_told_quietly(
            m,
            t1,
            LayoutEventView::WindowFocused(spaces_of(m.screens), m.main->0),
            r2,
            l2,
        );
    }
}

/// What an application says of its windows makes the new ones known, and every space on a
/// screen hears which windows of the application are on screen there: those, and no others,
/// that the window server shows, that are known as windows of that application, and that lie
/// in that space; each with its description. Where the main window is the application's, it
/// has the focus for the layout manager.
#[verifier::rlimit(60)]
pub proof fn law_windows_are_found_in_their_spaces(
    r: Known,
    l: Log,
    pid: i32,
    new: Seq<(WindowId, WindowInfo)>,
    r2: Known,
    l2: Log,
    space: SpaceId,
    reply: spec_fn(Req) -> Rep,
)
    requires
        discovered(r, l, pid, new, r2, l2),
        answered_by(reply, l2, l.len() as int),
        is_on(r.screens, space),
    ensures
        ({
            let known = windows_noted(r, new);
            &&& r2 == Known { layout: r2.layout, ..known }
            &&& update_told(
                l,
                space,
                pid,
                |wid: WindowId, info: WindowInfoView|
                    is_found_among(reply, known, pid, r.visible, space, wid, info),
                l2,
            )
            &&& r.main is Some && r.main->0.pid == pid ==> r2.layout.focused == r.main
        }),
{
    let n = l.len() as int;
    let known = windows_noted(r, new);
    lemma_noted_only_windows(r, new);
    let (t, found) = choose|t: Log, found: Seq<FoundView>| #[trigger]
        windows_found(known, l, pid, known.visible, t, found) && findings_told(
            known,
            t,
            pid,
            found,
            r2,
            l2,
        );
    let (m, t1, rest) = choose|m: Known, t1: Log, rest: Seq<FoundView>| #[trigger]
        screens_told(known, t, pid, known.screens, found, m, t1, rest) && main_told(
            m,
            t1,
            has_main(m, pid),
            r2,
            l2,
        );
    lemma_found_grows(known, l, pid, known.visible, t, found);
    lemma_screens_told_grow(known, t, pid, known.screens, found, m, t1, rest);
    lemma_main_told_grows(m, t1, has_main(m, pid), r2, l2);
    lemma_reply_part(reply, t1, l2, n);
    lemma_reply_part(reply, t, t1, n);
    lemma_found(known, l, pid, known.visible, t, found, reply, n);
    lemma_screens_told(known, t, pid, known.screens, found, m, t1, rest, space);
    if has_main(m, pid) {
        lemma_told_quietly(
            m,
            t1,
            LayoutEventView::WindowFocused(spaces_of(m.screens), m.main->0),
            r2,
            l2,
        );
    }
    let listed = |wid: WindowId, info: WindowInfoView|
        found.contains(FoundView { space, wid, info });
    let wanted = |wid: WindowId, info: WindowInfoView|
        is_found_among(reply, known, pid, r.visible, space, wid, info);
    let (a, ta, list, b, tb) = choose|
        a: State,
        ta: Log,
        list: Seq<(WindowId, WindowInfoView)>,
        b: State,
        tb: Log,
    |
        {
            &&& #[trigger] event_handled(
                a,
                ta,
                LayoutEventView::WindowsOnScreenUpdated(space, pid, list),
                b,
                tb,
                nothing(),
            )
            &&& grew(t, ta)
            &&& grew(tb, t1)
            &&& forall|wid: WindowId, info: WindowInfoView|
                list.contains((wid, info)) <==> #[trigger] listed(wid, info)
        };
    assert forall|wid: WindowId, info: WindowInfoView|
        list.contains((wid, info)) <==> #[trigger] wanted(wid, info) by {
        assert(list.contains((wid, info)) <==> listed(wid, info));
        assert(found.contains(FoundView { space, wid, info }) <==> is_found_among(
            reply,
            known,
            pid,
            known.visible,
            space,
            wid,
            info,
        ));
    }
    assert(grew(l, ta));
    assert(grew(tb, l2));
    assert(update_told(l, space, pid, wanted, l2));
}

/// An application that is launched is known with its handle, and its windows are found; one
/// that says what windows it has is not otherwise known than before.
pub proof fn law_launched_application_is_known(
    r: Known,
    l: Log,
    event: Event,
    r2: Known,
    l2: Log,
    outcome: Outcome,
)
    requires
        event_taken(r, l, event, r2, l2, outcome),
    ensures
        match event {
            Event::ApplicationLaunched {
                pid,
                info,
                handle,
                is_frontmost: _,
                main_window: _,
                visible_windows,
            } => discovered(
                Known { apps: r.apps.insert(pid, AppState { info, handle }), ..r },
                l,
                pid,
                visible_windows@,
                r2,
                l2,
            ),
            Event::WindowsDiscovered { pid, new, known_visible: _ } => discovered(
                r,
                l,
                pid,
                new@,
                r2,
                l2,
            ),
            _ => true,
        },
{
}

} // verus!
