//! What the reactor does on each event, as far as that takes one request or a few.
//!
//! `reply` is how the host answers while an event is handled.

use vstd::prelude::*;

use crate::collections::lists;
use crate::config::NewWindowPlacement;
use crate::deeds::{deeds, group_deeds, lemma_deeds_join, lemma_reply_part};
use crate::ids::{SpaceId, WindowId, WindowServerId};
use crate::layout::event_laws::{
    law_added_window_goes_by_class, law_focus_follows_the_mouse, law_what_is_gone_leaves_the_tree,
    update_fate, Fate,
};
use crate::layout::events::{event_handled, LayoutEventView};
use crate::layout::saved::{keeps, SavedView};
use crate::layout::state::{ActiveFloat, State};
use crate::link::{answer, answered_by, ask, grew, Log, Rep, Req};
use crate::reactor::discovery::{app_of, layout_info};
use crate::reactor::event::{Command, Event, MetricsCommand, MouseState, ReactorCommand, WindowInfo};
use crate::reactor::frame_laws::{at_home, lemma_best_space_grows, lemma_home, lemma_told_quietly};
use crate::reactor::handler::{event_taken, window_gone, NOT_SAVED, SAVED};
use crate::reactor::mouse::{over_told, over_window};
use crate::reactor::outcome::{plain, Outcome};
use crate::reactor::raise_laws::{asks_for, law_response_is_passed_on, lemma_piled_grows};
use crate::reactor::raising::{answered, piled, raised, request_sent, told, Sheet};
use crate::reactor::screens::{best_space, window_space};
use crate::reactor::state::{spaces_of, Known, Screen};
use crate::response::{nothing, Response};
use crate::window_class::{exposed, text_of, WindowInfoView};

verus! {

/// Answers that are as `reply` says from some place on are so from any later place on.
pub proof fn lemma_later(reply: spec_fn(Req) -> Rep, log: Log, from: int, later: int)
    requires
        answered_by(reply, log, from),
        from <= later,
    ensures
        answered_by(reply, log, later),
{
}

/// The mouse came over a known window whose screen has a space. The focus goes there, from
/// the main window in its own space, if that is in the layout of its space, and if the layout
/// of the space that the mouse is in has the window and shows it. The mouse does not jump.
/// Where the screen has no space, or the window is not known, nothing is done.
#[verifier::rlimit(60)]
pub proof fn law_mouse_over_moves_the_focus(
    r: Known,
    l: Log,
    wsid: WindowServerId,
    r2: Known,
    l2: Log,
    outcome: Outcome,
    wid: WindowId,
    home: Option<SpaceId>,
    main_home: Option<SpaceId>,
    reply: spec_fn(Req) -> Rep,
)
    requires
        event_taken(r, l, Event::MouseMovedOverWindow(wsid), r2, l2, outcome),
        answered_by(reply, l2, l.len() as int),
        r.window_ids.contains_key(wsid),
        wid == r.window_ids[wsid],
        r.windows.contains_key(wid),
        at_home(reply, r.screens, r.windows[wid].frame_monotonic, home),
        if r.main is Some && r.windows.contains_key(r.main->0) {
            at_home(reply, r.screens, r.windows[r.main->0].frame_monotonic, main_home)
        } else {
            main_home is None
        },
    ensures
        r2 == r,
        ({
            let done = deeds(l2, l.len() as int);
            let node = reply(Req::WindowNode(r.layout.spaces[home->0], wid))->MaybeNode_0;
            let main_node = reply(
                Req::WindowNode(r.layout.spaces[main_home->0], r.main->0),
            )->MaybeNode_0;
            if home is None {
                done == Seq::<Req>::empty() && outcome == Outcome::Done
            } else if main_home is Some && main_node is Some && node is Some && reply(
                Req::IsVisible(node->0),
            )->Flag_0 {
                &&& done.len() == 1
                &&& done[0] is Raise
                &&& asks_for(
                    reply,
                    r,
                    Response { raise: Seq::empty(), focus: Some(wid) },
                    true,
                    done[0]->Raise_0,
                )
                &&& outcome == Outcome::Settle { new: None, is_resize: false }
            } else {
                &&& done == Seq::<Req>::empty()
                &&& outcome == Outcome::Settle { new: None, is_resize: false }
            }
        }),
{
    broadcast use group_deeds;

    let n = l.len() as int;
    let (t, to) = choose|t: Log, to: Option<SpaceId>|
        {
            &&& #[trigger] best_space(l, r.screens, r.windows[wid].frame_monotonic, t, to)
            &&& match to {
                None => r2 == r && l2 == t && outcome == Outcome::Done,
                Some(space) => over_window(r, t, (space, wid), r2, l2) && outcome
                    == plain(),
            }
        };
    lemma_best_space_grows(l, r.screens, r.windows[wid].frame_monotonic, t, to);
    if to is None {
        lemma_home(l, r.screens, r.windows[wid].frame_monotonic, t, to, home, reply, n);
    } else {
        let over = (to->0, wid);
        let (t1, main_space) = choose|t1: Log, main_space: Option<SpaceId>| #[trigger]
            window_space(r, t, r.main, t1, main_space) && over_told(
                r,
                t1,
                over,
                main_space,
                r2,
                l2,
            );
        let current_main = match (main_space, r.main) {
            (Some(space), Some(wid)) => Some((space, wid)),
            _ => None,
        };
        let event = LayoutEventView::MouseMovedOverWindow { over, current_main };
        let (s, t2, response) = choose|s: State, t2: Log, response: Response|
            {
                &&& #[trigger] event_handled(r.layout, t1, event, s, t2, response)
                &&& r2 == Known { layout: s, ..r }
                &&& answered(r2, t2, response, Seq::empty(), true, l2)
            };
        assert(raised(r2, t2, response, true, l2));
        assert(grew(t, t1));
        assert(grew(t1, t2));
        lemma_raised_grows(r2, t2, response, true, l2);
        lemma_reply_part(reply, t2, l2, n);
        lemma_reply_part(reply, t1, t2, n);
        lemma_reply_part(reply, t, t1, n);
        lemma_home(l, r.screens, r.windows[wid].frame_monotonic, t, to, home, reply, n);
        if r.main is Some && r.windows.contains_key(r.main->0) {
            lemma_home(
                t,
                r.screens,
                r.windows[r.main->0].frame_monotonic,
                t1,
                main_space,
                main_home,
                reply,
                n,
            );
        }
        assert(deeds(t1, n) =~= Seq::<Req>::empty());
        lemma_later(reply, t2, n, t1.len() as int);
        law_focus_follows_the_mouse(
            r.layout,
            t1,
            over,
            current_main,
            s,
            t2,
            response,
            reply,
        );
        lemma_deeds_join(l, t1, t2);
        assert(deeds(t2, n) =~= Seq::<Req>::empty());
        lemma_later(reply, l2, n, t2.len() as int);
        law_response_is_passed_on(r2, t2, response, true, l2, reply);
        lemma_deeds_join(l, t2, l2);
        assert(deeds(l2, n) =~= deeds(l2, t2.len() as int));
        assert(response.raise =~= Seq::<WindowId>::empty());
    }
}

/// Passing a response on only adds to the record.
pub proof fn lemma_raised_grows(r: Known, l: Log, response: Response, from_mouse: bool, l2: Log)
    requires
        raised(r, l, response, from_mouse, l2),
    ensures
        grew(l, l2),
{
    if response.raise.len() > 0 || response.focus is Some {
        let (t, sheets) = choose|t: Log, sheets: Seq<Sheet>| #[trigger]
            piled(r, l, response.raise, t, sheets)
                && request_sent(
                r,
                t,
                response,
                sheets,
                from_mouse,
                l2,
            );
        lemma_piled_grows(r, l, response.raise, t, sheets);
    }
}

/// A window that is not known, by the name that the window server has for it, is no concern
/// of the mouse.
pub proof fn law_mouse_over_unknown_window(
    r: Known,
    l: Log,
    wsid: WindowServerId,
    r2: Known,
    l2: Log,
    outcome: Outcome,
)
    requires
        event_taken(r, l, Event::MouseMovedOverWindow(wsid), r2, l2, outcome),
        !r.window_ids.contains_key(wsid) || !r.windows.contains_key(r.window_ids[wsid]),
    ensures
        r2 == r,
        l2 == l,
        outcome == Outcome::Done,
{
}

/// An application that is to end is told so, if it is known. When its thread has ended, it is
/// known no longer, its windows leave the tree, and none of them floats.
pub proof fn law_applications_end(
    r: Known,
    l: Log,
    pid: i32,
    r2: Known,
    l2: Log,
    outcome: Outcome,
)
    ensures
        event_taken(r, l, Event::ApplicationTerminated(pid), r2, l2, outcome) ==> {
            &&& r2 == r
            &&& deeds(l2, l.len() as int) == if r.apps.contains_key(pid) {
                seq![Req::TerminateApp(r.apps[pid].handle)]
            } else {
                Seq::empty()
            }
        },
        event_taken(r, l, Event::ApplicationThreadTerminated(pid), r2, l2, outcome) ==> {
            &&& r2 == Known { apps: r.apps.remove(pid), layout: r2.layout, ..r }
            &&& r2.layout == State { floating: r2.layout.floating, ..r.layout }
            &&& forall|w: WindowId| #[trigger]
                r2.layout.floating.contains(w) <==> r.layout.floating.contains(w) && w.pid != pid
            &&& deeds(l2, l.len() as int) == seq![Req::RemoveWindowsForApp(pid)]
        },
{
    broadcast use group_deeds;

    if event_taken(r, l, Event::ApplicationThreadTerminated(pid), r2, l2, outcome) {
        let m = Known { apps: r.apps.remove(pid), ..r };
        lemma_told_quietly(m, l, LayoutEventView::AppClosed(pid), r2, l2);
        law_what_is_gone_leaves_the_tree(
            r.layout,
            l,
            arbitrary(),
            pid,
            Seq::empty(),
            r2.layout,
            l2,
            nothing(),
        );
    }
}

/// At the end of the start, the tree keeps the windows of the applications that run, and of no
/// others.
pub proof fn law_start_keeps_running_applications(
    r: Known,
    l: Log,
    r2: Known,
    l2: Log,
    outcome: Outcome,
)
    requires
        event_taken(r, l, Event::StartupComplete, r2, l2, outcome),
    ensures
        r2 == r,
        ({
            let done = deeds(l2, l.len() as int);
            &&& done.len() == 1
            &&& done[0] is RetainApps
            &&& forall|pid: i32| #[trigger]
                done[0]->RetainApps_0.contains(pid) <==> r.apps.contains_key(pid)
        }),
{
    broadcast use group_deeds;

    let pids = choose|pids: Seq<i32>| #[trigger]
        lists(pids, r.apps) && told(
            r,
            l,
            LayoutEventView::AppsRunningUpdated(pids),
            r2,
            l2,
        );
    lemma_told_quietly(r, l, LayoutEventView::AppsRunningUpdated(pids), r2, l2);
    law_what_is_gone_leaves_the_tree(
        r.layout,
        l,
        arbitrary(),
        0,
        pids,
        r2.layout,
        l2,
        nothing(),
    );
}

/// A window that is gone is known no longer and leaves the tree, and the mouse holds nothing.
pub proof fn law_destroyed_window_leaves_the_tree(
    r: Known,
    l: Log,
    wid: WindowId,
    r2: Known,
    l2: Log,
    outcome: Outcome,
)
    requires
        event_taken(r, l, Event::WindowDestroyed(wid), r2, l2, outcome),
    ensures
        deeds(l2, l.len() as int) == seq![Req::RemoveWindow(wid)],
        r2 == (Known {
            windows: r.windows.remove(wid),
            in_drag: false,
            layout: r2.layout,
            ..r
        }),
        r2.layout == (State {
            floating: r2.layout.floating,
            resizing: None,
            moving: None,
            ..r.layout
        }),
        forall|w: WindowId| #[trigger]
            r2.layout.floating.contains(w) <==> r.layout.floating.contains(w) && w != wid,
{
    let m = window_gone(r, wid);
    lemma_told_quietly(m, l, LayoutEventView::WindowRemoved(wid), r2, l2);
    law_what_is_gone_leaves_the_tree(
        m.layout,
        l,
        wid,
        0,
        Seq::empty(),
        r2.layout,
        l2,
        nothing(),
    );
}

/// A window that was created is known by what its application says of it, with no write to it
/// yet, and by the window server's name for it where it has one. While the button is down,
/// something is being dragged.
pub proof fn law_created_window_is_known(
    r: Known,
    l: Log,
    wid: WindowId,
    window: WindowInfo,
    mouse: MouseState,
    r2: Known,
    l2: Log,
    outcome: Outcome,
)
    requires
        event_taken(r, l, Event::WindowCreated(wid, window, mouse), r2, l2, outcome),
    ensures
        l2 == l,
        r2.in_drag == (r.in_drag || mouse == MouseState::Down),
        r2 == (Known {
            windows: r2.windows,
            window_ids: r2.window_ids,
            in_drag: r2.in_drag,
            ..r
        }),
        r2.windows.contains_key(wid),
        r2.windows[wid].title == window.title,
        r2.windows[wid].frame_monotonic == window.frame,
        r2.windows[wid].is_ax_standard == window.is_standard,
        r2.windows[wid].is_resizable == window.is_resizable,
        r2.windows[wid].last_sent_txid.0 == 0,
        r2.windows[wid].window_server_id == window.sys_id,
        forall|w: WindowId|
            w != wid ==> #[trigger] r2.windows[w] == r.windows[w] && (r2.windows.contains_key(w)
                <==> r.windows.contains_key(w)),
        window.sys_id is Some ==> r2.window_ids.contains_key(window.sys_id->0)
            && r2.window_ids[window.sys_id->0] == wid,
        forall|id: WindowServerId|
            window.sys_id != Some(id) ==> #[trigger] r2.window_ids[id] == r.window_ids[id] && (
            r2.window_ids.contains_key(id) <==> r.window_ids.contains_key(id)),
{
}

/// What the layout manager is told of a window: the name of its application's bundle, its
/// title, the layer that the window server has it on, and whether it is an ordinary window of
/// changeable size.
pub open spec fn described(r: Known, wid: WindowId) -> WindowInfoView {
    let window = r.windows[wid];
    WindowInfoView {
        bundle_id: if r.apps.contains_key(wid.pid) {
            text_of(r.apps[wid.pid].info.bundle_id)
        } else {
            None
        },
        title: Some(exposed(window.title)),
        layer: if window.window_server_id is Some && r.server_info.contains_key(
            window.window_server_id->0,
        ) {
            Some(r.server_info[window.window_server_id->0].layer)
        } else {
            None
        },
        is_standard: window.is_ax_standard,
        is_resizable: window.is_resizable,
    }
}

/// A known window that became visible joins the layout of the space that it is in, or floats
/// there, or is left alone, by its description. Where its application is not known, or its
/// screen has no space, nothing is done.
#[verifier::rlimit(60)]
pub proof fn law_visible_window_joins_its_space(
    r: Known,
    l: Log,
    wid: WindowId,
    r2: Known,
    l2: Log,
    outcome: Outcome,
    home: Option<SpaceId>,
    reply: spec_fn(Req) -> Rep,
)
    requires
        event_taken(r, l, Event::WindowBecameVisible(wid), r2, l2, outcome),
        answered_by(reply, l2, l.len() as int),
        r.windows.contains_key(wid),
        at_home(reply, r.screens, r.windows[wid].frame_monotonic, home),
    ensures
        r2 == (Known { layout: r2.layout, ..r }),
        ({
            let done = deeds(l2, l.len() as int);
            let layout = r.layout.spaces[home->0];
            if home is None || !r.apps.contains_key(wid.pid) {
                &&& r2 == r
                &&& done == Seq::<Req>::empty()
                &&& outcome == Outcome::Settle { new: None, is_resize: false }
            } else {
                &&& outcome == Outcome::Settle { new: Some(wid), is_resize: false }
                &&& match update_fate(false, false, described(r, wid)) {
                    Fate::Joins => {
                        &&& r2 == r
                        &&& done == seq![
                            if reply(Req::IsScrollLayout(layout))->Flag_0 {
                                Req::AddWindowToScrollColumn(
                                    layout,
                                    wid,
                                    r.layout.scroll.new_window_in_column
                                        == NewWindowPlacement::NewColumn,
                                    r.layout.scroll.visible_columns,
                                )
                            } else {
                                Req::AddWindowAfter(
                                    layout,
                                    reply(Req::Selection(layout))->Node_0,
                                    wid,
                                )
                            },
                        ]
                    },
                    Fate::Floats => {
                        &&& done == Seq::<Req>::empty()
                        &&& forall|w: WindowId| #[trigger]
                            r2.layout.floating.contains(w) <==> r.layout.floating.contains(w) || w
                                == wid
                        &&& forall|f: ActiveFloat| #[trigger]
                            r2.layout.active_floating.contains(f)
                                <==> r.layout.active_floating.contains(f) || f == ActiveFloat {
                                space: home->0,
                                pid: wid.pid,
                                wid,
                            }
                    },
                    _ => r2 == r && done == Seq::<Req>::empty(),
                }
            }
        }),
{
    broadcast use group_deeds;

    let n = l.len() as int;
    let window = r.windows[wid];
    let info = layout_info(r, app_of(r, wid.pid), window);
    let (t, space) = choose|t: Log, space: Option<SpaceId>|
        {
            &&& #[trigger] best_space(l, r.screens, window.frame_monotonic, t, space)
            &&& match space {
                Some(space) if r.apps.contains_key(wid.pid) => {
                    &&& told(
                        r,
                        t,
                        LayoutEventView::WindowAdded(
                            space,
                            wid,
                            layout_info(r, app_of(r, wid.pid), window),
                        ),
                        r2,
                        l2,
                    )
                    &&& outcome == Outcome::Settle { new: Some(wid), is_resize: false }
                },
                _ => r2 == r && l2 == t && outcome == plain(),
            }
        };
    lemma_best_space_grows(l, r.screens, window.frame_monotonic, t, space);
    if space is Some && r.apps.contains_key(wid.pid) {
        lemma_told_quietly(
            r,
            t,
            LayoutEventView::WindowAdded(space->0, wid, info),
            r2,
            l2,
        );
        assert(grew(t, l2));
        lemma_reply_part(reply, t, l2, n);
        lemma_home(l, r.screens, window.frame_monotonic, t, space, home, reply, n);
        lemma_later(reply, l2, n, t.len() as int);
        assert(info == described(r, wid));
        law_added_window_goes_by_class(
            r.layout,
            t,
            space->0,
            wid,
            info,
            r2.layout,
            l2,
            nothing(),
            reply,
        );
        lemma_deeds_join(l, t, l2);
        assert(deeds(l2, n) =~= deeds(l2, t.len() as int));
    } else {
        lemma_home(l, r.screens, window.frame_monotonic, t, space, home, reply, n);
    }
}

/// What the raising of windows has come to is passed on.
pub proof fn law_raises_are_reported(
    r: Known,
    l: Log,
    wid: WindowId,
    sequence: u64,
    r2: Known,
    l2: Log,
    outcome: Outcome,
)
    ensures
        event_taken(
            r,
            l,
            (Event::RaiseCompleted { window_id: wid, sequence_id: sequence }),
            r2,
            l2,
            outcome,
        ) ==> r2 == r && deeds(l2, l.len() as int) == seq![Req::RaiseCompleted(wid, sequence)],
        event_taken(
            r,
            l,
            (Event::RaiseTimeout { sequence_id: sequence }),
            r2,
            l2,
            outcome,
        ) ==> r2 == r && deeds(l2, l.len() as int) == seq![Req::RaiseTimedOut(sequence)],
{
    broadcast use group_deeds;

}

/// A command for the log is passed on. Saving keeps what is to be known after the next
/// start, and ends the program, with status 0 if saving worked and 3 if not; printing shows
/// the same and does not end anything.
pub proof fn law_reactor_commands(
    r: Known,
    l: Log,
    metrics: MetricsCommand,
    r2: Known,
    l2: Log,
    outcome: Outcome,
)
    ensures
        event_taken(r, l, Event::Command(Command::Metrics(metrics)), r2, l2, outcome) ==> r2 == r
            && deeds(l2, l.len() as int) == seq![Req::RunMetricsCommand(metrics.0)],
        event_taken(
            r,
            l,
            Event::Command(Command::Reactor(ReactorCommand::SaveAndExit)),
            r2,
            l2,
            outcome,
        ) ==> {
            let done = deeds(l2, l.len() as int);
            &&& r2 == r
            &&& done.len() == 2
            &&& done[0] is SaveLayouts
            &&& keeps(done[0]->SaveLayouts_0, r.layout)
            &&& l2.len() == l.len() + 2
            &&& done[1] == Req::Exit(
                if l2[l.len() as int].rep->Flag_0 {
                    0
                } else {
                    3
                },
            )
        },
        event_taken(
            r,
            l,
            Event::Command(Command::Reactor(ReactorCommand::Serialize)),
            r2,
            l2,
            outcome,
        ) ==> {
            let done = deeds(l2, l.len() as int);
            &&& r2 == r
            &&& done.len() == 1
            &&& done[0] is PrintLayouts
            &&& keeps(done[0]->PrintLayouts_0, r.layout)
        },
{
    broadcast use group_deeds;

    if event_taken(
        r,
        l,
        Event::Command(Command::Reactor(ReactorCommand::SaveAndExit)),
        r2,
        l2,
        outcome,
    ) {
        let saved = choose|saved: SavedView|
            {
                let t = ask(l, l2, Req::SaveLayouts(saved));
                &&& #[trigger] keeps(saved, r.layout)
                &&& l2 == ask(
                    t,
                    l2,
                    Req::Exit(
                        if answer(t)->Flag_0 {
                            SAVED
                        } else {
                            NOT_SAVED
                        },
                    ),
                )
            };
        let t = ask(l, l2, Req::SaveLayouts(saved));
        assert(l2[l.len() as int] == t[l.len() as int]);
    }
    if event_taken(
        r,
        l,
        Event::Command(Command::Reactor(ReactorCommand::Serialize)),
        r2,
        l2,
        outcome,
    ) {
        let saved = choose|saved: SavedView| #[trigger]
            keeps(saved, r.layout) && l2 == ask(l, l2, Req::PrintLayouts(saved));
    }
}

/// The spaces of the screens are those that the screens have, in their order, the screens
/// without one left out.
pub proof fn law_spaces_are_those_of_screens(screens: Seq<Screen>, space: SpaceId)
    ensures
        spaces_of(screens).contains(space) <==> exists|k: int|
            0 <= k < screens.len() && (#[trigger] screens[k]).space == Some(space),
        spaces_of(screens).len() <= screens.len(),
        (forall|k: int| 0 <= k < screens.len() ==> (#[trigger] screens[k]).space is Some)
            ==> spaces_of(screens).len() == screens.len() && forall|k: int|
            0 <= k < screens.len() ==> Some(#[trigger] spaces_of(screens)[k]) == screens[k].space,
    decreases screens.len(),
{
    if screens.len() > 0 {
        let front = screens.drop_last();
        let before = spaces_of(front);
        let now = spaces_of(screens);
        law_spaces_are_those_of_screens(front, space);
        if before.contains(space) {
            let k = choose|k: int| 0 <= k < front.len() && (#[trigger] front[k]).space == Some(space);
            assert(screens[k].space == Some(space));
            let m = choose|m: int| 0 <= m < before.len() && before[m] == space;
            assert(now[m] == space);
        }
        if screens.last().space == Some(space) {
            assert(screens[screens.len() - 1].space == Some(space));
            assert(now[now.len() - 1] == space);
        }
        if now.contains(space) {
            let m = choose|m: int| 0 <= m < now.len() && now[m] == space;
            if m < before.len() {
                assert(before[m] == space);
            }
        }
        if exists|k: int| 0 <= k < screens.len() && (#[trigger] screens[k]).space == Some(space) {
            let k = choose|k: int|
                0 <= k < screens.len() && (#[trigger] screens[k]).space == Some(space);
            if k < front.len() {
                assert(front[k].space == Some(space));
            }
        }
        if forall|k: int| 0 <= k < screens.len() ==> (#[trigger] screens[k]).space is Some {
            assert forall|k: int| 0 <= k < front.len() implies (
            #[trigger] front[k]).space is Some by {
                assert(screens[k].space is Some);
            }
            assert(screens[screens.len() - 1].space is Some);
            assert forall|k: int| 0 <= k < screens.len() implies Some(#[trigger] now[k])
                == screens[k].space by {
                if k < front.len() {
                    assert(Some(before[k]) == front[k].space);
                }
            }
        }
    }
}

} // verus!
