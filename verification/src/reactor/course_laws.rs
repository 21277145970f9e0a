//! The course of events: what is read of the windows, what becomes of screens and spaces, and
//! how the focus and the layout are brought up to date.
//!
//! `reply` is how the host answers while an event is handled.

use vstd::prelude::*;

use crate::collections::lists;
use crate::config::{Config, ScrollView};
use crate::deeds::{deeds, group_deeds, lemma_deeds_join, lemma_each_done, lemma_reply_part};
use crate::ids::{
    Frame, GroupBar, LayoutId, LayoutKind, Real, Size, SpaceId, WindowId, WindowServerId,
};
use crate::layout::conversion::{configured, kind_allowed, kinds_allowed};
use crate::layout::event_laws::{law_shown_space_has_layout_for_size, lemma_kind_allowed_grows};
use crate::layout::events::{event_handled, top_layer, LayoutEventView};
use crate::layout::floating::floats_in;
use crate::layout::state::{fresh, State};
use crate::layout::viewport::{frames_and_groups_shown, in_motion, ticks, viewport_followed};
use crate::link::{answer, answered_by, ask, ask_each, grew, Log, Rep, Req};
use crate::messages::{Converter, WindowMove};
use crate::reactor::discovery::{all_asked, main_told, visibility_questions, windows_noted};
use crate::reactor::discovery_laws::lemma_main_told_grows;
use crate::reactor::event::{
    Command, Event, ReactorCommand, WindowInfo, WindowServerInfo, WindowsOnScreen,
};
use crate::reactor::event_laws::{lemma_later, lemma_raised_grows};
use crate::reactor::frame_laws::{lemma_best_screen, lemma_told_quietly, lies_on, share};
use crate::reactor::handler::{
    answered_then_asked, event_answered, event_taken, layout_settled, layouts_shown, screen_settled,
    settled, step_taken, tick_taken, ticked,
};
use crate::reactor::laws::law_visible_windows_are_replaced;
use crate::reactor::outcome::Outcome;
use crate::reactor::placement::{
    frames_applied, laid_out, layout_applied, moves_made, place_step, placed, screen_step,
    screens_laid_out,
};
use crate::reactor::raise_laws::{asks_for, law_response_is_passed_on};
use crate::reactor::raising::{answered, raised, told};
use crate::reactor::repeat_laws::{lemma_followed_grows, lemma_moves_made_grow, lemma_screens_grow};
use crate::reactor::screens::{activated, active_updated, best_screen};
use crate::reactor::spaces::{
    change_closed, expose_step, exposed_one_by_one, gather_step, gathered, joined, moved_in,
    news_raised, screens_from, visit_closed, visit_focused, visit_raised,
};
use crate::reactor::state::{spaces_of, started, AppState, Known, Screen, WindowState};
use crate::reactor::visible::{all_read, frames_read, infos_noted, response_filtered};
use crate::reactor::visible_laws::lemma_filtered_grows;
use crate::response::{law_first_focus_decides, nothing, Response};

verus! {

/// Whether an entry of the window server's list is for a window.
pub open spec fn is_for(info: WindowServerInfo, id: WindowServerId) -> bool {
    info.id == id
}

/// What the window server says of its windows is known: of each, the last that it says.
pub proof fn law_last_word_counts(
    known: Map<WindowServerId, WindowServerInfo>,
    infos: Seq<WindowServerInfo>,
    id: WindowServerId,
)
    ensures
        ({
            let after = infos_noted(known, infos);
            &&& forall|i: int|
                0 <= i < infos.len() && is_for(#[trigger] infos[i], id) && (forall|j: int|
                    i < j < infos.len() ==> !is_for(#[trigger] infos[j], id))
                    ==> after.contains_key(id) && after[id] == infos[i]
            &&& (forall|j: int| 0 <= j < infos.len() ==> !is_for(#[trigger] infos[j], id)) ==> (
            after.contains_key(id) <==> known.contains_key(id)) && after[id] == known[id]
        }),
    decreases infos.len(),
{
    if infos.len() > 0 {
        let front = infos.drop_last();
        law_last_word_counts(known, front, id);
        let after = infos_noted(known, infos);
        let last = infos.len() - 1;
        assert(infos[last] == infos.last());
        assert forall|i: int|
            0 <= i < infos.len() && is_for(#[trigger] infos[i], id) && (forall|j: int|
                i < j < infos.len() ==> !is_for(#[trigger] infos[j], id)) implies after.contains_key(
            id,
        ) && after[id] == infos[i] by {
            if i < last {
                assert(!is_for(infos[last], id));
                assert(front[i] == infos[i]);
                assert forall|j: int| i < j < front.len() implies !is_for(
                    #[trigger] front[j],
                    id,
                ) by {
                    assert(!is_for(infos[j], id));
                }
            }
        }
        if forall|j: int| 0 <= j < infos.len() ==> !is_for(#[trigger] infos[j], id) {
            assert(!is_for(infos[last], id));
            assert forall|j: int| 0 <= j < front.len() implies !is_for(#[trigger] front[j], id) by {
                assert(!is_for(infos[j], id));
            }
        }
    }
}

/// Whether an entry of the window server's list says where a window is: it is for that
/// window, and the window is an ordinary one, on the bottom layer.
pub open spec fn places(
    ids: Map<WindowServerId, WindowId>,
    info: WindowServerInfo,
    wid: WindowId,
) -> bool {
    info.layer == 0 && ids.contains_key(info.id) && ids[info.id] == wid
}

/// The frames that are read are those of known ordinary windows: each is known to be where the
/// last entry for it says, and nothing else of it changes. A window without such an entry is
/// known as before.
pub proof fn law_frames_are_read(
    windows: Map<WindowId, WindowState>,
    ids: Map<WindowServerId, WindowId>,
    infos: Seq<WindowServerInfo>,
    wid: WindowId,
)
    ensures
        ({
            let after = frames_read(windows, ids, infos);
            &&& after.contains_key(wid) <==> windows.contains_key(wid)
            &&& after[wid] == WindowState {
                frame_monotonic: after[wid].frame_monotonic,
                ..windows[wid]
            }
            &&& forall|i: int|
                windows.contains_key(wid) && 0 <= i < infos.len() && places(
                    ids,
                    #[trigger] infos[i],
                    wid,
                ) && (forall|j: int|
                    i < j < infos.len() ==> !places(ids, #[trigger] infos[j], wid))
                    ==> after[wid].frame_monotonic == infos[i].frame
            &&& (forall|j: int|
                0 <= j < infos.len() ==> !places(ids, #[trigger] infos[j], wid)) ==> after[wid]
                == windows[wid]
        }),
    decreases infos.len(),
{
    if infos.len() > 0 {
        let front = infos.drop_last();
        law_frames_are_read(windows, ids, front, wid);
        let before = frames_read(windows, ids, front);
        let after = frames_read(windows, ids, infos);
        let last = infos.len() - 1;
        assert(infos[last] == infos.last());
        assert forall|i: int|
            windows.contains_key(wid) && 0 <= i < infos.len() && places(
                ids,
                #[trigger] infos[i],
                wid,
            ) && (forall|j: int|
                i < j < infos.len() ==> !places(
                    ids,
                    #[trigger] infos[j],
                    wid,
                )) implies after[wid].frame_monotonic == infos[i].frame by {
            if i < last {
                assert(!places(ids, infos[last], wid));
                assert(front[i] == infos[i]);
                assert forall|j: int| i < j < front.len() implies !places(
                    ids,
                    #[trigger] front[j],
                    wid,
                ) by {
                    assert(!places(ids, infos[j], wid));
                }
            }
        }
        if forall|j: int| 0 <= j < infos.len() ==> !places(ids, #[trigger] infos[j], wid) {
            assert(!places(ids, infos[last], wid));
            assert forall|j: int| 0 <= j < front.len() implies !places(
                ids,
                #[trigger] front[j],
                wid,
            ) by {
                assert(!places(ids, infos[j], wid));
            }
        }
    }
}

/// A list of the windows on screen that is about one application says nothing of frames; one
/// that is about all is read for them. Either way the windows on screen are those of the
/// list, and nothing is done.
pub proof fn law_window_list_is_taken(
    r: Known,
    l: Log,
    pid: Option<i32>,
    on_screen: WindowsOnScreen,
    r2: Known,
    l2: Log,
    outcome: Outcome,
)
    requires
        event_taken(
            r,
            l,
            (Event::WindowsOnScreenUpdated { pid, on_screen }),
            r2,
            l2,
            outcome,
        ),
    ensures
        l2 == l,
        r2 == (Known {
            visible: r2.visible,
            server_info: infos_noted(r.server_info, on_screen.info@),
            windows: r2.windows,
            ..r
        }),
        pid is Some ==> r2.windows == r.windows,
        pid is None ==> r2.windows == frames_read(r.windows, r.window_ids, on_screen.info@),
        forall|id: WindowServerId| #[trigger]
            r2.visible.contains(id) <==> on_screen.visible@.contains(id),
{
    assert forall|id: WindowServerId| #[trigger]
        r2.visible.contains(id) <==> on_screen.visible@.contains(id) by {
        law_visible_windows_are_replaced(
            r,
            on_screen.visible@,
            on_screen.info@,
            id,
        );
    }
}

/// The active screen is the one that the main window lies on; where that is another than
/// before, it is reported.
pub proof fn law_active_screen_has_the_main_window(
    r: Known,
    l: Log,
    r2: Known,
    l2: Log,
    wid: WindowId,
    idx: int,
    reply: spec_fn(Req) -> Rep,
)
    requires
        active_updated(r, l, r2, l2),
        answered_by(reply, l2, l.len() as int),
        r.main == Some(wid),
        r.windows.contains_key(wid),
        lies_on(reply, r.screens, r.windows[wid].frame_monotonic, idx),
    ensures
        r2 == (Known { active: Some(idx as u16), ..r }),
        deeds(l2, l.len() as int) == if r.active == Some(idx as u16) {
            Seq::empty()
        } else {
            seq![Req::FocusedScreenChanged]
        },
{
    broadcast use group_deeds;

    let n = l.len() as int;
    let frame = r.windows[wid].frame_monotonic;
    let (t, best) = choose|t: Log, best: Option<usize>| #[trigger]
        best_screen(l, r.screens, frame, t, best) && activated(r, t, best, r2, l2);
    assert(grew(t, l2));
    lemma_reply_part(reply, t, l2, n);
    lemma_best_screen(l, r.screens, frame, t, best, reply, n);
    let b = best->0 as int;
    if b < idx {
        assert(share(reply, r.screens[b], frame) <= share(reply, r.screens[idx], frame));
        assert(share(reply, r.screens[idx], frame) < share(reply, r.screens[b], frame));
    }
    if idx < b {
        assert(share(reply, r.screens[idx], frame) <= share(reply, r.screens[b], frame));
        assert(share(reply, r.screens[b], frame) < share(reply, r.screens[idx], frame));
    }
    assert(deeds(t, n) =~= Seq::<Req>::empty());
}

/// Without a known main window, the active screen stays.
pub proof fn law_active_screen_stays(r: Known, l: Log, r2: Known, l2: Log)
    requires
        active_updated(r, l, r2, l2),
        r.main is None || !r.windows.contains_key(r.main->0),
    ensures
        r2 == r,
        l2 == l,
{
}

proof fn lemma_placed_keeps(
    r: Known,
    l: Log,
    screen: Screen,
    new_wids: Seq<WindowId>,
    moves: Seq<WindowMove>,
    frames: Seq<(WindowId, Frame)>,
    r2: Known,
    l2: Log,
    moves2: Seq<WindowMove>,
)
    requires
        placed(r, l, screen, new_wids, moves, frames, r2, l2, moves2),
    ensures
        r2 == (Known { windows: r2.windows, ..r }),
    decreases frames.len(),
{
    if frames.len() > 0 {
        let (m, t, before) = choose|m: Known, t: Log, before: Seq<WindowMove>|
            {
                &&& placed(r, l, screen, new_wids, moves, frames.drop_last(), m, t, before)
                &&& #[trigger] place_step(
                    m,
                    t,
                    screen,
                    new_wids,
                    before,
                    frames.last(),
                    r2,
                    l2,
                    moves2,
                )
            };
        lemma_placed_keeps(r, l, screen, new_wids, moves, frames.drop_last(), m, t, before);
    }
}

proof fn lemma_applied_keeps(
    r: Known,
    l: Log,
    space: SpaceId,
    screen: Screen,
    new_wids: Seq<WindowId>,
    moves: Seq<WindowMove>,
    r2: Known,
    l2: Log,
    moves2: Seq<WindowMove>,
)
    requires
        layout_applied(r, l, space, screen, new_wids, moves, r2, l2, moves2),
    ensures
        r2 == (Known { windows: r2.windows, ..r }),
{
    let (t, frames, groups) = choose|
        t: Log,
        frames: Seq<(WindowId, Frame)>,
        groups: Seq<GroupBar>,
    |
        {
            &&& #[trigger] frames_and_groups_shown(
                r.layout,
                l,
                space,
                screen.frame,
                r.config.id,
                t,
                frames,
                groups,
            )
            &&& frames_applied(
                r,
                t,
                space,
                screen,
                new_wids,
                moves,
                frames,
                groups,
                r2,
                l2,
                moves2,
            )
        };
    lemma_placed_keeps(
        r,
        ask(t, l2, Req::GroupsUpdated(space, groups)),
        screen,
        new_wids,
        moves,
        frames,
        r2,
        l2,
        moves2,
    );
}

/// Laying screens out changes nothing but the frames that windows are known to have, and which
/// layouts have viewports.
proof fn lemma_laying_out_keeps(
    r: Known,
    l: Log,
    screens: Seq<Screen>,
    new_wids: Seq<WindowId>,
    hold: bool,
    r2: Known,
    l2: Log,
    moves: Seq<WindowMove>,
)
    requires
        screens_laid_out(r, l, screens, new_wids, hold, r2, l2, moves),
    ensures
        r2 == (Known { layout: r2.layout, windows: r2.windows, ..r }),
        r2.layout == (State { viewports: r2.layout.viewports, ..r.layout }),
    decreases screens.len(),
{
    if screens.len() > 0 {
        let (m, t, before) = choose|m: Known, t: Log, before: Seq<WindowMove>|
            {
                &&& screens_laid_out(r, l, screens.drop_last(), new_wids, hold, m, t, before)
                &&& #[trigger] screen_step(
                    m,
                    t,
                    screens.last(),
                    new_wids,
                    hold,
                    before,
                    r2,
                    l2,
                    moves,
                )
            };
        lemma_laying_out_keeps(r, l, screens.drop_last(), new_wids, hold, m, t, before);
        if let Some(space) = screens.last().space {
            let screen = screens.last();
            if hold {
                lemma_applied_keeps(m, t, space, screen, new_wids, before, r2, l2, moves);
            } else {
                let (s, u) = choose|s: State, u: Log|
                    {
                        &&& #[trigger] viewport_followed(
                            m.layout,
                            t,
                            space,
                            screen.frame,
                            m.config,
                            s,
                            u,
                        )
                        &&& layout_applied(
                            Known { layout: s, ..m },
                            u,
                            space,
                            screen,
                            new_wids,
                            before,
                            r2,
                            l2,
                            moves,
                        )
                    };
                lemma_applied_keeps(
                    Known { layout: s, ..m },
                    u,
                    space,
                    screen,
                    new_wids,
                    before,
                    r2,
                    l2,
                    moves,
                );
                lemma_followed_grows(
                    m.layout,
                    t,
                    space,
                    screen.frame,
                    m.config,
                    s,
                    u,
                );
            }
        }
    }
}

/// After an event, every screen is laid out, unless something is being dragged. The window
/// that has just come up is the only new one, and the viewports are left alone and nothing is
/// animated where the user resizes.
pub proof fn law_screens_are_brought_up_to_date(
    r: Known,
    l: Log,
    new: Option<WindowId>,
    is_resize: bool,
    r2: Known,
    l2: Log,
)
    requires
        settled(r, l, None, Outcome::Settle { new, is_resize }, r2, l2),
        !r.in_drag,
    ensures
        exists|t: Log, moves: Seq<WindowMove>, news: Seq<WindowId>|
            {
                &&& #[trigger] screens_laid_out(r, l, r.screens, news, is_resize, r2, t, moves)
                &&& moves_made(r2, t, is_resize, moves, l2)
                &&& forall|wid: WindowId| #[trigger] news.contains(wid) <==> new == Some(wid)
            },
        r2.layout.focused == r.layout.focused,
        r2.main == r.main,
        r2.active == r.active,
{
    let news = match new {
        Some(wid) => seq![wid],
        None => Seq::<WindowId>::empty(),
    };
    let (t, moves) = choose|t: Log, moves: Seq<WindowMove>| #[trigger]
        screens_laid_out(r, l, r.screens, news, is_resize, r2, t, moves) && moves_made(
            r2,
            t,
            is_resize,
            moves,
            l2,
        );
    lemma_laying_out_keeps(r, l, r.screens, news, is_resize, r2, t, moves);
    assert forall|wid: WindowId| #[trigger] news.contains(wid) <==> new == Some(wid) by {
        if let Some(w) = new {
            assert(news[0] == w);
        }
    }
}

/// A window that the event has raised has the focus afterwards, for the layout manager too.
pub proof fn law_raised_window_has_the_focus(
    r: Known,
    l: Log,
    wid: WindowId,
    new: Option<WindowId>,
    is_resize: bool,
    r2: Known,
    l2: Log,
)
    requires
        settled(r, l, Some(wid), Outcome::Settle { new, is_resize }, r2, l2),
    ensures
        r2.layout.focused == Some(wid),
        r.layout.floating.contains(wid) ==> r2.layout.last_floating == Some(wid),
        exists|m: State, t: Log|
            #[trigger] event_handled(
                r.layout,
                l,
                LayoutEventView::WindowFocused(spaces_of(r.screens), wid),
                m,
                t,
                nothing(),
            ) && grew(t, l2),
{
    let (m, t) = choose|m: Known, t: Log|
        {
            &&& #[trigger] told(
                r,
                l,
                LayoutEventView::WindowFocused(spaces_of(r.screens), wid),
                m,
                t,
            )
            &&& screen_settled(m, t, new, is_resize, r2, l2)
        };
    lemma_told_quietly(
        r,
        l,
        LayoutEventView::WindowFocused(spaces_of(r.screens), wid),
        m,
        t,
    );
    let (m2, t2) = choose|m2: Known, t2: Log| #[trigger]
        active_updated(m, t, m2, t2) && layout_settled(m2, t2, new, is_resize, r2, l2);
    assert(m2.layout == m.layout);
    if !m2.in_drag {
        let news = match new {
            Some(wid) => seq![wid],
            None => Seq::<WindowId>::empty(),
        };
        let (t3, moves) = choose|t3: Log, moves: Seq<WindowMove>| #[trigger]
            screens_laid_out(m2, t2, m2.screens, news, is_resize, r2, t3, moves) && moves_made(
                r2,
                t3,
                is_resize,
                moves,
                l2,
            );
        lemma_laying_out_keeps(m2, t2, m2.screens, news, is_resize, r2, t3, moves);
        lemma_screens_grow(
            m2,
            t2,
            m2.screens,
            news,
            is_resize,
            r2,
            t3,
            moves,
        );
        lemma_moves_made_grow(r2, t3, is_resize, moves, l2);
    }
    lemma_active_grows(m, t, m2, t2);
    assert(grew(t, l2));
}

/// The viewports move on: each is asked to, in order, then the windows follow, held as they
/// are, and it is asked whether some viewport is still in motion.
pub proof fn law_viewports_move_on(r: Known, l: Log, r2: Known, l2: Log, again: bool)
    requires
        tick_taken(r, l, r2, l2, again),
    ensures
        exists|t: Log, t2: Log|
            {
                &&& #[trigger] laid_out(r, t, Seq::empty(), true, r2, t2)
                &&& in_motion(r2.layout, t2, l2, again)
                &&& deeds(t, l.len() as int) == Seq::new(
                    r.layout.viewports.len(),
                    |i: int| Req::Tick(r.layout.viewports[i]),
                )
            },
{
    let t2 = choose|t2: Log| #[trigger] ticked(r, l, r2, t2) && in_motion(r2.layout, t2, l2, again);
    let t = choose|t: Log|
        t == ask_each(l, t, ticks(r.layout.viewports)) && #[trigger] laid_out(
            r,
            t,
            Seq::empty(),
            true,
            r2,
            t2,
        );
    let all = ticks(r.layout.viewports);
    lemma_each_done(l, t, all);
    assert(all =~= Seq::new(
        r.layout.viewports.len(),
        |i: int| Req::Tick(r.layout.viewports[i]),
    ));
}

/// An event that tells of a space being shown makes the tree use the layout for that size.
proof fn lemma_exposure(
    s: State,
    l: Log,
    space: SpaceId,
    size: Size,
    s2: State,
    l2: Log,
    r: Response,
)
    requires
        event_handled(s, l, LayoutEventView::SpaceExposed(space, size), s2, l2, r),
    ensures
        grew(l, l2),
        exists|k: int|
            l.len() <= k < l2.len() && (#[trigger] l2[k]).req == Req::ActivateSize(space, size),
{
    let t = if s.spaces.contains_key(space) {
        l
    } else {
        ask(l, l2, Req::OpenSpace(space, size, s.default_kind))
    };
    let t1 = ask(t, l2, Req::ActivateSize(space, size));
    let s1 = State {
        spaces: s.spaces.insert(space, answer(t1)->Layout_0),
        ..s
    };
    let t2 = choose|t2: Log| #[trigger]
        kind_allowed(s1, t1, space, s2, t2)
            && top_layer(s2, t2, space, l2, r.raise) && r.focus is None;
    lemma_kind_allowed_grows(s1, t1, space, s2, t2);
    assert(grew(t2, l2));
    assert(l2[t.len() as int] == t1[t.len() as int]);
}

proof fn lemma_told_exposure(
    r: Known,
    l: Log,
    space: SpaceId,
    size: Size,
    r2: Known,
    l2: Log,
)
    requires
        told(r, l, LayoutEventView::SpaceExposed(space, size), r2, l2),
    ensures
        grew(l, l2),
        r2 == (Known { layout: r2.layout, ..r }),
        exists|k: int|
            l.len() <= k < l2.len() && (#[trigger] l2[k]).req == Req::ActivateSize(space, size),
{
    let event = LayoutEventView::SpaceExposed(space, size);
    let (s, t, response) = choose|s: State, t: Log, response: Response|
        {
            &&& #[trigger] event_handled(r.layout, l, event, s, t, response)
            &&& r2 == Known { layout: s, ..r }
            &&& answered(r2, t, response, Seq::empty(), false, l2)
        };
    lemma_exposure(r.layout, l, space, size, s, t, response);
    lemma_raised_grows(r2, t, response, false, l2);
    let k = choose|k: int|
        l.len() <= k < t.len() && (#[trigger] t[k]).req == Req::ActivateSize(space, size);
    assert(l2[k] == t[k]);
}

proof fn lemma_exposures(r: Known, l: Log, screens: Seq<Screen>, r2: Known, l2: Log)
    requires
        exposed_one_by_one(r, l, screens, r2, l2),
    ensures
        grew(l, l2),
        r2 == (Known { layout: r2.layout, ..r }),
        forall|i: int|
            0 <= i < screens.len() && (#[trigger] screens[i]).space is Some ==> exists|k: int|
                l.len() <= k < l2.len() && (#[trigger] l2[k]).req == Req::ActivateSize(
                    screens[i].space->0,
                    screens[i].frame.size,
                ),
    decreases screens.len(),
{
    if screens.len() > 0 {
        let front = screens.drop_last();
        let (m, t) = choose|m: Known, t: Log|
            exposed_one_by_one(r, l, front, m, t) && #[trigger] expose_step(
                m,
                t,
                screens.last(),
                r2,
                l2,
            );
        lemma_exposures(r, l, front, m, t);
        let last = screens.last();
        if let Some(space) = last.space {
            lemma_told_exposure(m, t, space, last.frame.size, r2, l2);
        }
        assert forall|i: int|
            0 <= i < screens.len() && (#[trigger] screens[i]).space is Some implies exists|k: int|
            l.len() <= k < l2.len() && (#[trigger] l2[k]).req == Req::ActivateSize(
                screens[i].space->0,
                screens[i].frame.size,
            ) by {
            if i < front.len() {
                assert(front[i] == screens[i]);
                let k = choose|k: int|
                    l.len() <= k < t.len() && (#[trigger] t[k]).req == Req::ActivateSize(
                        front[i].space->0,
                        front[i].frame.size,
                    );
                assert(l2[k] == t[k]);
            }
        }
    }
}

/// The screens are as they are told: as many as all three lists describe, each with its frame,
/// its space and its scale. The space of each is shown in the size of that screen. At the end
/// the change is reported with the spaces and the converter as they came.
#[verifier::rlimit(60)]
pub proof fn law_screens_are_as_told(
    r: Known,
    l: Log,
    frames: Vec<Frame>,
    spaces: Vec<Option<SpaceId>>,
    scale_factors: Vec<Real>,
    converter: Converter,
    r2: Known,
    l2: Log,
    outcome: Outcome,
)
    requires
        event_taken(
            r,
            l,
            (Event::ScreenParametersChanged { frames, spaces, scale_factors, converter }),
            r2,
            l2,
            outcome,
        ),
    ensures
        r2.screens.len() <= frames@.len(),
        r2.screens.len() <= spaces@.len(),
        r2.screens.len() <= scale_factors@.len(),
        r2.screens.len() == frames@.len() || r2.screens.len() == spaces@.len()
            || r2.screens.len() == scale_factors@.len(),
        forall|i: int|
            0 <= i < r2.screens.len() ==> #[trigger] r2.screens[i] == (Screen {
                frame: frames@[i],
                space: spaces@[i],
                scale_factor: scale_factors@[i],
            }),
        r2 == (Known { screens: r2.screens, layout: r2.layout, active: r2.active, ..r }),
        l2.len() > l.len(),
        l2.last().req == Req::ScreenParametersChanged(spaces@, converter),
        forall|i: int|
            0 <= i < r2.screens.len() && (#[trigger] r2.screens[i]).space is Some ==> exists|
                k: int,
            |
                l.len() <= k < l2.len() && (#[trigger] l2[k]).req == Req::ActivateSize(
                    r2.screens[i].space->0,
                    frames@[i].size,
                ),
{
    let screens = screens_from(frames@, spaces@, scale_factors@);
    let (m, t) = choose|m: Known, t: Log| #[trigger]
        exposed_one_by_one(Known { screens, ..r }, l, screens, m, t) && change_closed(
            m,
            t,
            spaces@,
            converter,
            r2,
            l2,
        );
    lemma_exposures(Known { screens, ..r }, l, screens, m, t);
    let u = choose|u: Log| #[trigger]
        active_updated(m, t, r2, u) && l2 == ask(
            u,
            l2,
            Req::ScreenParametersChanged(spaces@, converter),
        );
    lemma_active_grows(m, t, r2, u);
    assert forall|i: int|
        0 <= i < r2.screens.len() && (#[trigger] r2.screens[i]).space is Some implies exists|
        k: int,
    |
        l.len() <= k < l2.len() && (#[trigger] l2[k]).req == Req::ActivateSize(
            r2.screens[i].space->0,
            frames@[i].size,
        ) by {
        assert(screens[i].space is Some);
        let k = choose|k: int|
            l.len() <= k < t.len() && (#[trigger] t[k]).req == Req::ActivateSize(
                screens[i].space->0,
                screens[i].frame.size,
            );
        assert(u[k] == t[k]);
        assert(l2[k] == u[k]);
    }
}

proof fn lemma_active_grows(r: Known, l: Log, r2: Known, l2: Log)
    requires
        active_updated(r, l, r2, l2),
    ensures
        grew(l, l2),
        r2 == (Known { active: r2.active, ..r }),
{
    if r.main is Some && r.windows.contains_key(r.main->0) {
        let frame = r.windows[r.main->0].frame_monotonic;
        let (t, best) = choose|t: Log, best: Option<usize>| #[trigger]
            best_screen(l, r.screens, frame, t, best) && activated(r, t, best, r2, l2);
        assert(grew(l, t));
        assert(grew(t, l2));
    }
}

#[verifier::rlimit(60)]
proof fn lemma_gathered(
    s: State,
    l: Log,
    screens: Seq<Screen>,
    s2: State,
    l2: Log,
    response: Option<Response>,
)
    requires
        gathered(s, l, screens, s2, l2, response),
    ensures
        grew(l, l2),
        forall|i: int|
            0 <= i < screens.len() && (#[trigger] screens[i]).space is Some ==> exists|k: int|
                l.len() <= k < l2.len() && (#[trigger] l2[k]).req == Req::ActivateSize(
                    screens[i].space->0,
                    screens[i].frame.size,
                ),
    decreases screens.len(),
{
    if screens.len() > 0 {
        let front = screens.drop_last();
        let (m, t, before) = choose|m: State, t: Log, before: Option<Response>|
            gathered(s, l, front, m, t, before) && #[trigger] gather_step(
                m,
                t,
                screens.last(),
                before,
                s2,
                l2,
                response,
            );
        lemma_gathered(s, l, front, m, t, before);
        let last = screens.last();
        if let Some(space) = last.space {
            let one = choose|one: Response|
                {
                    &&& #[trigger] event_handled(
                        m,
                        t,
                        LayoutEventView::SpaceExposed(space, last.frame.size),
                        s2,
                        l2,
                        one,
                    )
                    &&& response == joined(before, one)
                };
            lemma_exposure(m, t, space, last.frame.size, s2, l2, one);
        }
        assert forall|i: int|
            0 <= i < screens.len() && (#[trigger] screens[i]).space is Some implies exists|k: int|
            l.len() <= k < l2.len() && (#[trigger] l2[k]).req == Req::ActivateSize(
                screens[i].space->0,
                screens[i].frame.size,
            ) by {
            if i < front.len() {
                assert(front[i] == screens[i]);
                let k = choose|k: int|
                    l.len() <= k < t.len() && (#[trigger] t[k]).req == Req::ActivateSize(
                        front[i].space->0,
                        front[i].frame.size,
                    );
                assert(l2[k] == t[k]);
            }
        }
    }
}

/// The windows that the spaces of the screens show, screen by screen.
pub open spec fn windows_shown(reply: spec_fn(Req) -> Rep, screens: Seq<Screen>) -> Seq<WindowId>
    decreases screens.len(),
{
    if screens.len() == 0 {
        Seq::empty()
    } else {
        let before = windows_shown(reply, screens.drop_last());
        match screens.last().space {
            Some(space) => before + shown_by(reply, space, screens.last().frame.size),
            None => before,
        }
    }
}

/// The windows that a space shows on a screen of the given size: those visible in the layout
/// that it has for that size.
pub open spec fn shown_by(reply: spec_fn(Req) -> Rep, space: SpaceId, size: Size) -> Seq<WindowId> {
    let layout = reply(Req::ActivateSize(space, size))->Layout_0;
    reply(Req::VisibleWindowsUnder(reply(Req::Root(layout))->Node_0))->Windows_0
}

proof fn lemma_gathered_response(
    s: State,
    l: Log,
    screens: Seq<Screen>,
    s2: State,
    l2: Log,
    response: Option<Response>,
    reply: spec_fn(Req) -> Rep,
    from: int,
)
    requires
        gathered(s, l, screens, s2, l2, response),
        answered_by(reply, l2, from),
        0 <= from <= l.len(),
        s.scroll_enabled,
    ensures
        s2.scroll_enabled,
        match response {
            Some(response) => response.raise == windows_shown(reply, screens)
                && response.focus is None,
            None => windows_shown(reply, screens) == Seq::<WindowId>::empty(),
        },
    decreases screens.len(),
{
    if screens.len() > 0 {
        let front = screens.drop_last();
        let last = screens.last();
        let (m, t, before) = choose|m: State, t: Log, before: Option<Response>|
            gathered(s, l, front, m, t, before) && #[trigger] gather_step(
                m,
                t,
                last,
                before,
                s2,
                l2,
                response,
            );
        lemma_gathered(s, l, front, m, t, before);
        if let Some(space) = last.space {
            let one = choose|one: Response|
                {
                    &&& #[trigger] event_handled(
                        m,
                        t,
                        LayoutEventView::SpaceExposed(space, last.frame.size),
                        s2,
                        l2,
                        one,
                    )
                    &&& response == joined(before, one)
                };
            lemma_exposure(m, t, space, last.frame.size, s2, l2, one);
            lemma_reply_part(reply, t, l2, from);
            lemma_gathered_response(s, l, front, m, t, before, reply, from);
            lemma_later(reply, l2, from, t.len() as int);
            law_shown_space_has_layout_for_size(
                m,
                t,
                space,
                last.frame.size,
                s2,
                l2,
                one,
                reply,
            );
            let earlier = windows_shown(reply, front);
            let more = shown_by(reply, space, last.frame.size);
            if before is None {
                assert(earlier + more =~= more);
            } else {
                law_first_focus_decides(before->0, one);
            }
        } else {
            lemma_gathered_response(s, l, front, m, t, before, reply, from);
        }
    }
}

/// Where other spaces come onto the screens, all windows that their layouts show there are
/// wanted on top, in one request, which is spared where they are on top already, by the order
/// of the windows on screen.
pub proof fn law_shown_windows_are_wanted_on_top(
    r: Known,
    l: Log,
    spaces: Vec<Option<SpaceId>>,
    on_screen: WindowsOnScreen,
    r2: Known,
    l2: Log,
    outcome: Outcome,
    reply: spec_fn(Req) -> Rep,
)
    requires
        event_taken(r, l, Event::SpaceChanged(spaces, on_screen), r2, l2, outcome),
        spaces@.len() == r.screens.len(),
        answered_by(reply, l2, l.len() as int),
        r.layout.scroll_enabled,
        exists|i: int| 0 <= i < spaces@.len() && (#[trigger] spaces@[i]) is Some,
    ensures
        exists|m: Known, t: Log, t1: Log, t2: Log, left: Response|
            {
                &&& #[trigger] response_filtered(
                    m,
                    t,
                    Response { raise: windows_shown(reply, r2.screens), focus: None },
                    on_screen.visible@,
                    t1,
                    left,
                )
                &&& #[trigger] raised(m, t1, left, false, t2)
                &&& grew(t2, l2)
                &&& m == Known { layout: m.layout, active: m.active, ..r2 }
            },
{
    let n = l.len() as int;
    law_spaces_come_onto_screens(r, l, spaces, on_screen, r2, l2, outcome);
    let m0 = moved_in(
        all_read(r, on_screen.visible@, on_screen.info@),
        spaces@,
    );
    let order = on_screen.visible@;
    let (s, t, response) = choose|s: State, t: Log, response: Option<Response>| #[trigger]
        gathered(m0.layout, l, m0.screens, s, t, response) && visit_raised(
            Known { layout: s, ..m0 },
            t,
            response,
            order,
            r2,
            l2,
        );
    let m = Known { layout: s, ..m0 };
    let t1 = choose|t1: Log| #[trigger]
        news_raised(m, t, response, order, t1) && visit_focused(m, t1, r2, l2);
    lemma_visit_grows(m, t1, r2, l2);
    lemma_gathered(m0.layout, l, m0.screens, s, t, response);
    lemma_news_grow(m, t, response, order, t1);
    lemma_reply_part(reply, t1, l2, n);
    lemma_reply_part(reply, t, t1, n);
    lemma_gathered_response(m0.layout, l, m0.screens, s, t, response, reply, n);
    let i = choose|i: int| 0 <= i < spaces@.len() && (#[trigger] spaces@[i]) is Some;
    assert(m0.screens[i].space is Some);
    lemma_some_response(m0.layout, l, m0.screens, s, t, response, i);
    let wanted = Response { raise: windows_shown(reply, r2.screens), focus: None };
    assert(m0.screens =~= r2.screens);
    assert(response == Some(wanted));
    let (u, left) = choose|u: Log, left: Response| #[trigger]
        response_filtered(m, t, wanted, order, u, left) && raised(m, u, left, false, t1);
    assert(m == Known { layout: m.layout, active: m.active, ..r2 });
}

proof fn lemma_some_response(
    s: State,
    l: Log,
    screens: Seq<Screen>,
    s2: State,
    l2: Log,
    response: Option<Response>,
    i: int,
)
    requires
        gathered(s, l, screens, s2, l2, response),
        0 <= i < screens.len(),
        screens[i].space is Some,
    ensures
        response is Some,
    decreases screens.len(),
{
    let front = screens.drop_last();
    let (m, t, before) = choose|m: State, t: Log, before: Option<Response>|
        gathered(s, l, front, m, t, before) && #[trigger] gather_step(
            m,
            t,
            screens.last(),
            before,
            s2,
            l2,
            response,
        );
    if i < front.len() {
        assert(front[i] == screens[i]);
        lemma_some_response(s, l, front, m, t, before, i);
    }
}

proof fn lemma_news_grow(
    r: Known,
    l: Log,
    response: Option<Response>,
    order: Seq<WindowServerId>,
    l2: Log,
)
    requires
        news_raised(r, l, response, order, l2),
    ensures
        grew(l, l2),
{
    if let Some(response) = response {
        let (u, left) = choose|u: Log, left: Response| #[trigger]
            response_filtered(r, l, response, order, u, left) && raised(r, u, left, false, l2);
        lemma_filtered_grows(r, l, response, order, u, left);
        lemma_raised_grows(r, u, left, false, l2);
    }
}

proof fn lemma_visit_grows(r: Known, l: Log, r2: Known, l2: Log)
    requires
        visit_focused(r, l, r2, l2),
    ensures
        grew(l, l2),
{
    let (m1, t2) = choose|m1: Known, t2: Log| #[trigger]
        main_told(r, l, true, m1, t2) && visit_closed(m1, t2, r2, l2);
    lemma_main_told_grows(r, l, true, m1, t2);
    let t3 = choose|t3: Log| #[trigger] active_updated(m1, t2, r2, t3) && all_asked(r2, t3, l2);
    lemma_active_grows(m1, t2, r2, t3);
    let pids = choose|pids: Seq<i32>| #[trigger]
        lists(pids, r2.apps) && l2 == ask_each(t3, l2, visibility_questions(r2.apps, pids));
    assert(grew(t3, l2));
}

/// Where the screens change, the windows that a space shows on its screen are raised as it is
/// shown there; none is focused.
pub proof fn law_exposed_space_raises_its_windows(
    r: Known,
    l: Log,
    screen: Screen,
    space: SpaceId,
    r2: Known,
    l2: Log,
    reply: spec_fn(Req) -> Rep,
)
    requires
        expose_step(r, l, screen, r2, l2),
        screen.space == Some(space),
        answered_by(reply, l2, l.len() as int),
        r.layout.scroll_enabled,
    ensures
        ({
            let size = screen.frame.size;
            let shown = shown_by(reply, space, size);
            let opened = if r.layout.spaces.contains_key(space) {
                seq![Req::ActivateSize(space, size)]
            } else {
                seq![
                    Req::OpenSpace(space, size, r.layout.default_kind),
                    Req::ActivateSize(space, size),
                ]
            };
            let done = deeds(l2, l.len() as int);
            &&& r2.layout.spaces == r.layout.spaces.insert(
                space,
                reply(Req::ActivateSize(space, size))->Layout_0,
            )
            &&& shown.len() == 0 ==> done == opened
            &&& shown.len() > 0 ==> done.len() == opened.len() + 1 && done.drop_last() == opened
                && done.last() is Raise && asks_for(
                reply,
                r2,
                Response { raise: shown, focus: None },
                false,
                done.last()->Raise_0,
            )
        }),
{
    let n = l.len() as int;
    let size = screen.frame.size;
    let event = LayoutEventView::SpaceExposed(space, size);
    let (s, t, response) = choose|s: State, t: Log, response: Response|
        {
            &&& #[trigger] event_handled(r.layout, l, event, s, t, response)
            &&& r2 == Known { layout: s, ..r }
            &&& answered(r2, t, response, Seq::empty(), false, l2)
        };
    lemma_exposure(r.layout, l, space, size, s, t, response);
    lemma_raised_grows(r2, t, response, false, l2);
    lemma_reply_part(reply, t, l2, n);
    law_shown_space_has_layout_for_size(r.layout, l, space, size, s, t, response, reply);
    lemma_later(reply, l2, n, t.len() as int);
    law_response_is_passed_on(r2, t, response, false, l2, reply);
    lemma_deeds_join(l, t, l2);
    assert(response == Response { raise: shown_by(reply, space, size), focus: None });
    let first = deeds(t, n);
    let then = deeds(l2, t.len() as int);
    if then.len() == 0 {
        assert(first + then =~= first);
    } else {
        assert((first + then).drop_last() =~= first);
    }
}

/// Where other spaces come onto the screens, every screen has the space that is told for it,
/// and stays otherwise as it was; the windows on screen and their frames are read; nothing is
/// being dragged any more. The main window is told to the layout manager as the focused one,
/// and at the end every application is asked for its visible windows.
#[verifier::rlimit(60)]
pub proof fn law_spaces_come_onto_screens(
    r: Known,
    l: Log,
    spaces: Vec<Option<SpaceId>>,
    on_screen: WindowsOnScreen,
    r2: Known,
    l2: Log,
    outcome: Outcome,
)
    requires
        event_taken(r, l, Event::SpaceChanged(spaces, on_screen), r2, l2, outcome),
        spaces@.len() == r.screens.len(),
    ensures
        r2.screens.len() == r.screens.len(),
        forall|i: int|
            0 <= i < r.screens.len() ==> #[trigger] r2.screens[i] == (Screen {
                space: spaces@[i],
                ..r.screens[i]
            }),
        !r2.in_drag,
        r2 == (Known {
            layout: r2.layout,
            screens: r2.screens,
            active: r2.active,
            in_drag: false,
            windows: frames_read(r.windows, r.window_ids, on_screen.info@),
            server_info: infos_noted(r.server_info, on_screen.info@),
            visible: r2.visible,
            ..r
        }),
        r.main is Some ==> r2.layout.focused == r.main,
        outcome == (Outcome::Settle { new: None, is_resize: false }),
        exists|t: Log, pids: Seq<i32>|
            {
                &&& #[trigger] lists(pids, r.apps)
                &&& #[trigger] grew(t, l2)
                &&& deeds(l2, t.len() as int) == Seq::new(
                    pids.len(),
                    |i: int| Req::GetVisibleWindows(r.apps[pids[i]].handle),
                )
            },
{
    let m0 = moved_in(
        all_read(r, on_screen.visible@, on_screen.info@),
        spaces@,
    );
    let order = on_screen.visible@;
    let (s, t, response) = choose|s: State, t: Log, response: Option<Response>| #[trigger]
        gathered(m0.layout, l, m0.screens, s, t, response) && visit_raised(
            Known { layout: s, ..m0 },
            t,
            response,
            order,
            r2,
            l2,
        );
    let m = Known { layout: s, ..m0 };
    let t1 = choose|t1: Log| #[trigger]
        news_raised(m, t, response, order, t1) && visit_focused(m, t1, r2, l2);
    let (m1, t2) = choose|m1: Known, t2: Log| #[trigger]
        main_told(m, t1, true, m1, t2) && visit_closed(m1, t2, r2, l2);
    if let Some(wid) = m.main {
        lemma_told_quietly(
            m,
            t1,
            LayoutEventView::WindowFocused(spaces_of(m.screens), wid),
            m1,
            t2,
        );
    }
    let t3 = choose|t3: Log| #[trigger] active_updated(m1, t2, r2, t3) && all_asked(r2, t3, l2);
    lemma_active_grows(m1, t2, r2, t3);
    let pids = choose|pids: Seq<i32>| #[trigger]
        lists(pids, r2.apps) && l2 == ask_each(t3, l2, visibility_questions(r2.apps, pids));
    let all = visibility_questions(r2.apps, pids);
    lemma_each_done(t3, l2, all);
    assert(all =~= Seq::new(
        pids.len(),
        |i: int| Req::GetVisibleWindows(r.apps[pids[i]].handle),
    ));
}

/// New windows are known by what their application says of them, each by the last that it says,
/// with no write to it yet; and by the window server's names for them.
pub proof fn law_new_windows_are_known(r: Known, new: Seq<(WindowId, WindowInfo)>, i: int)
    requires
        0 <= i < new.len(),
        forall|j: int| i < j < new.len() ==> (#[trigger] new[j]).0 != new[i].0,
    ensures
        ({
            let (wid, info) = new[i];
            let known = windows_noted(r, new);
            &&& known.windows.contains_key(wid)
            &&& known.windows[wid].title == info.title
            &&& known.windows[wid].frame_monotonic == info.frame
            &&& known.windows[wid].is_ax_standard == info.is_standard
            &&& known.windows[wid].is_resizable == info.is_resizable
            &&& known.windows[wid].last_sent_txid.0 == 0
            &&& known.windows[wid].window_server_id == info.sys_id
            &&& info.sys_id is Some && (forall|j: int|
                i < j < new.len() ==> (#[trigger] new[j]).1.sys_id != info.sys_id)
                ==> known.window_ids.contains_key(info.sys_id->0)
                && known.window_ids[info.sys_id->0] == wid
        }),
    decreases new.len(),
{
    let front = new.drop_last();
    let last = new.len() - 1;
    assert(new[last] == new.last());
    if i < last {
        assert(front[i] == new[i]);
        assert(new[last].0 != new[i].0);
        assert forall|j: int| i < j < front.len() implies (#[trigger] front[j]).0 != front[i].0 by {
            assert(new[j].0 != new[i].0);
        }
        law_new_windows_are_known(r, front, i);
        let info = new[i].1;
        if info.sys_id is Some && (forall|j: int|
            i < j < new.len() ==> (#[trigger] new[j]).1.sys_id != info.sys_id) {
            assert(new[last].1.sys_id != info.sys_id);
            assert forall|j: int| i < j < front.len() implies (#[trigger] front[j]).1.sys_id
                != info.sys_id by {
                assert(new[j].1.sys_id != info.sys_id);
            }
        }
    }
}

/// Windows that are not new stay known as they were.
pub proof fn law_other_windows_stay_known(r: Known, new: Seq<(WindowId, WindowInfo)>, wid: WindowId)
    requires
        forall|j: int| 0 <= j < new.len() ==> (#[trigger] new[j]).0 != wid,
    ensures
        windows_noted(r, new).windows.contains_key(wid) <==> r.windows.contains_key(wid),
        windows_noted(r, new).windows[wid] == r.windows[wid],
    decreases new.len(),
{
    if new.len() > 0 {
        let front = new.drop_last();
        assert(new[new.len() - 1].0 != wid);
        assert forall|j: int| 0 <= j < front.len() implies (#[trigger] front[j]).0 != wid by {
            assert(new[j].0 != wid);
        }
        law_other_windows_stay_known(r, front, wid);
    }
}

/// A configuration that is changed is the one that counts, for the layout manager too, which
/// gets its checked settings of scroll layouts.
pub proof fn law_changed_configuration_counts(
    r: Known,
    l: Log,
    config: Config,
    r2: Known,
    l2: Log,
    outcome: Outcome,
)
    requires
        event_taken(r, l, Event::ConfigChanged(config), r2, l2, outcome),
    ensures
        r2 == (Known { config, layout: r2.layout, ..r }),
        r2.layout.scroll == config.valid_scroll@,
        r2.layout.scroll_enabled == config.valid_scroll.enable,
        r2.layout.default_kind == if config.valid_scroll.enable {
            config.default_layout_kind
        } else {
            LayoutKind::Tree
        },
        outcome == (Outcome::Settle { new: None, is_resize: false }),
{
    if !config.valid_scroll.enable {
        let s1 = configured(r.layout, config);
        let spaces = choose|spaces: Seq<SpaceId>| #[trigger]
            lists(spaces, r.layout.spaces) && kinds_allowed(
                s1,
                l,
                spaces,
                r2.layout,
                l2,
            );
        lemma_kinds_keep(s1, l, spaces, r2.layout, l2);
    }
}

/// Bringing layouts in line changes no settings.
proof fn lemma_kinds_keep(s: State, l: Log, spaces: Seq<SpaceId>, s2: State, l2: Log)
    requires
        kinds_allowed(s, l, spaces, s2, l2),
    ensures
        s2 == (State { spaces: s2.spaces, viewports: s2.viewports, ..s }),
    decreases spaces.len(),
{
    if spaces.len() > 0 {
        let (m, t) = choose|m: State, t: Log|
            kinds_allowed(s, l, spaces.drop_last(), m, t)
                && #[trigger] kind_allowed(
                m,
                t,
                spaces.last(),
                s2,
                l2,
            );
        lemma_kinds_keep(s, l, spaces.drop_last(), m, t);
    }
}

/// The layouts of all screens that have a space are shown, in order, each with the windows
/// that float there; nothing else is done.
pub proof fn law_layouts_are_shown(
    r: Known,
    l: Log,
    r2: Known,
    l2: Log,
    outcome: Outcome,
    i: int,
)
    requires
        event_taken(
            r,
            l,
            Event::Command(Command::Reactor(ReactorCommand::Debug)),
            r2,
            l2,
            outcome,
        ),
    ensures
        r2 == r,
        ({
            let done = deeds(l2, l.len() as int);
            let spaces = spaces_of(r.screens);
            &&& done.len() == spaces.len()
            &&& 0 <= i < spaces.len() ==> {
                let shown = done[i]->ShowLayout_0;
                &&& done[i] is ShowLayout
                &&& shown.space == spaces[i]
                &&& shown.print
                &&& shown.layout == if r.layout.spaces.contains_key(spaces[i]) {
                    Some(r.layout.spaces[spaces[i]])
                } else {
                    None
                }
                &&& shown.floating == floats_in(
                    r.layout.active_floating,
                    spaces[i],
                )
            }
        }),
{
    let all = layouts_shown(r.layout, r.screens);
    lemma_each_done(l, l2, all);
}

/// An event is taken with the main window that it has made, and then the focus and the layout
/// are brought up to date with the window that it has raised.
pub proof fn law_event_is_taken_then_settled(
    r: Known,
    l: Log,
    event: Event,
    raised_window: Option<WindowId>,
    main_window: Option<WindowId>,
    r2: Known,
    l2: Log,
)
    requires
        event_answered(r, l, event, raised_window, main_window, r2, l2),
    ensures
        exists|m: Known, t: Log, outcome: Outcome|
            {
                &&& #[trigger] event_taken(
                    Known { main: main_window, ..r },
                    l,
                    event,
                    m,
                    t,
                    outcome,
                )
                &&& settled(m, t, raised_window, outcome, r2, l2)
            },
{
}

/// A step of the reactor asks to be woken exactly if no viewport was in motion before the
/// event and some is afterwards.
pub proof fn law_step_wakes_for_new_motion(
    r: Known,
    l: Log,
    event: Event,
    raised_window: Option<WindowId>,
    main_window: Option<WindowId>,
    r2: Known,
    l2: Log,
    wake: bool,
)
    requires
        step_taken(r, l, event, raised_window, main_window, r2, l2, wake),
    ensures
        exists|t: Log, t2: Log, before: bool|
            {
                &&& #[trigger] in_motion(r.layout, l, t, before)
                &&& #[trigger] event_answered(
                    r,
                    t,
                    event,
                    raised_window,
                    main_window,
                    r2,
                    t2,
                )
                &&& before ==> l2 == t2 && !wake
                &&& !before ==> in_motion(r2.layout, t2, l2, wake)
            },
{
    let (t, before) = choose|t: Log, before: bool| #[trigger]
        in_motion(r.layout, l, t, before) && answered_then_asked(
            r,
            t,
            event,
            raised_window,
            main_window,
            before,
            r2,
            l2,
            wake,
        );
    let t2 = choose|t2: Log|
        {
            &&& #[trigger] event_answered(r, t, event, raised_window, main_window, r2, t2)
            &&& if before {
                l2 == t2 && !wake
            } else {
                in_motion(r2.layout, t2, l2, wake)
            }
        };
    assert(in_motion(r.layout, l, t, before));
}

/// At the start nothing is known: no space, no window, no screen; nothing floats, has the focus
/// or is held, and new spaces are to have tree layouts.
pub proof fn law_nothing_is_known_at_the_start(scroll: ScrollView, config: Config, layout: State)
    ensures
        fresh(scroll).spaces == Map::<SpaceId, LayoutId>::empty(),
        fresh(scroll).floating.len() == 0,
        fresh(scroll).active_floating.len() == 0,
        fresh(scroll).viewports.len() == 0,
        fresh(scroll).focused is None,
        fresh(scroll).last_floating is None,
        fresh(scroll).resizing is None,
        fresh(scroll).moving is None,
        !fresh(scroll).scroll_enabled,
        fresh(scroll).default_kind == LayoutKind::Tree,
        fresh(scroll).scroll == scroll,
        started(config, layout).config == config,
        started(config, layout).layout == layout,
        started(config, layout).apps == Map::<i32, AppState>::empty(),
        started(config, layout).windows == Map::<WindowId, WindowState>::empty(),
        started(config, layout).server_info == Map::<WindowServerId, WindowServerInfo>::empty(),
        started(config, layout).window_ids == Map::<WindowServerId, WindowId>::empty(),
        started(config, layout).visible.len() == 0,
        started(config, layout).screens.len() == 0,
        started(config, layout).active is None,
        started(config, layout).main is None,
        !started(config, layout).in_drag,
{
}

/// Whether events of this sort are so many that they drown others.
pub proof fn law_drags_and_frames_come_often(event: Event)
    ensures
        event.comes_often() <==> event is WindowFrameChanged || event is MouseUp
            || event is LeftMouseDown || event is LeftMouseDragged,
{
}

/// After an event the layout is brought up to date. It is not after a change of spaces that
/// does not fit the screens, after a turn of the wheel that does not count, and where the
/// program ends. Only a window that changed its frame counts as resized, and only a window
/// that became visible counts as new.
pub proof fn law_layout_follows_events(
    r: Known,
    l: Log,
    event: Event,
    r2: Known,
    l2: Log,
    outcome: Outcome,
)
    requires
        event_taken(r, l, event, r2, l2, outcome),
    ensures
        !(event is WindowFrameChanged) && !(event is WindowBecameVisible) && outcome is Settle
            ==> outcome == (Outcome::Settle { new: None, is_resize: false }),
        match event {
            Event::WindowFrameChanged(_, _, _, _, _) => outcome is Settle
                ==> outcome->new is None,
            Event::WindowBecameVisible(wid) => {
                ||| outcome == (Outcome::Settle { new: None, is_resize: false })
                ||| outcome == (Outcome::Settle { new: Some(wid), is_resize: false })
            },
            Event::SpaceChanged(spaces, _) => outcome is Settle <==> spaces@.len()
                == r.screens.len(),
            Event::MouseMovedOverWindow(wsid) => outcome is Settle ==> r.window_ids.contains_key(
                wsid,
            ),
            Event::ScrollWheel { delta_x: _, delta_y: _, alt_held } => outcome is Settle <==> (
            r.config.scroll.enable && alt_held),
            Event::Command(Command::Reactor(ReactorCommand::SaveAndExit)) => outcome is Done,
            _ => outcome is Settle,
        },
{
}

} // verus!
