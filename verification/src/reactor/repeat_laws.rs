//! Laying out again what is laid out already moves nothing.

use vstd::prelude::*;

use crate::config::Config;
use crate::ids::{ConfigId, Frame, GroupBar, LayoutId, SpaceId, WindowId};
use crate::layout::state::State;
use crate::layout::viewport::{
    bar_questions, below_floats, column_place, frame_of, frames_and_groups_shown, in_motion,
    scrolled_to, selection_followed, viewport_followed, viewport_open,
};
use crate::link::{answer, ask, ask_each, grew, Log, Rep, Req};
use crate::messages::WindowMove;
use crate::reactor::placement::{
    animation_mode, frames_applied, laid_out, layout_applied, moves_made, moves_sent, place_step,
    placed, screen_step, screens_laid_out,
};
use crate::reactor::state::{Known, Screen};

verus! {

/// From place `from` on, nothing was asked that moves a window.
pub open spec fn moves_not_asked(log: Log, from: int) -> bool {
    forall|i: int|
        from <= i < log.len() ==> !((#[trigger] log[i]).req is Animate) && !(
        log[i].req is JumpToEnd)
}

proof fn lemma_moves_not_asked(l: Log, t: Log, l2: Log)
    requires
        grew(l, t),
        grew(t, l2),
        moves_not_asked(t, l.len() as int),
        moves_not_asked(l2, t.len() as int),
    ensures
        moves_not_asked(l2, l.len() as int),
{
    assert forall|i: int| l.len() <= i < l2.len() implies !((#[trigger] l2[i]).req is Animate) && !(
    l2[i].req is JumpToEnd) by {
        if i < t.len() {
            assert(l2[i] == t[i]);
        }
    }
}

pub proof fn lemma_followed_grows(
    s: State,
    l: Log,
    space: SpaceId,
    screen: Frame,
    config: Config,
    s2: State,
    l2: Log,
)
    requires
        viewport_followed(s, l, space, screen, config, s2, l2),
    ensures
        grew(l, l2),
        moves_not_asked(l2, l.len() as int),
        s2 == (State { viewports: s2.viewports, ..s }),
        s.scroll_enabled ==> l2.len() > l.len() && l2[l.len() as int].req == Req::IsScrollLayout(
            s.spaces[space],
        ),
        s.scroll_enabled && !l2[l.len() as int].rep->Flag_0 ==> s2 == s,
        !s.scroll_enabled ==> s2 == s,
{
    if s.scroll_enabled {
        let layout = s.spaces[space];
        let t1 = ask(l, l2, Req::IsScrollLayout(layout));
        if answer(t1)->Flag_0 {
            let t2 = ask(t1, l2, Req::IsUserScrolling(layout));
            if s.viewports.contains(layout) && !answer(t2)->Flag_0 {
                lemma_selection_followed_grows(s, t2, layout, screen, config, s2, l2);
                assert(grew(t2, l2));
                lemma_moves_not_asked(l, t2, l2);
                assert(l2[l.len() as int] == t2[l.len() as int]);
            } else if !s.viewports.contains(layout) {
                lemma_selection_followed_grows(s, t1, layout, screen, config, s2, l2);
                assert(grew(t1, l2));
                lemma_moves_not_asked(l, t1, l2);
                assert(l2[l.len() as int] == t1[l.len() as int]);
            }
        }
    }
}

proof fn lemma_selection_followed_grows(
    s: State,
    l: Log,
    layout: LayoutId,
    screen: Frame,
    config: Config,
    s2: State,
    l2: Log,
)
    requires
        selection_followed(s, l, layout, screen, config, s2, l2),
    ensures
        grew(l, l2),
        moves_not_asked(l2, l.len() as int),
        s2 == (State { viewports: s2.viewports, ..s }),
{
    let t1 = ask(l, l2, Req::CalculateLayout(layout, screen, config.id));
    let t2 = ask(t1, l2, Req::Selection(layout));
    let t3 = ask(t2, l2, Req::WindowAt(answer(t2)->Node_0));
    let t4 = ask(t3, l2, Req::Columns(layout));
    let t5 = ask(t4, l2, Req::ColumnOf(layout, answer(t2)->Node_0));
    let frame = match answer(t3)->MaybeWindow_0 {
        Some(wid) => frame_of(answer(t1)->Frames_0, wid),
        None => None,
    };
    let place = match answer(t5)->MaybeNode_0 {
        Some(column) => Some(column_place(answer(t4)->Nodes_0, column)),
        None => None,
    };
    assert(scrolled_to(s, t5, layout, screen, config, frame, place, s2, l2));
    let t = choose|t: Log|
        {
            let t1 = ask(t, l2, Req::SetScreenWidth(layout, screen.size.width));
            &&& #[trigger] viewport_open(s, t5, layout, screen.size.width, s2, t)
            &&& l2 == match (frame, place) {
                (Some(frame), Some(place)) => ask(
                    t1,
                    l2,
                    Req::EnsureColumnVisible(
                        layout,
                        place as usize,
                        frame.origin.x,
                        frame.size.width,
                        config.scroll.center_focused_column,
                        config.inner_gap,
                    ),
                ),
                _ => t1,
            }
        };
    assert(grew(t5, t));
    lemma_moves_not_asked(l, t5, t);
    lemma_moves_not_asked(l, t, l2);
}

proof fn lemma_shown(
    s: State,
    l: Log,
    space: SpaceId,
    screen: Frame,
    config: ConfigId,
    l2: Log,
    frames: Seq<(WindowId, Frame)>,
    groups: Seq<GroupBar>,
)
    requires
        frames_and_groups_shown(s, l, space, screen, config, l2, frames, groups),
    ensures
        grew(l, l2),
        moves_not_asked(l2, l.len() as int),
        l2.len() > l.len(),
        l2[l.len() as int].req == Req::CalculateLayoutAndGroups(s.spaces[space], screen, config),
        s.scroll_enabled ==> l2.len() > l.len() + 1 && l2[l.len() as int + 1].req
            == Req::IsScrollLayout(s.spaces[space]),
        s.scroll_enabled && l2[l.len() as int + 1].rep->Flag_0 || frames
            == l2[l.len() as int].rep->Groups_0,
{
    let layout = s.spaces[space];
    let t1 = ask(l, l2, Req::CalculateLayoutAndGroups(layout, screen, config));
    let bars = below_floats(answer(t1)->Groups_1, s.is_floating());
    if s.scroll_enabled {
        let t2 = ask(t1, l2, Req::IsScrollLayout(layout));
        if answer(t2)->Flag_0 && s.viewports.contains(layout) {
            let t3 = ask(t2, l2, Req::ApplyViewport(layout, screen, answer(t1)->Groups_0));
            assert(l2 == ask_each(t3, l2, bar_questions(layout, bars)));
            assert forall|i: int| t3.len() <= i < l2.len() implies (#[trigger] l2[i]).req
                is OffsetRect by {
                assert(l2[i].req == bar_questions(layout, bars)[i - t3.len()]);
            }
        }
    }
}

/// What a screen is given: where the record stands, what is known of the layout and which
/// frames there are, when its windows are about to be placed.
proof fn lemma_screen_opened(
    r: Known,
    l: Log,
    screen: Screen,
    new_wids: Seq<WindowId>,
    hold: bool,
    moves: Seq<WindowMove>,
    r2: Known,
    l2: Log,
    moves2: Seq<WindowMove>,
) -> (opened: (State, Log, Seq<(WindowId, Frame)>))
    requires
        screen_step(r, l, screen, new_wids, hold, moves, r2, l2, moves2),
        screen.space is Some,
    ensures
        ({
            let (s, t, frames) = opened;
            let layout = r.layout.spaces[screen.space->0];
            &&& grew(l, t)
            &&& grew(t, l2)
            &&& moves_not_asked(t, l.len() as int)
            &&& moves_not_asked(l2, t.len() as int)
            &&& placed(
                Known { layout: s, ..r },
                t,
                screen,
                new_wids,
                moves,
                frames,
                r2,
                l2,
                moves2,
            )
            &&& s == State { viewports: s.viewports, ..r.layout }
            &&& (forall|i: int|
                l.len() <= i < t.len() && (#[trigger] t[i]).req == Req::IsScrollLayout(layout)
                    ==> !t[i].rep->Flag_0) ==> s == r.layout && exists|i: int|
                l.len() <= i < t.len() && (#[trigger] t[i]).req == Req::CalculateLayoutAndGroups(
                    layout,
                    screen.frame,
                    r.config.id,
                ) && frames == t[i].rep->Groups_0
        }),
{
    let space = screen.space->0;
    let layout = r.layout.spaces[space];
    let (s, t0) = if hold {
        (r.layout, l)
    } else {
        choose|s: State, t: Log|
            {
                &&& #[trigger] viewport_followed(r.layout, l, space, screen.frame, r.config, s, t)
                &&& layout_applied(
                    Known { layout: s, ..r },
                    t,
                    space,
                    screen,
                    new_wids,
                    moves,
                    r2,
                    l2,
                    moves2,
                )
            }
    };
    if !hold {
        lemma_followed_grows(r.layout, l, space, screen.frame, r.config, s, t0);
    }
    let m = Known { layout: s, ..r };
    assert(layout_applied(m, t0, space, screen, new_wids, moves, r2, l2, moves2));
    let (t1, frames, groups) = choose|
        t1: Log,
        frames: Seq<(WindowId, Frame)>,
        groups: Seq<GroupBar>,
    |
        {
            &&& #[trigger] frames_and_groups_shown(
                m.layout,
                t0,
                space,
                screen.frame,
                m.config.id,
                t1,
                frames,
                groups,
            )
            &&& frames_applied(
                m,
                t1,
                space,
                screen,
                new_wids,
                moves,
                frames,
                groups,
                r2,
                l2,
                moves2,
            )
        };
    lemma_shown(m.layout, t0, space, screen.frame, m.config.id, t1, frames, groups);
    lemma_moves_not_asked(l, t0, t1);
    let t = ask(t1, l2, Req::GroupsUpdated(space, groups));
    lemma_placed_grows(m, t, screen, new_wids, moves, frames, r2, l2, moves2);
    lemma_moves_not_asked(l, t1, t);
    let n = t0.len() as int;
    let asked = Req::CalculateLayoutAndGroups(layout, screen.frame, r.config.id);
    assert(t[n] == t1[n] && t1[n].req == asked);
    if forall|i: int|
        l.len() <= i < t.len() && (#[trigger] t[i]).req == Req::IsScrollLayout(layout)
            ==> !t[i].rep->Flag_0 {
        if r.layout.scroll_enabled {
            if !hold {
                assert(t[l.len() as int] == t0[l.len() as int]);
                assert(s == r.layout);
            }
            assert(t[n + 1] == t1[n + 1] && t1[n + 1].req == Req::IsScrollLayout(layout));
        }
        assert(frames == t[n].rep->Groups_0);
    }
    (s, t, frames)
}

proof fn lemma_placed_grows(
    r: Known,
    l: Log,
    screen: Screen,
    new_wids: Seq<WindowId>,
    moves: Seq<WindowMove>,
    frames: Seq<(WindowId, Frame)>,
    r2: Known,
    l2: Log,
    moves2: Seq<WindowMove>,
)
    requires
        placed(r, l, screen, new_wids, moves, frames, r2, l2, moves2),
    ensures
        grew(l, l2),
        moves_not_asked(l2, l.len() as int),
        r2 == (Known { windows: r2.windows, ..r }),
    decreases frames.len(),
{
    if frames.len() > 0 {
        let (m, t, before) = choose|m: Known, t: Log, before: Seq<WindowMove>|
            {
                &&& placed(r, l, screen, new_wids, moves, frames.drop_last(), m, t, before)
                &&& #[trigger] place_step(
                    m,
                    t,
                    screen,
                    new_wids,
                    before,
                    frames.last(),
                    r2,
                    l2,
                    moves2,
                )
            };
        lemma_placed_grows(r, l, screen, new_wids, moves, frames.drop_last(), m, t, before);
        lemma_moves_not_asked(l, t, l2);
    }
}

proof fn lemma_screen_grows(
    r: Known,
    l: Log,
    screen: Screen,
    new_wids: Seq<WindowId>,
    hold: bool,
    moves: Seq<WindowMove>,
    r2: Known,
    l2: Log,
    moves2: Seq<WindowMove>,
)
    requires
        screen_step(r, l, screen, new_wids, hold, moves, r2, l2, moves2),
    ensures
        grew(l, l2),
        moves_not_asked(l2, l.len() as int),
{
    if screen.space is Some {
        let (s, t, frames) = lemma_screen_opened(
            r,
            l,
            screen,
            new_wids,
            hold,
            moves,
            r2,
            l2,
            moves2,
        );
        lemma_moves_not_asked(l, t, l2);
    }
}

pub proof fn lemma_screens_grow(
    r: Known,
    l: Log,
    screens: Seq<Screen>,
    new_wids: Seq<WindowId>,
    hold: bool,
    r2: Known,
    l2: Log,
    moves: Seq<WindowMove>,
)
    requires
        screens_laid_out(r, l, screens, new_wids, hold, r2, l2, moves),
    ensures
        grew(l, l2),
        moves_not_asked(l2, l.len() as int),
    decreases screens.len(),
{
    if screens.len() > 0 {
        let (m, t, before) = choose|m: Known, t: Log, before: Seq<WindowMove>|
            {
                &&& screens_laid_out(r, l, screens.drop_last(), new_wids, hold, m, t, before)
                &&& #[trigger] screen_step(
                    m,
                    t,
                    screens.last(),
                    new_wids,
                    hold,
                    before,
                    r2,
                    l2,
                    moves,
                )
            };
        lemma_screens_grow(r, l, screens.drop_last(), new_wids, hold, m, t, before);
        lemma_screen_grows(m, t, screens.last(), new_wids, hold, before, r2, l2, moves);
        lemma_moves_not_asked(l, t, l2);
    }
}

/// From place `from` on, every window was found to look as it should.
pub open spec fn all_look_same(log: Log, from: int) -> bool {
    forall|i: int|
        from <= i < log.len() && (#[trigger] log[i]).req is LooksSame ==> log[i].rep->Flag_0
}

/// From place `from` on, no window is given a frame: nothing is animated, and what is
/// made at once is nothing.
pub open spec fn nothing_moved(log: Log, from: int) -> bool {
    forall|i: int|
        from <= i < log.len() ==> {
            &&& !((#[trigger] log[i]).req is Animate)
            &&& log[i].req is JumpToEnd ==> log[i].req == Req::JumpToEnd(Seq::<WindowMove>::empty())
        }
}

/// Where every window looks as it should, none is moved.
proof fn lemma_placed_same(
    r: Known,
    l: Log,
    screen: Screen,
    new_wids: Seq<WindowId>,
    moves: Seq<WindowMove>,
    frames: Seq<(WindowId, Frame)>,
    r2: Known,
    l2: Log,
    moves2: Seq<WindowMove>,
    whole: Log,
)
    requires
        placed(r, l, screen, new_wids, moves, frames, r2, l2, moves2),
        grew(l2, whole),
        all_look_same(whole, l.len() as int),
    ensures
        r2 == r,
        moves2 == moves,
    decreases frames.len(),
{
    if frames.len() > 0 {
        let (m, t, before) = choose|m: Known, t: Log, before: Seq<WindowMove>|
            {
                &&& placed(r, l, screen, new_wids, moves, frames.drop_last(), m, t, before)
                &&& #[trigger] place_step(
                    m,
                    t,
                    screen,
                    new_wids,
                    before,
                    frames.last(),
                    r2,
                    l2,
                    moves2,
                )
            };
        lemma_placed_grows(r, l, screen, new_wids, moves, frames.drop_last(), m, t, before);
        assert(grew(t, l2));
        assert(grew(t, whole));
        lemma_placed_same(
            r,
            l,
            screen,
            new_wids,
            moves,
            frames.drop_last(),
            m,
            t,
            before,
            whole,
        );
        if m.windows.contains_key(frames.last().0) {
            let n = t.len() as int;
            assert(whole[n + 1] == l2[n + 1] && l2[n + 1].req is LooksSame);
        }
    }
}

proof fn lemma_screens_same(
    r: Known,
    l: Log,
    screens: Seq<Screen>,
    new_wids: Seq<WindowId>,
    hold: bool,
    r2: Known,
    l2: Log,
    moves: Seq<WindowMove>,
    whole: Log,
)
    requires
        screens_laid_out(r, l, screens, new_wids, hold, r2, l2, moves),
        grew(l2, whole),
        all_look_same(whole, l.len() as int),
    ensures
        r2.windows == r.windows,
        moves == Seq::<WindowMove>::empty(),
    decreases screens.len(),
{
    if screens.len() > 0 {
        let (m, t, before) = choose|m: Known, t: Log, before: Seq<WindowMove>|
            {
                &&& screens_laid_out(r, l, screens.drop_last(), new_wids, hold, m, t, before)
                &&& #[trigger] screen_step(
                    m,
                    t,
                    screens.last(),
                    new_wids,
                    hold,
                    before,
                    r2,
                    l2,
                    moves,
                )
            };
        lemma_screens_grow(r, l, screens.drop_last(), new_wids, hold, m, t, before);
        lemma_screen_grows(m, t, screens.last(), new_wids, hold, before, r2, l2, moves);
        assert(grew(t, whole));
        lemma_screens_same(r, l, screens.drop_last(), new_wids, hold, m, t, before, whole);
        if screens.last().space is Some {
            let (s, u, frames) = lemma_screen_opened(
                m,
                t,
                screens.last(),
                new_wids,
                hold,
                before,
                r2,
                l2,
                moves,
            );
            lemma_placed_same(
                Known { layout: s, ..m },
                u,
                screens.last(),
                new_wids,
                before,
                frames,
                r2,
                l2,
                moves,
                whole,
            );
        }
    }
}

/// No changes are made without an animation.
proof fn lemma_no_moves_made(r: Known, l: Log, hold: bool, l2: Log)
    requires
        moves_made(r, l, hold, Seq::empty(), l2),
    ensures
        grew(l, l2),
        nothing_moved(l2, l.len() as int),
{
    let none = Seq::<WindowMove>::empty();
    if !(hold || !r.config.animate) {
        let (t, moving) = choose|t: Log, moving: bool| #[trigger]
            in_motion(r.layout, l, t, moving) && moves_sent(t, animation_mode(moving), none, l2);
        assert(grew(l, t) && moves_not_asked(t, l.len() as int));
        assert forall|i: int| l.len() <= i < l2.len() implies {
            &&& !((#[trigger] l2[i]).req is Animate)
            &&& l2[i].req is JumpToEnd ==> l2[i].req == Req::JumpToEnd(none)
        } by {
            if i < t.len() {
                assert(l2[i] == t[i]);
            }
        }
    }
}

/// Laying out writes no frame and keeps every number of a write, so that all that is
/// known of the windows stays, where each new frame looks the same as the known one.
pub proof fn law_same_frames_are_not_written(
    r: Known,
    l: Log,
    new_wids: Seq<WindowId>,
    hold: bool,
    r2: Known,
    l2: Log,
)
    requires
        laid_out(r, l, new_wids, hold, r2, l2),
        all_look_same(l2, l.len() as int),
    ensures
        r2.windows == r.windows,
        nothing_moved(l2, l.len() as int),
{
    let (t, moves) = choose|t: Log, moves: Seq<WindowMove>| #[trigger]
        screens_laid_out(r, l, r.screens, new_wids, hold, r2, t, moves) && moves_made(
            r2,
            t,
            hold,
            moves,
            l2,
        );
    lemma_screens_grow(r, l, r.screens, new_wids, hold, r2, t, moves);
    lemma_moves_made_grow(r2, t, hold, moves, l2);
    lemma_screens_same(r, l, r.screens, new_wids, hold, r2, t, moves, l2);
    lemma_no_moves_made(r2, t, hold, l2);
    lemma_then_nothing_moved(l, t, l2);
}

pub proof fn lemma_moves_made_grow(r: Known, l: Log, hold: bool, moves: Seq<WindowMove>, l2: Log)
    requires
        moves_made(r, l, hold, moves, l2),
    ensures
        grew(l, l2),
{
    if !(hold || !r.config.animate) {
        let (t, moving) = choose|t: Log, moving: bool| #[trigger]
            in_motion(r.layout, l, t, moving) && moves_sent(t, animation_mode(moving), moves, l2);
        assert(grew(l, t));
    }
}

proof fn lemma_then_nothing_moved(l: Log, t: Log, l2: Log)
    requires
        grew(l, t),
        grew(t, l2),
        moves_not_asked(t, l.len() as int),
        nothing_moved(l2, t.len() as int),
    ensures
        nothing_moved(l2, l.len() as int),
{
    assert forall|i: int| l.len() <= i < l2.len() implies {
        &&& !((#[trigger] l2[i]).req is Animate)
        &&& l2[i].req is JumpToEnd ==> l2[i].req == Req::JumpToEnd(Seq::<WindowMove>::empty())
    } by {
        if i < t.len() {
            assert(l2[i] == t[i]);
        }
    }
}

/// Whether a request is one of those that decide which frames windows are given.
pub open spec fn decides_frames(req: Req) -> bool {
    ||| req is CalculateLayoutAndGroups
    ||| req is IsScrollLayout
    ||| req is RoundToPhysical
    ||| req is LooksSame
}

/// From place `from` on, what decides the frames of windows is answered as `reply` says,
/// whenever it is asked.
pub open spec fn frames_answered_by(reply: spec_fn(Req) -> Rep, log: Log, from: int) -> bool {
    forall|i: int|
        from <= i < log.len() && decides_frames((#[trigger] log[i]).req) ==> log[i].rep == reply(
            log[i].req,
        )
}

/// The frames that the layout has for a screen.
pub open spec fn wanted(r: Known, reply: spec_fn(Req) -> Rep, screen: Screen) -> Seq<
    (WindowId, Frame),
> {
    match screen.space {
        Some(space) => reply(
            Req::CalculateLayoutAndGroups(r.layout.spaces[space], screen.frame, r.config.id),
        )->Groups_0,
        None => Seq::empty(),
    }
}

/// A window need not be moved: it is known to look as the layout has it, or is not known
/// well enough to be moved.
pub open spec fn fits(
    r: Known,
    reply: spec_fn(Req) -> Rep,
    screen: Screen,
    entry: (WindowId, Frame),
) -> bool {
    ||| !r.windows.contains_key(entry.0)
    ||| !r.apps.contains_key(entry.0.pid)
    ||| reply(
        Req::LooksSame(
            reply(Req::RoundToPhysical(entry.1, screen.scale_factor))->Rect_0,
            r.windows[entry.0].frame_monotonic,
        ),
    )->Flag_0
}

/// All windows of some screens fit.
pub open spec fn all_fit(r: Known, reply: spec_fn(Req) -> Rep, screens: Seq<Screen>) -> bool {
    forall|i: int, a: int|
        0 <= i < screens.len() && 0 <= a < wanted(r, reply, screens[i]).len() ==> fits(
            r,
            reply,
            screens[i],
            #[trigger] wanted(r, reply, screens[i])[a],
        )
}

/// No window is given two frames, on one screen or on two.
pub open spec fn one_frame_each(
    r: Known,
    reply: spec_fn(Req) -> Rep,
    screens: Seq<Screen>,
) -> bool {
    forall|i: int, a: int, j: int, b: int|
        0 <= i < screens.len() && 0 <= j < screens.len() && 0 <= a < wanted(
            r,
            reply,
            screens[i],
        ).len() && 0 <= b < wanted(r, reply, screens[j]).len() && (i != j || a != b) ==> (
        #[trigger] wanted(r, reply, screens[i])[a]).0 != (#[trigger] wanted(
            r,
            reply,
            screens[j],
        )[b]).0
}

/// No screen shows a scroll layout.
pub open spec fn none_scrolls(r: Known, reply: spec_fn(Req) -> Rep, screens: Seq<Screen>) -> bool {
    forall|i: int|
        0 <= i < screens.len() && (#[trigger] screens[i]).space is Some ==> !reply(
            Req::IsScrollLayout(r.layout.spaces[screens[i].space->0]),
        )->Flag_0
}

/// A frame looks the same as itself.
pub open spec fn looks_like_itself(reply: spec_fn(Req) -> Rep) -> bool {
    forall|frame: Frame| #[trigger] reply(Req::LooksSame(frame, frame))->Flag_0
}

/// Some frame of a list is for `wid`.
pub open spec fn has_frame(frames: Seq<(WindowId, Frame)>, wid: WindowId) -> bool {
    exists|a: int| 0 <= a < frames.len() && (#[trigger] frames[a]).0 == wid
}

/// After windows were placed, they fit, and no others have changed.
proof fn lemma_placed_fit(
    r: Known,
    l: Log,
    screen: Screen,
    new_wids: Seq<WindowId>,
    moves: Seq<WindowMove>,
    frames: Seq<(WindowId, Frame)>,
    r2: Known,
    l2: Log,
    moves2: Seq<WindowMove>,
    whole: Log,
    reply: spec_fn(Req) -> Rep,
)
    requires
        placed(r, l, screen, new_wids, moves, frames, r2, l2, moves2),
        grew(l2, whole),
        frames_answered_by(reply, whole, l.len() as int),
        looks_like_itself(reply),
        forall|a: int, b: int|
            0 <= a < frames.len() && 0 <= b < frames.len() && a != b ==> (#[trigger] frames[a]).0
                != (#[trigger] frames[b]).0,
    ensures
        r2 == (Known { windows: r2.windows, ..r }),
        forall|a: int| 0 <= a < frames.len() ==> fits(r2, reply, screen, #[trigger] frames[a]),
        forall|wid: WindowId|
            !(#[trigger] has_frame(frames, wid)) ==> r2.windows.contains_key(wid)
                == r.windows.contains_key(wid) && r2.windows[wid] == r.windows[wid],
    decreases frames.len(),
{
    if frames.len() > 0 {
        let (m, t, before) = choose|m: Known, t: Log, before: Seq<WindowMove>|
            {
                &&& placed(r, l, screen, new_wids, moves, frames.drop_last(), m, t, before)
                &&& #[trigger] place_step(
                    m,
                    t,
                    screen,
                    new_wids,
                    before,
                    frames.last(),
                    r2,
                    l2,
                    moves2,
                )
            };
        lemma_placed_grows(r, l, screen, new_wids, moves, frames.drop_last(), m, t, before);
        assert(grew(t, l2));
        assert(grew(t, whole));
        let front = frames.drop_last();
        let last = frames.last();
        lemma_placed_fit(
            r,
            l,
            screen,
            new_wids,
            moves,
            front,
            m,
            t,
            before,
            whole,
            reply,
        );
        lemma_placed_grows(r, l, screen, new_wids, moves, frames, r2, l2, moves2);
        assert(frames[frames.len() - 1] == last);
        if m.windows.contains_key(last.0) {
            let n = t.len() as int;
            assert(whole[n] == l2[n] && l2[n].req == Req::RoundToPhysical(
                last.1,
                screen.scale_factor,
            ));
            assert(whole[n + 1] == l2[n + 1]);
        }
        assert(fits(r2, reply, screen, last));
        assert forall|a: int| 0 <= a < frames.len() implies fits(
            r2,
            reply,
            screen,
            #[trigger] frames[a],
        ) by {
            if a < front.len() {
                assert(front[a] == frames[a]);
                assert(fits(m, reply, screen, front[a]));
                assert(frames[a].0 != frames[frames.len() - 1].0);
            }
        }
        assert forall|wid: WindowId| !(#[trigger] has_frame(frames, wid)) implies r2.windows.contains_key(
            wid,
        ) == r.windows.contains_key(wid) && r2.windows[wid] == r.windows[wid] by {
            if has_frame(front, wid) {
                let a = choose|a: int| 0 <= a < front.len() && (#[trigger] front[a]).0 == wid;
                assert(frames[a].0 == wid);
            }
            assert(m.windows[wid] == r.windows[wid]);
            assert(last.0 != wid);
        }
    }
}

/// Windows that fit are not moved.
proof fn lemma_placed_still(
    r: Known,
    l: Log,
    screen: Screen,
    new_wids: Seq<WindowId>,
    moves: Seq<WindowMove>,
    frames: Seq<(WindowId, Frame)>,
    r2: Known,
    l2: Log,
    moves2: Seq<WindowMove>,
    whole: Log,
    reply: spec_fn(Req) -> Rep,
)
    requires
        placed(r, l, screen, new_wids, moves, frames, r2, l2, moves2),
        grew(l2, whole),
        frames_answered_by(reply, whole, l.len() as int),
        forall|a: int| 0 <= a < frames.len() ==> fits(r, reply, screen, #[trigger] frames[a]),
    ensures
        r2 == r,
        moves2 == moves,
    decreases frames.len(),
{
    if frames.len() > 0 {
        let (m, t, before) = choose|m: Known, t: Log, before: Seq<WindowMove>|
            {
                &&& placed(r, l, screen, new_wids, moves, frames.drop_last(), m, t, before)
                &&& #[trigger] place_step(
                    m,
                    t,
                    screen,
                    new_wids,
                    before,
                    frames.last(),
                    r2,
                    l2,
                    moves2,
                )
            };
        lemma_placed_grows(r, l, screen, new_wids, moves, frames.drop_last(), m, t, before);
        assert(grew(t, l2));
        assert(grew(t, whole));
        let front = frames.drop_last();
        let last = frames.last();
        assert(forall|a: int| 0 <= a < front.len() ==> #[trigger] front[a] == frames[a]);
        lemma_placed_still(
            r,
            l,
            screen,
            new_wids,
            moves,
            front,
            m,
            t,
            before,
            whole,
            reply,
        );
        assert(frames[frames.len() - 1] == last);
        if m.windows.contains_key(last.0) {
            let n = t.len() as int;
            assert(whole[n] == l2[n] && l2[n].req == Req::RoundToPhysical(
                last.1,
                screen.scale_factor,
            ));
            assert(whole[n + 1] == l2[n + 1]);
        }
    }
}

/// What a screen is given where no layout scrolls: the frames of its layout.
proof fn lemma_screen_wanted(
    r: Known,
    l: Log,
    screen: Screen,
    new_wids: Seq<WindowId>,
    hold: bool,
    moves: Seq<WindowMove>,
    r2: Known,
    l2: Log,
    moves2: Seq<WindowMove>,
    whole: Log,
    reply: spec_fn(Req) -> Rep,
) -> (t: Log)
    requires
        screen_step(r, l, screen, new_wids, hold, moves, r2, l2, moves2),
        screen.space is Some,
        grew(l2, whole),
        frames_answered_by(reply, whole, l.len() as int),
        !reply(Req::IsScrollLayout(r.layout.spaces[screen.space->0]))->Flag_0,
    ensures
        grew(l, t),
        grew(t, l2),
        placed(r, t, screen, new_wids, moves, wanted(r, reply, screen), r2, l2, moves2),
{
    let (s, t, frames) = lemma_screen_opened(
        r,
        l,
        screen,
        new_wids,
        hold,
        moves,
        r2,
        l2,
        moves2,
    );
    let layout = r.layout.spaces[screen.space->0];
    assert forall|i: int|
        l.len() <= i < t.len() && (#[trigger] t[i]).req == Req::IsScrollLayout(
            layout,
        ) implies !t[i].rep->Flag_0 by {
        assert(l2[i] == t[i]);
        assert(whole[i] == l2[i]);
    }
    let i = choose|i: int|
        l.len() <= i < t.len() && (#[trigger] t[i]).req == Req::CalculateLayoutAndGroups(
            layout,
            screen.frame,
            r.config.id,
        ) && frames == t[i].rep->Groups_0;
    assert(l2[i] == t[i]);
    assert(whole[i] == l2[i]);
    assert(frames == wanted(r, reply, screen));
    assert(Known { layout: s, ..r } == r);
    t
}

/// After screens were laid out, all their windows fit.
proof fn lemma_screens_fit(
    r: Known,
    l: Log,
    screens: Seq<Screen>,
    new_wids: Seq<WindowId>,
    hold: bool,
    r2: Known,
    l2: Log,
    moves: Seq<WindowMove>,
    whole: Log,
    reply: spec_fn(Req) -> Rep,
)
    requires
        screens_laid_out(r, l, screens, new_wids, hold, r2, l2, moves),
        grew(l2, whole),
        frames_answered_by(reply, whole, l.len() as int),
        looks_like_itself(reply),
        none_scrolls(r, reply, screens),
        one_frame_each(r, reply, screens),
    ensures
        r2 == (Known { windows: r2.windows, ..r }),
        all_fit(r2, reply, screens),
    decreases screens.len(),
{
    if screens.len() > 0 {
        let (m, t, before) = choose|m: Known, t: Log, before: Seq<WindowMove>|
            {
                &&& screens_laid_out(r, l, screens.drop_last(), new_wids, hold, m, t, before)
                &&& #[trigger] screen_step(
                    m,
                    t,
                    screens.last(),
                    new_wids,
                    hold,
                    before,
                    r2,
                    l2,
                    moves,
                )
            };
        let last = screens.last();
        let front = screens.drop_last();
        lemma_screens_grow(r, l, front, new_wids, hold, m, t, before);
        lemma_screen_grows(m, t, last, new_wids, hold, before, r2, l2, moves);
        assert(grew(t, whole));
        assert(forall|i: int| 0 <= i < front.len() ==> #[trigger] front[i] == screens[i]);
        assert forall|i: int, a: int, j: int, b: int|
            0 <= i < front.len() && 0 <= j < front.len() && 0 <= a < wanted(
                r,
                reply,
                front[i],
            ).len() && 0 <= b < wanted(r, reply, front[j]).len() && (i != j || a != b) implies (
        #[trigger] wanted(r, reply, front[i])[a]).0 != (#[trigger] wanted(r, reply, front[j])[b]).0 by {
            assert(wanted(r, reply, screens[i])[a].0 != wanted(r, reply, screens[j])[b].0);
        }
        lemma_screens_fit(r, l, front, new_wids, hold, m, t, before, whole, reply);
        let k = screens.len() - 1;
        assert(screens[k] == last);
        let frames = wanted(m, reply, last);
        assert(frames == wanted(r, reply, last));
        if last.space is Some {
            let u = lemma_screen_wanted(
                m,
                t,
                last,
                new_wids,
                hold,
                before,
                r2,
                l2,
                moves,
                whole,
                reply,
            );
            assert forall|a: int, b: int|
                0 <= a < frames.len() && 0 <= b < frames.len() && a != b implies (
            #[trigger] frames[a]).0 != (#[trigger] frames[b]).0 by {
                assert(wanted(r, reply, screens[k])[a].0 != wanted(r, reply, screens[k])[b].0);
            }
            lemma_placed_fit(
                m,
                u,
                last,
                new_wids,
                before,
                frames,
                r2,
                l2,
                moves,
                whole,
                reply,
            );
        }
        assert forall|i: int, a: int|
            0 <= i < screens.len() && 0 <= a < wanted(r2, reply, screens[i]).len() implies fits(
            r2,
            reply,
            screens[i],
            #[trigger] wanted(r2, reply, screens[i])[a],
        ) by {
            let entry = wanted(r2, reply, screens[i])[a];
            if i < k {
                assert(wanted(m, reply, front[i])[a] == entry);
                assert(fits(m, reply, front[i], wanted(m, reply, front[i])[a]));
                assert forall|b: int| 0 <= b < frames.len() implies (#[trigger] frames[b]).0
                    != entry.0 by {
                    assert(wanted(r, reply, screens[i])[a].0 != wanted(r, reply, screens[k])[b].0);
                }
                assert(!has_frame(frames, entry.0));
                assert(r2.windows[entry.0] == m.windows[entry.0]);
            } else {
                assert(entry == frames[a]);
            }
        }
    }
}

/// Screens whose windows all fit are laid out without a change.
proof fn lemma_screens_still(
    r: Known,
    l: Log,
    screens: Seq<Screen>,
    new_wids: Seq<WindowId>,
    hold: bool,
    r2: Known,
    l2: Log,
    moves: Seq<WindowMove>,
    whole: Log,
    reply: spec_fn(Req) -> Rep,
)
    requires
        screens_laid_out(r, l, screens, new_wids, hold, r2, l2, moves),
        grew(l2, whole),
        frames_answered_by(reply, whole, l.len() as int),
        none_scrolls(r, reply, screens),
        all_fit(r, reply, screens),
    ensures
        r2 == r,
        moves == Seq::<WindowMove>::empty(),
    decreases screens.len(),
{
    if screens.len() > 0 {
        let (m, t, before) = choose|m: Known, t: Log, before: Seq<WindowMove>|
            {
                &&& screens_laid_out(r, l, screens.drop_last(), new_wids, hold, m, t, before)
                &&& #[trigger] screen_step(
                    m,
                    t,
                    screens.last(),
                    new_wids,
                    hold,
                    before,
                    r2,
                    l2,
                    moves,
                )
            };
        let last = screens.last();
        let front = screens.drop_last();
        lemma_screens_grow(r, l, front, new_wids, hold, m, t, before);
        lemma_screen_grows(m, t, last, new_wids, hold, before, r2, l2, moves);
        assert(grew(t, whole));
        assert(forall|i: int| 0 <= i < front.len() ==> #[trigger] front[i] == screens[i]);
        assert forall|i: int, a: int|
            0 <= i < front.len() && 0 <= a < wanted(r, reply, front[i]).len() implies fits(
            r,
            reply,
            front[i],
            #[trigger] wanted(r, reply, front[i])[a],
        ) by {
            assert(fits(r, reply, screens[i], wanted(r, reply, screens[i])[a]));
        }
        lemma_screens_still(r, l, front, new_wids, hold, m, t, before, whole, reply);
        let k = screens.len() - 1;
        assert(screens[k] == last);
        let frames = wanted(r, reply, last);
        if last.space is Some {
            let u = lemma_screen_wanted(
                m,
                t,
                last,
                new_wids,
                hold,
                before,
                r2,
                l2,
                moves,
                whole,
                reply,
            );
            assert forall|a: int| 0 <= a < frames.len() implies fits(
                r,
                reply,
                last,
                #[trigger] frames[a],
            ) by {
                assert(fits(r, reply, screens[k], wanted(r, reply, screens[k])[a]));
            }
            lemma_placed_still(
                m,
                u,
                last,
                new_wids,
                before,
                frames,
                r2,
                l2,
                moves,
                whole,
                reply,
            );
        }
    }
}

/// Laying out a second time, when nothing has happened since, moves no window: no frame
/// is written, nothing is animated, and all that is known stays, the known frames and
/// the numbers of the last writes among it. It does not matter which windows are new or
/// whether the viewports are held. No screen is to show a scroll layout, and no window
/// to be given two frames.
pub proof fn law_layout_again_moves_nothing(
    r: Known,
    l: Log,
    new_wids: Seq<WindowId>,
    hold: bool,
    m: Known,
    t: Log,
    new_wids2: Seq<WindowId>,
    hold2: bool,
    r2: Known,
    l2: Log,
    reply: spec_fn(Req) -> Rep,
)
    requires
        laid_out(r, l, new_wids, hold, m, t),
        laid_out(m, t, new_wids2, hold2, r2, l2),
        frames_answered_by(reply, l2, l.len() as int),
        looks_like_itself(reply),
        none_scrolls(r, reply, r.screens),
        one_frame_each(r, reply, r.screens),
    ensures
        r2 == m,
        nothing_moved(l2, t.len() as int),
{
    let (u, moves) = choose|u: Log, moves: Seq<WindowMove>| #[trigger]
        screens_laid_out(r, l, r.screens, new_wids, hold, m, u, moves) && moves_made(
            m,
            u,
            hold,
            moves,
            t,
        );
    let (v, moves2) = choose|v: Log, moves2: Seq<WindowMove>| #[trigger]
        screens_laid_out(m, t, m.screens, new_wids2, hold2, r2, v, moves2) && moves_made(
            r2,
            v,
            hold2,
            moves2,
            l2,
        );
    lemma_screens_grow(r, l, r.screens, new_wids, hold, m, u, moves);
    lemma_moves_made_grow(m, u, hold, moves, t);
    lemma_screens_grow(m, t, m.screens, new_wids2, hold2, r2, v, moves2);
    lemma_moves_made_grow(r2, v, hold2, moves2, l2);
    assert(grew(t, l2));
    assert(grew(u, l2));
    lemma_screens_fit(r, l, r.screens, new_wids, hold, m, u, moves, l2, reply);
    lemma_screens_still(m, t, m.screens, new_wids2, hold2, r2, v, moves2, l2, reply);
    lemma_no_moves_made(r2, v, hold2, l2);
    lemma_then_nothing_moved(t, v, l2);
}

} // verus!
