//! What giving windows their frames is for.
//!
//! `reply` is how the host answers while an event is handled.

use vstd::prelude::*;

use crate::deeds::{deeds, group_deeds, lemma_reply, lemma_reply_part, those_made};
use crate::ids::{Frame, GroupBar, SpaceId, WindowId};
use crate::layout::state::State;
use crate::layout::viewport::{frames_and_groups_shown, in_motion, viewport_followed};
use crate::layout::viewport_laws::{
    law_frames_are_seen_through_the_viewport, law_motion_is_of_some_viewport,
};
use crate::link::{answer, answered_by, ask, grew, Log, Rep, Req};
use crate::messages::{AnimationMode, TransactionId, WindowMove};
use crate::reactor::placement::{
    animation_mode, frames_applied, layout_applied, moves_made, moves_sent, place_step, placed,
    screen_step,
};
use crate::reactor::repeat_laws::lemma_followed_grows;
use crate::reactor::state::{Known, Screen, WindowState};

verus! {

/// The move that a window makes to the frame that the layout has for it: from where it is
/// known to be to that frame in whole pixels of its screen, under the next number, by the
/// handle of its application. One that is not known, or whose application is not, makes none,
/// and neither does one that looks the same already.
pub open spec fn move_for(
    reply: spec_fn(Req) -> Rep,
    r: Known,
    screen: Screen,
    new_wids: Seq<WindowId>,
    entry: (WindowId, Frame),
) -> Option<WindowMove> {
    let wid = entry.0;
    let from = r.windows[wid].frame_monotonic;
    let to = reply(Req::RoundToPhysical(entry.1, screen.scale_factor))->Rect_0;
    let last = r.windows[wid].last_sent_txid;
    if r.windows.contains_key(wid) && r.apps.contains_key(wid.pid) && !reply(
        Req::LooksSame(to, from),
    )->Flag_0 {
        Some(
            WindowMove {
                handle: r.apps[wid.pid].handle,
                wid,
                from,
                to,
                is_new: new_wids.contains(wid),
                txid: TransactionId(
                    if last.0 == 0xffff_ffff {
                        0
                    } else {
                        (last.0 + 1) as u32
                    },
                ),
            },
        )
    } else {
        None
    }
}

/// What is known of a window after its move, if it made one.
pub open spec fn known_after(r: Known, wid: WindowId, made: Option<WindowMove>) -> WindowState {
    match made {
        Some(made) => WindowState {
            frame_monotonic: made.to,
            last_sent_txid: made.txid,
            ..r.windows[wid]
        },
        None => r.windows[wid],
    }
}

/// The windows of a list of frames.
pub open spec fn windows_of_frames(frames: Seq<(WindowId, Frame)>) -> Seq<WindowId> {
    frames.map_values(|entry: (WindowId, Frame)| entry.0)
}

pub proof fn lemma_placed_asks(
    r: Known,
    l: Log,
    screen: Screen,
    new_wids: Seq<WindowId>,
    moves: Seq<WindowMove>,
    frames: Seq<(WindowId, Frame)>,
    r2: Known,
    l2: Log,
    moves2: Seq<WindowMove>,
)
    requires
        placed(r, l, screen, new_wids, moves, frames, r2, l2, moves2),
    ensures
        grew(l, l2),
        forall|at: int| 0 <= at <= l.len() ==> #[trigger] deeds(l2, at) == deeds(l, at),
    decreases frames.len(),
{
    broadcast use group_deeds;

    if frames.len() > 0 {
        let (m, t, before) = choose|m: Known, t: Log, before: Seq<WindowMove>|
            {
                &&& placed(r, l, screen, new_wids, moves, frames.drop_last(), m, t, before)
                &&& #[trigger] place_step(
                    m,
                    t,
                    screen,
                    new_wids,
                    before,
                    frames.last(),
                    r2,
                    l2,
                    moves2,
                )
            };
        lemma_placed_asks(r, l, screen, new_wids, moves, frames.drop_last(), m, t, before);
        assert forall|at: int| 0 <= at <= l.len() implies #[trigger] deeds(l2, at) == deeds(l, at) by {
            assert(deeds(t, at) == deeds(l, at));
        }
    }
}

/// Windows that are given frames go there: every window of the list makes the move that is
/// its own, in order, is known to be at its end, and no other window is known otherwise than
/// before. Every window is in the list once.
pub proof fn law_windows_go_to_their_frames(
    r: Known,
    l: Log,
    screen: Screen,
    new_wids: Seq<WindowId>,
    moves: Seq<WindowMove>,
    frames: Seq<(WindowId, Frame)>,
    r2: Known,
    l2: Log,
    moves2: Seq<WindowMove>,
    reply: spec_fn(Req) -> Rep,
    from: int,
)
    requires
        placed(r, l, screen, new_wids, moves, frames, r2, l2, moves2),
        answered_by(reply, l2, from),
        0 <= from <= l.len(),
        windows_of_frames(frames).no_duplicates(),
    ensures
        moves2 == moves + those_made(
            Seq::new(frames.len(), |i: int| move_for(reply, r, screen, new_wids, frames[i])),
        ),
        r2 == (Known { windows: r2.windows, ..r }),
        r2.windows.dom() == r.windows.dom(),
        forall|i: int|
            0 <= i < frames.len() && r.windows.contains_key((#[trigger] frames[i]).0)
                ==> r2.windows[frames[i].0] == known_after(
                r,
                frames[i].0,
                move_for(reply, r, screen, new_wids, frames[i]),
            ),
        forall|wid: WindowId|
            !windows_of_frames(frames).contains(wid) ==> #[trigger] r2.windows[wid]
                == r.windows[wid],
    decreases frames.len(),
{
    let all = Seq::new(frames.len(), |i: int| move_for(reply, r, screen, new_wids, frames[i]));
    let wids = windows_of_frames(frames);
    if frames.len() == 0 {
        assert(all =~= Seq::<Option<WindowMove>>::empty());
        assert(moves + Seq::<WindowMove>::empty() =~= moves);
    } else {
        let front = frames.drop_last();
        let last = frames.last();
        let (m, t, before) = choose|m: Known, t: Log, before: Seq<WindowMove>|
            {
                &&& placed(r, l, screen, new_wids, moves, front, m, t, before)
                &&& #[trigger] place_step(m, t, screen, new_wids, before, last, r2, l2, moves2)
            };
        assert(grew(t, l2));
        lemma_placed_asks(r, l, screen, new_wids, moves, front, m, t, before);
        lemma_reply_part(reply, t, l2, from);
        assert(windows_of_frames(front) =~= wids.drop_last());
        law_windows_go_to_their_frames(
            r,
            l,
            screen,
            new_wids,
            moves,
            front,
            m,
            t,
            before,
            reply,
            from,
        );
        assert(all.drop_last() =~= Seq::new(
            front.len(),
            |i: int| move_for(reply, r, screen, new_wids, front[i]),
        ));
        assert(wids[frames.len() - 1] == last.0);
        assert(!windows_of_frames(front).contains(last.0)) by {
            if windows_of_frames(front).contains(last.0) {
                let k = choose|k: int|
                    0 <= k < front.len() && windows_of_frames(front)[k] == last.0;
                assert(wids[k] == wids[frames.len() - 1]);
            }
        }
        assert(m.windows[last.0] == r.windows[last.0]);
        assert(m.windows.contains_key(last.0) == r.windows.contains_key(last.0)) by {
            assert(m.windows.dom().contains(last.0) == r.windows.dom().contains(last.0));
        }
        if m.windows.contains_key(last.0) {
            let q1 = Req::RoundToPhysical(last.1, screen.scale_factor);
            let t1 = ask(t, l2, q1);
            lemma_reply(
                reply,
                t1,
                l2,
                Req::LooksSame(answer(t1)->Rect_0, m.windows[last.0].frame_monotonic),
                from,
            );
            lemma_reply(reply, t, l2, q1, from);
        }
        let made = move_for(reply, r, screen, new_wids, last);
        assert(all.last() == made);
        let earlier = those_made(all.drop_last());
        if let Some(mv) = made {
            assert(moves2 =~= moves + earlier.push(mv));
        }
        assert(r2.windows.dom() =~= r.windows.dom());
        assert forall|i: int|
            0 <= i < frames.len() && r.windows.contains_key(
                (#[trigger] frames[i]).0,
            ) implies r2.windows[frames[i].0] == known_after(
            r,
            frames[i].0,
            move_for(reply, r, screen, new_wids, frames[i]),
        ) by {
            assert(wids[i] == frames[i].0);
            if i < front.len() {
                assert(front[i] == frames[i]);
                assert(wids[i] != wids[frames.len() - 1]);
            }
        }
        assert forall|wid: WindowId| !wids.contains(wid) implies #[trigger] r2.windows[wid]
            == r.windows[wid] by {
            assert(wid != last.0) by {
                assert(wids.contains(wids[frames.len() - 1]));
            }
            if windows_of_frames(front).contains(wid) {
                let k = choose|k: int|
                    0 <= k < front.len() && windows_of_frames(front)[k] == wid;
                assert(wids[k] == wid);
            }
        }
    }
}

/// The frames that a space shows on a screen, seen through its viewport.
pub open spec fn frames_on(
    reply: spec_fn(Req) -> Rep,
    r: Known,
    space: SpaceId,
    screen: Screen,
) -> Seq<(WindowId, Frame)> {
    let layout = r.layout.spaces[space];
    let plain = reply(
        Req::CalculateLayoutAndGroups(layout, screen.frame, r.config.id),
    )->Groups_0;
    if r.layout.scroll_enabled && reply(Req::IsScrollLayout(layout))->Flag_0
        && r.layout.viewports.contains(layout) {
        reply(Req::ApplyViewport(layout, screen.frame, plain))->Frames_0
    } else {
        plain
    }
}

/// A screen that is laid out shows its space: the bars of the space's groups are passed on,
/// and its windows go to the frames that the space has for them on that screen. The viewport
/// is left alone, as it is while the user resizes a window or it is in motion by itself.
pub proof fn law_held_screen_shows_its_space(
    r: Known,
    l: Log,
    screen: Screen,
    space: SpaceId,
    new_wids: Seq<WindowId>,
    moves: Seq<WindowMove>,
    r2: Known,
    l2: Log,
    moves2: Seq<WindowMove>,
    reply: spec_fn(Req) -> Rep,
)
    requires
        screen_step(r, l, screen, new_wids, true, moves, r2, l2, moves2),
        screen.space == Some(space),
        answered_by(reply, l2, l.len() as int),
        windows_of_frames(frames_on(reply, r, space, screen)).no_duplicates(),
    ensures
        r2.layout == r.layout,
        shows_space(r, l, screen, space, new_wids, moves, r2, l2, moves2, reply),
{
    lemma_layout_applied(
        r,
        l,
        screen,
        space,
        new_wids,
        moves,
        r2,
        l2,
        moves2,
        reply,
        l.len() as int,
    );
}

/// The bars of a space are passed on, and its windows go to their frames.
pub open spec fn shows_space(
    r: Known,
    l: Log,
    screen: Screen,
    space: SpaceId,
    new_wids: Seq<WindowId>,
    moves: Seq<WindowMove>,
    r2: Known,
    l2: Log,
    moves2: Seq<WindowMove>,
    reply: spec_fn(Req) -> Rep,
) -> bool {
    let frames = frames_on(reply, r, space, screen);
    let done = deeds(l2, l.len() as int);
    let bars = reply(
        Req::CalculateLayoutAndGroups(r.layout.spaces[space], screen.frame, r.config.id),
    )->Groups_1;
    &&& done.len() == 1
    &&& done[0] is GroupsUpdated
    &&& done[0]->GroupsUpdated_0 == space
    &&& done[0]->GroupsUpdated_1.len() == bars.len()
    &&& forall|i: int|
        0 <= i < bars.len() ==> #[trigger] done[0]->GroupsUpdated_1[i] == (GroupBar {
            is_on_top: bars[i].is_on_top && !r.layout.is_floating(),
            indicator_frame: if r.layout.scroll_enabled && reply(
                Req::IsScrollLayout(r.layout.spaces[space]),
            )->Flag_0 && r.layout.viewports.contains(r.layout.spaces[space]) {
                reply(
                    Req::OffsetRect(r.layout.spaces[space], bars[i].indicator_frame),
                )->Rect_0
            } else {
                bars[i].indicator_frame
            },
            ..bars[i]
        })
    &&& moves2 == moves + those_made(
        Seq::new(frames.len(), |i: int| move_for(reply, r, screen, new_wids, frames[i])),
    )
    &&& forall|i: int|
        0 <= i < frames.len() && r.windows.contains_key((#[trigger] frames[i]).0)
            ==> r2.windows[frames[i].0] == known_after(
            r,
            frames[i].0,
            move_for(reply, r, screen, new_wids, frames[i]),
        )
    &&& forall|wid: WindowId|
        !windows_of_frames(frames).contains(wid) ==> #[trigger] r2.windows[wid] == r.windows[wid]
}

proof fn lemma_layout_applied(
    r: Known,
    l: Log,
    screen: Screen,
    space: SpaceId,
    new_wids: Seq<WindowId>,
    moves: Seq<WindowMove>,
    r2: Known,
    l2: Log,
    moves2: Seq<WindowMove>,
    reply: spec_fn(Req) -> Rep,
    from: int,
)
    requires
        layout_applied(r, l, space, screen, new_wids, moves, r2, l2, moves2),
        answered_by(reply, l2, from),
        0 <= from <= l.len(),
        windows_of_frames(frames_on(reply, r, space, screen)).no_duplicates(),
    ensures
        r2.layout == r.layout,
        shows_space(r, l, screen, space, new_wids, moves, r2, l2, moves2, reply),
{
    broadcast use group_deeds;

    let (t, frames, groups) = choose|t: Log, frames: Seq<(WindowId, Frame)>, groups: Seq<GroupBar>|
        {
            &&& #[trigger] frames_and_groups_shown(
                r.layout,
                l,
                space,
                screen.frame,
                r.config.id,
                t,
                frames,
                groups,
            )
            &&& frames_applied(
                r,
                t,
                space,
                screen,
                new_wids,
                moves,
                frames,
                groups,
                r2,
                l2,
                moves2,
            )
        };
    let q = Req::GroupsUpdated(space, groups);
    let t1 = ask(t, l2, q);
    lemma_placed_asks(r, t1, screen, new_wids, moves, frames, r2, l2, moves2);
    lemma_reply(reply, t, l2, q, from);
    lemma_reply_part(reply, t, l2, from);
    assert(grew(l, t));
    law_frames_are_seen_through_the_viewport(
        r.layout,
        l,
        space,
        screen.frame,
        r.config.id,
        t,
        frames,
        groups,
        reply,
    );
    law_windows_go_to_their_frames(
        r,
        t1,
        screen,
        new_wids,
        moves,
        frames,
        r2,
        l2,
        moves2,
        reply,
        from,
    );
    assert(deeds(l2, l.len() as int) == deeds(t1, l.len() as int));
}

/// A screen that is laid out while nothing is held: the viewport follows the selection
/// first, and then the space is shown.
pub proof fn law_screen_follows_then_shows(
    r: Known,
    l: Log,
    screen: Screen,
    space: SpaceId,
    new_wids: Seq<WindowId>,
    moves: Seq<WindowMove>,
    r2: Known,
    l2: Log,
    moves2: Seq<WindowMove>,
    reply: spec_fn(Req) -> Rep,
)
    requires
        screen_step(r, l, screen, new_wids, false, moves, r2, l2, moves2),
        screen.space == Some(space),
        answered_by(reply, l2, l.len() as int),
        windows_of_frames(
            frames_on(reply, (Known { layout: r2.layout, ..r }), space, screen),
        ).no_duplicates(),
    ensures
        exists|t: Log|
            {
                &&& #[trigger] viewport_followed(
                    r.layout,
                    l,
                    space,
                    screen.frame,
                    r.config,
                    r2.layout,
                    t,
                )
                &&& shows_space(
                    Known { layout: r2.layout, ..r },
                    t,
                    screen,
                    space,
                    new_wids,
                    moves,
                    r2,
                    l2,
                    moves2,
                    reply,
                )
            },
{
    let (s, t) = choose|s: State, t: Log|
        {
            &&& #[trigger] viewport_followed(r.layout, l, space, screen.frame, r.config, s, t)
            &&& layout_applied(
                Known { layout: s, ..r },
                t,
                space,
                screen,
                new_wids,
                moves,
                r2,
                l2,
                moves2,
            )
        };
    lemma_applied_keeps_layout(
        Known { layout: s, ..r },
        t,
        screen,
        space,
        new_wids,
        moves,
        r2,
        l2,
        moves2,
    );
    lemma_followed_grows(
        r.layout,
        l,
        space,
        screen.frame,
        r.config,
        s,
        t,
    );
    lemma_layout_applied(
        Known { layout: s, ..r },
        t,
        screen,
        space,
        new_wids,
        moves,
        r2,
        l2,
        moves2,
        reply,
        l.len() as int,
    );
}

proof fn lemma_applied_keeps_layout(
    r: Known,
    l: Log,
    screen: Screen,
    space: SpaceId,
    new_wids: Seq<WindowId>,
    moves: Seq<WindowMove>,
    r2: Known,
    l2: Log,
    moves2: Seq<WindowMove>,
)
    requires
        layout_applied(r, l, space, screen, new_wids, moves, r2, l2, moves2),
    ensures
        r2.layout == r.layout,
{
    let (t, frames, groups) = choose|t: Log, frames: Seq<(WindowId, Frame)>, groups: Seq<GroupBar>|
        {
            &&& #[trigger] frames_and_groups_shown(
                r.layout,
                l,
                space,
                screen.frame,
                r.config.id,
                t,
                frames,
                groups,
            )
            &&& frames_applied(
                r,
                t,
                space,
                screen,
                new_wids,
                moves,
                frames,
                groups,
                r2,
                l2,
                moves2,
            )
        };
    let t1 = ask(t, l2, Req::GroupsUpdated(space, groups));
    lemma_placed_keeps_layout(r, t1, screen, new_wids, moves, frames, r2, l2, moves2);
}

proof fn lemma_placed_keeps_layout(
    r: Known,
    l: Log,
    screen: Screen,
    new_wids: Seq<WindowId>,
    moves: Seq<WindowMove>,
    frames: Seq<(WindowId, Frame)>,
    r2: Known,
    l2: Log,
    moves2: Seq<WindowMove>,
)
    requires
        placed(r, l, screen, new_wids, moves, frames, r2, l2, moves2),
    ensures
        r2.layout == r.layout,
    decreases frames.len(),
{
    if frames.len() > 0 {
        let (m, t, before) = choose|m: Known, t: Log, before: Seq<WindowMove>|
            {
                &&& placed(r, l, screen, new_wids, moves, frames.drop_last(), m, t, before)
                &&& #[trigger] place_step(
                    m,
                    t,
                    screen,
                    new_wids,
                    before,
                    frames.last(),
                    r2,
                    l2,
                    moves2,
                )
            };
        lemma_placed_keeps_layout(
            r,
            l,
            screen,
            new_wids,
            moves,
            frames.drop_last(),
            m,
            t,
            before,
        );
    }
}

/// Moves are animated in place of what was animated before, unless something speaks against
/// it: what the user does with the mouse, the settings, or a viewport that is in motion. Then
/// the windows are at the end at once, and they are as well where the animation is not taken.
pub proof fn law_moves_are_animated(
    r: Known,
    l: Log,
    hold: bool,
    moves: Seq<WindowMove>,
    l2: Log,
    reply: spec_fn(Req) -> Rep,
)
    requires
        moves_made(r, l, hold, moves, l2),
        answered_by(reply, l2, l.len() as int),
    ensures
        ({
            let moving = r.layout.scroll_enabled && exists|i: int|
                0 <= i < r.layout.viewports.len() && reply(
                    Req::IsAnimating(#[trigger] r.layout.viewports[i]),
                )->Flag_0;
            let mode = if hold || !r.config.animate || moving {
                AnimationMode::SkipToEnd
            } else {
                AnimationMode::Replace
            };
            let animated = Req::Animate(mode, moves);
            deeds(l2, l.len() as int) == if moves.len() == 0 {
                seq![Req::JumpToEnd(moves)]
            } else if reply(animated)->Flag_0 {
                seq![animated]
            } else {
                seq![animated, Req::JumpToEnd(moves)]
            }
        }),
{
    broadcast use group_deeds;

    let n = l.len() as int;
    let (t, mode) = if hold || !r.config.animate {
        (l, AnimationMode::SkipToEnd)
    } else {
        let (t, moving) = choose|t: Log, moving: bool| #[trigger]
            in_motion(r.layout, l, t, moving) && moves_sent(t, animation_mode(moving), moves, l2);
        assert(grew(t, l2));
        lemma_reply_part(reply, t, l2, n);
        law_motion_is_of_some_viewport(r.layout, l, t, moving, reply);
        (t, animation_mode(moving))
    };
    assert(moves_sent(t, mode, moves, l2));
    assert(deeds(t, n) =~= Seq::<Req>::empty());
    assert(t.len() >= n);
    if moves.len() > 0 {
        lemma_reply(reply, t, l2, Req::Animate(mode, moves), n);
    }
}

} // verus!
