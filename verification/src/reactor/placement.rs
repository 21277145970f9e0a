//! Giving windows the frames that the layout has for them.

use vstd::prelude::*;

use crate::collections::position;
use crate::ids::{Frame, GroupBar, SpaceId, WindowId};
use crate::layout::state::State;
use crate::layout::viewport::{frames_and_groups_shown, in_motion, viewport_followed};
use crate::link::{answer, ask, grew, Link, Log, ReactorHost, Req};
use crate::messages::{AnimationMode, WindowMove};
use crate::reactor::state::{next_number, Known, Reactor, Screen, WindowState};

verus! {

/// A window is to have the frame that the layout has for it, in whole pixels. If it
/// does not look like that already, the change is noted as made: from here on that
/// frame is the one that counts, and reads from before it do not.
///
/// Windows that are not known, as after a restart, are passed over.
pub open spec fn place_step(
    r: Known,
    l: Log,
    screen: Screen,
    new_wids: Seq<WindowId>,
    moves: Seq<WindowMove>,
    entry: (WindowId, Frame),
    r2: Known,
    l2: Log,
    moves2: Seq<WindowMove>,
) -> bool {
    let wid = entry.0;
    if !r.windows.contains_key(wid) {
        r2 == r && l2 == l && moves2 == moves
    } else {
        let window = r.windows[wid];
        let from = window.frame_monotonic;
        let t1 = ask(l, l2, Req::RoundToPhysical(entry.1, screen.scale_factor));
        let to = answer(t1)->Rect_0;
        let t2 = ask(t1, l2, Req::LooksSame(to, from));
        let txid = next_number(window.last_sent_txid);
        &&& l2 == t2
        &&& if answer(t2)->Flag_0 || !r.apps.contains_key(wid.pid) {
            r2 == r && moves2 == moves
        } else {
            &&& r2 == Known {
                windows: r.windows.insert(
                    wid,
                    WindowState { frame_monotonic: to, last_sent_txid: txid, ..window },
                ),
                ..r
            }
            &&& moves2 == moves.push(
                WindowMove {
                    handle: r.apps[wid.pid].handle,
                    wid,
                    from,
                    to,
                    is_new: new_wids.contains(wid),
                    txid,
                },
            )
        }
    }
}

/// The same for several windows.
pub open spec fn placed(
    r: Known,
    l: Log,
    screen: Screen,
    new_wids: Seq<WindowId>,
    moves: Seq<WindowMove>,
    frames: Seq<(WindowId, Frame)>,
    r2: Known,
    l2: Log,
    moves2: Seq<WindowMove>,
) -> bool
    decreases frames.len(),
{
    if frames.len() == 0 {
        r2 == r && l2 == l && moves2 == moves
    } else {
        exists|m: Known, t: Log, before: Seq<WindowMove>|
            {
                &&& placed(r, l, screen, new_wids, moves, frames.drop_last(), m, t, before)
                &&& #[trigger] place_step(
                    m,
                    t,
                    screen,
                    new_wids,
                    before,
                    frames.last(),
                    r2,
                    l2,
                    moves2,
                )
            }
    }
}

/// The frames of a space are shown: its group bars are passed on, its windows placed.
pub open spec fn frames_applied(
    r: Known,
    l: Log,
    space: SpaceId,
    screen: Screen,
    new_wids: Seq<WindowId>,
    moves: Seq<WindowMove>,
    frames: Seq<(WindowId, Frame)>,
    groups: Seq<GroupBar>,
    r2: Known,
    l2: Log,
    moves2: Seq<WindowMove>,
) -> bool {
    let t = ask(l, l2, Req::GroupsUpdated(space, groups));
    placed(r, t, screen, new_wids, moves, frames, r2, l2, moves2)
}

/// The layout of a space is worked out and applied.
pub open spec fn layout_applied(
    r: Known,
    l: Log,
    space: SpaceId,
    screen: Screen,
    new_wids: Seq<WindowId>,
    moves: Seq<WindowMove>,
    r2: Known,
    l2: Log,
    moves2: Seq<WindowMove>,
) -> bool {
    exists|t: Log, frames: Seq<(WindowId, Frame)>, groups: Seq<GroupBar>|
        {
            &&& #[trigger] frames_and_groups_shown(
                r.layout,
                l,
                space,
                screen.frame,
                r.config.id,
                t,
                frames,
                groups,
            )
            &&& frames_applied(
                r,
                t,
                space,
                screen,
                new_wids,
                moves,
                frames,
                groups,
                r2,
                l2,
                moves2,
            )
        }
}

/// A space is laid out after its viewport has followed the focus.
pub open spec fn followed_and_applied(
    r: Known,
    l: Log,
    space: SpaceId,
    screen: Screen,
    new_wids: Seq<WindowId>,
    moves: Seq<WindowMove>,
    r2: Known,
    l2: Log,
    moves2: Seq<WindowMove>,
) -> bool {
    exists|s: State, t: Log|
        {
            &&& #[trigger] viewport_followed(r.layout, l, space, screen.frame, r.config, s, t)
            &&& layout_applied(
                Known { layout: s, ..r },
                t,
                space,
                screen,
                new_wids,
                moves,
                r2,
                l2,
                moves2,
            )
        }
}

/// One screen is laid out, if it has a space. The viewport follows the focus unless
/// `hold`.
pub open spec fn screen_step(
    r: Known,
    l: Log,
    screen: Screen,
    new_wids: Seq<WindowId>,
    hold: bool,
    moves: Seq<WindowMove>,
    r2: Known,
    l2: Log,
    moves2: Seq<WindowMove>,
) -> bool {
    match screen.space {
        None => r2 == r && l2 == l && moves2 == moves,
        Some(space) => if hold {
            layout_applied(r, l, space, screen, new_wids, moves, r2, l2, moves2)
        } else {
            followed_and_applied(r, l, space, screen, new_wids, moves, r2, l2, moves2)
        },
    }
}

/// Several screens are laid out. `moves` are the changes of frames that come of it.
pub open spec fn screens_laid_out(
    r: Known,
    l: Log,
    screens: Seq<Screen>,
    new_wids: Seq<WindowId>,
    hold: bool,
    r2: Known,
    l2: Log,
    moves: Seq<WindowMove>,
) -> bool
    decreases screens.len(),
{
    if screens.len() == 0 {
        r2 == r && l2 == l && moves == Seq::<WindowMove>::empty()
    } else {
        exists|m: Known, t: Log, before: Seq<WindowMove>|
            {
                &&& screens_laid_out(r, l, screens.drop_last(), new_wids, hold, m, t, before)
                &&& #[trigger] screen_step(
                    m,
                    t,
                    screens.last(),
                    new_wids,
                    hold,
                    before,
                    r2,
                    l2,
                    moves,
                )
            }
    }
}

/// The changes are handed to the animation manager, or made at once where it does
/// not take them.
pub open spec fn moves_sent(l: Log, mode: AnimationMode, moves: Seq<WindowMove>, l2: Log) -> bool {
    if moves.len() == 0 {
        l2 == ask(l, l2, Req::JumpToEnd(moves))
    } else {
        let t = ask(l, l2, Req::Animate(mode, moves));
        l2 == if answer(t)->Flag_0 {
            t
        } else {
            ask(t, l2, Req::JumpToEnd(moves))
        }
    }
}

/// The changes are made, by way of an animation where nothing speaks against it:
/// the settings, something that the user does with the mouse, or a viewport in motion.
pub open spec fn moves_made(r: Known, l: Log, hold: bool, moves: Seq<WindowMove>, l2: Log) -> bool {
    if hold || !r.config.animate {
        moves_sent(l, AnimationMode::SkipToEnd, moves, l2)
    } else {
        exists|t: Log, moving: bool| #[trigger]
            in_motion(r.layout, l, t, moving) && moves_sent(
                t,
                animation_mode(moving),
                moves,
                l2,
            )
    }
}

/// How new frames are reached while a viewport is in motion, or is not.
pub open spec fn animation_mode(moving: bool) -> AnimationMode {
    if moving {
        AnimationMode::SkipToEnd
    } else {
        AnimationMode::Replace
    }
}

/// Every screen is laid out, and the windows get their frames.
pub open spec fn laid_out(
    r: Known,
    l: Log,
    new_wids: Seq<WindowId>,
    hold: bool,
    r2: Known,
    l2: Log,
) -> bool {
    exists|t: Log, moves: Seq<WindowMove>| #[trigger]
        screens_laid_out(r, l, r.screens, new_wids, hold, r2, t, moves) && moves_made(
            r2,
            t,
            hold,
            moves,
            l2,
        )
}

/// What laying out can change.
pub open spec fn only_placed(r: Known, r2: Known) -> bool {
    &&& r2 == Known { layout: r2.layout, windows: r2.windows, ..r }
    &&& r2.layout == State { viewports: r2.layout.viewports, ..r.layout }
}

impl Reactor {
    fn place_window<H: ReactorHost>(
        &mut self,
        link: &mut Link<H>,
        screen: Screen,
        new_wids: &[WindowId],
        entry: (WindowId, Frame),
        moves: &mut Vec<WindowMove>,
    )
        ensures
            place_step(
                old(self)@,
                old(link).log(),
                screen,
                new_wids@,
                old(moves)@,
                entry,
                final(self)@,
                final(link).log(),
                final(moves)@,
            ),
            grew(old(link).log(), final(link).log()),
    {
        let (wid, target) = entry;
        let from = match self.windows.get(wid) {
            Some(window) => window.frame_monotonic,
            None => {
                return;
            },
        };
        let to = link.round_to_physical(target, screen.scale_factor);
        if link.looks_same(to, from) {
            return;
        }
        let handle = match self.apps.get(wid.pid) {
            Some(app) => app.handle,
            None => {
                return;
            },
        };
        let ghost before = self.windows@;
        if let Some(window) = self.windows.remove(wid) {
            let mut window = window;
            let txid = window.next_txid();
            window.frame_monotonic = to;
            self.windows.insert(wid, window);
            assert(self.windows@ =~= before.insert(wid, window));
            let is_new = position(new_wids, wid).is_some();
            moves.push(WindowMove { handle, wid, from, to, is_new, txid });
        }
    }

    fn place_windows<H: ReactorHost>(
        &mut self,
        link: &mut Link<H>,
        screen: Screen,
        new_wids: &[WindowId],
        frames: &Vec<(WindowId, Frame)>,
        moves: &mut Vec<WindowMove>,
    )
        ensures
            placed(
                old(self)@,
                old(link).log(),
                screen,
                new_wids@,
                old(moves)@,
                frames@,
                final(self)@,
                final(link).log(),
                final(moves)@,
            ),
            only_placed(old(self)@, final(self)@),
            final(self)@.layout == old(self)@.layout,
            grew(old(link).log(), final(link).log()),
    {
        let ghost r = self@;
        let ghost l = link.log();
        let ghost moves0 = moves@;
        let mut i: usize = 0;
        assert(frames@.take(0) == Seq::<(WindowId, Frame)>::empty());
        while i < frames.len()
            invariant
                i <= frames@.len(),
                only_placed(r, self@),
                self@.layout == r.layout,
                placed(
                    r,
                    l,
                    screen,
                    new_wids@,
                    moves0,
                    frames@.take(i as int),
                    self@,
                    link.log(),
                    moves@,
                ),
                grew(l, link.log()),
            decreases frames@.len() - i,
        {
            let ghost m = self@;
            let ghost t = link.log();
            let ghost before = moves@;
            self.place_window(link, screen, new_wids, frames[i], moves);
            let ghost done = frames@.take(i + 1);
            assert(done.drop_last() == frames@.take(i as int));
            assert(place_step(
                m,
                t,
                screen,
                new_wids@,
                before,
                done.last(),
                self@,
                link.log(),
                moves@,
            ));
            i += 1;
        }
        assert(frames@.take(i as int) == frames@);
    }

    fn apply_layout<H: ReactorHost>(
        &mut self,
        link: &mut Link<H>,
        space: SpaceId,
        screen: Screen,
        new_wids: &[WindowId],
        moves: &mut Vec<WindowMove>,
    )
        requires
            old(self)@.layout.spaces.contains_key(space),
        ensures
            layout_applied(
                old(self)@,
                old(link).log(),
                space,
                screen,
                new_wids@,
                old(moves)@,
                final(self)@,
                final(link).log(),
                final(moves)@,
            ),
            only_placed(old(self)@, final(self)@),
            grew(old(link).log(), final(link).log()),
    {
        let ghost r = self@;
        let ghost l = link.log();
        let ghost moves0 = moves@;
        let (frames, groups) = self.layout.calculate_layout_and_groups(
            link,
            space,
            screen.frame,
            &self.config,
        );
        let ghost t = link.log();
        link.groups_updated(space, &groups);
        self.place_windows(link, screen, new_wids, &frames, moves);
        assert(frames_and_groups_shown(
            r.layout,
            l,
            space,
            screen.frame,
            r.config.id,
            t,
            frames@,
            groups@,
        ));
        assert(frames_applied(
            r,
            t,
            space,
            screen,
            new_wids@,
            moves0,
            frames@,
            groups@,
            self@,
            link.log(),
            moves@,
        ));
    }

    fn lay_out_screen<H: ReactorHost>(
        &mut self,
        link: &mut Link<H>,
        screen: Screen,
        new_wids: &[WindowId],
        hold: bool,
        moves: &mut Vec<WindowMove>,
    )
        requires
            screen.space is Some ==> old(self)@.layout.spaces.contains_key(screen.space->0),
        ensures
            screen_step(
                old(self)@,
                old(link).log(),
                screen,
                new_wids@,
                hold,
                old(moves)@,
                final(self)@,
                final(link).log(),
                final(moves)@,
            ),
            only_placed(old(self)@, final(self)@),
            grew(old(link).log(), final(link).log()),
    {
        if let Some(space) = screen.space {
            if hold {
                self.apply_layout(link, space, screen, new_wids, moves);
            } else {
                let ghost r = self@;
                let ghost l = link.log();
                let ghost moves0 = moves@;
                self.layout.update_viewport_for_focus(link, space, screen.frame, &self.config);
                let ghost m = self@;
                let ghost t = link.log();
                assert(m.layout == (State { viewports: m.layout.viewports, ..r.layout }));
                self.apply_layout(link, space, screen, new_wids, moves);
                assert(viewport_followed(
                    r.layout,
                    l,
                    space,
                    screen.frame,
                    r.config,
                    m.layout,
                    t,
                ));
                assert(m == (Known { layout: m.layout, ..r }));
                assert(followed_and_applied(
                    r,
                    l,
                    space,
                    screen,
                    new_wids@,
                    moves0,
                    self@,
                    link.log(),
                    moves@,
                ));
            }
        }
    }

    fn send_moves<H: ReactorHost>(&self, link: &mut Link<H>, mode: AnimationMode, moves: &Vec<WindowMove>)
        ensures
            moves_sent(old(link).log(), mode, moves@, final(link).log()),
            grew(old(link).log(), final(link).log()),
    {
        if moves.len() == 0 {
            link.jump_to_end(moves);
        } else if !link.animate(mode, moves) {
            link.jump_to_end(moves);
        }
    }

    fn make_moves<H: ReactorHost>(&self, link: &mut Link<H>, hold: bool, moves: &Vec<WindowMove>)
        ensures
            moves_made(self@, old(link).log(), hold, moves@, final(link).log()),
            grew(old(link).log(), final(link).log()),
    {
        // What the user does with the mouse is not animated over.
        if hold || !self.config.animate {
            self.send_moves(link, AnimationMode::SkipToEnd, moves);
        } else {
            let ghost l = link.log();
            let moving = self.layout.has_active_scroll_animation(link);
            let ghost t = link.log();
            let mode = if moving {
                AnimationMode::SkipToEnd
            } else {
                AnimationMode::Replace
            };
            self.send_moves(link, mode, moves);
            assert(in_motion(self@.layout, l, t, moving));
        }
    }

    /// Lays out every screen and gives the windows their frames.
    pub fn update_layout<H: ReactorHost>(
        &mut self,
        link: &mut Link<H>,
        new_wids: &[WindowId],
        skip_anim: bool,
    )
        requires
            old(self)@.coherent(),
        ensures
            laid_out(
                old(self)@,
                old(link).log(),
                new_wids@,
                skip_anim,
                final(self)@,
                final(link).log(),
            ),
            only_placed(old(self)@, final(self)@),
            final(self)@.coherent(),
            grew(old(link).log(), final(link).log()),
    {
        let ghost r = self@;
        let ghost l = link.log();
        let mut moves: Vec<WindowMove> = Vec::new();
        let mut i: usize = 0;
        assert(r.screens.take(0) == Seq::<Screen>::empty());
        while i < self.screens.len()
            invariant
                i <= r.screens.len(),
                only_placed(r, self@),
                self@.coherent(),
                screens_laid_out(
                    r,
                    l,
                    r.screens.take(i as int),
                    new_wids@,
                    skip_anim,
                    self@,
                    link.log(),
                    moves@,
                ),
                grew(l, link.log()),
            decreases r.screens.len() - i,
        {
            let ghost m = self@;
            let ghost t = link.log();
            let ghost before = moves@;
            let screen = self.screens[i];
            assert(m.screens[i as int] == screen);
            self.lay_out_screen(link, screen, new_wids, skip_anim, &mut moves);
            let ghost done = r.screens.take(i + 1);
            assert(done.drop_last() == r.screens.take(i as int));
            assert(screen_step(
                m,
                t,
                done.last(),
                new_wids@,
                skip_anim,
                before,
                self@,
                link.log(),
                moves@,
            ));
            i += 1;
        }
        assert(r.screens.take(i as int) == r.screens);
        let ghost t = link.log();
        self.make_moves(link, skip_anim, &moves);
        assert(screens_laid_out(r, l, r.screens, new_wids@, skip_anim, self@, t, moves@));
    }
}

} // verus!
