//! What the mouse does.

use vstd::prelude::*;

use crate::edges::ResizeEdge;
use crate::ids::{NodeId, Point, Real, SpaceId, WindowId, WindowServerId};
use crate::layout::events::{LayoutEvent, LayoutEventView};
use crate::layout::interactive::{
    edges_hit, move_begun, move_ended, move_followed, resize_begun, resize_ended, resize_followed,
    window_hit,
};
use crate::layout::scroll::{wheel_handled, ZERO};
use crate::layout::state::State;
use crate::link::{answer, ask, grew, Link, Log, ReactorHost, Req};
use crate::reactor::discovery::lemma_told_keeps;
use crate::reactor::outcome::{lemma_best_space_exposed, plain, Outcome};
use crate::reactor::placement::laid_out;
use crate::reactor::raising::{layout_told, raised};
use crate::reactor::screens::{best_space, window_space};
use crate::reactor::state::{Known, Reactor, Screen};
use crate::response::Response;

verus! {

impl Known {
    /// The active screen, if it has a space, with that.
    pub open spec fn managed_screen(self) -> Option<(Screen, SpaceId)> {
        match self.active_screen() {
            Some(screen) => match screen.space {
                Some(space) => Some((screen, space)),
                None => None,
            },
            None => None,
        }
    }
}

/// The mouse took hold of a window, if it is over one.
pub open spec fn window_gripped(
    r: Known,
    l: Log,
    screen: Screen,
    space: SpaceId,
    point: Point,
    r2: Known,
    l2: Log,
) -> bool {
    exists|hit: Option<(WindowId, NodeId)>|
        {
            &&& #[trigger] window_hit(r.layout, l, space, point, screen.frame, r.config, l2, hit)
            &&& r2 == match hit {
                Some((wid, node)) => Known {
                    layout: move_begun(r.layout, space, wid, node, point),
                    in_drag: true,
                    ..r
                },
                None => r,
            }
        }
}

/// The mouse took hold of edges, if it is near some, or else of a window.
pub open spec fn gripped(
    r: Known,
    l: Log,
    screen: Screen,
    space: SpaceId,
    point: Point,
    r2: Known,
    l2: Log,
) -> bool {
    exists|t: Log, hit: Option<(NodeId, NodeId, ResizeEdge)>|
        {
            &&& #[trigger] edges_hit(r.layout, l, space, point, screen.frame, r.config, t, hit)
            &&& match hit {
                Some((column, window, edges)) => {
                    &&& l2 == t
                    &&& r2 == Known {
                        layout: resize_begun(r.layout, column, window, edges, point),
                        in_drag: true,
                        ..r
                    }
                },
                None => window_gripped(r, t, screen, space, point, r2, l2),
            }
        }
}

/// The left button went down.
pub open spec fn mouse_down(r: Known, l: Log, point: Point, r2: Known, l2: Log) -> bool {
    match r.managed_screen() {
        Some((screen, space)) => gripped(r, l, screen, space, point, r2, l2),
        None => r2 == r && l2 == l,
    }
}

/// What the mouse holds moves a window, after no edge has moved.
pub open spec fn window_dragged(
    r: Known,
    l: Log,
    screen: Screen,
    point: Point,
    r2: Known,
    l2: Log,
) -> bool {
    exists|s: State, t: Log, changed: bool|
        {
            &&& #[trigger] move_followed(
                r.layout,
                l,
                point,
                screen.frame,
                r.config,
                s,
                t,
                changed,
            )
            &&& if changed {
                laid_out(Known { layout: s, ..r }, t, Seq::empty(), false, r2, l2)
            } else {
                r2 == Known { layout: s, ..r } && l2 == t
            }
        }
}

/// What the mouse holds follows it, edges before windows.
pub open spec fn held_dragged(
    r: Known,
    l: Log,
    screen: Screen,
    point: Point,
    r2: Known,
    l2: Log,
) -> bool {
    exists|s: State, t: Log, changed: bool|
        {
            &&& #[trigger] resize_followed(r.layout, l, point, screen.frame, s, t, changed)
            &&& if changed {
                laid_out(Known { layout: s, ..r }, t, Seq::empty(), true, r2, l2)
            } else {
                window_dragged(Known { layout: s, ..r }, t, screen, point, r2, l2)
            }
        }
}

/// The mouse moved with the left button down.
pub open spec fn mouse_dragged(r: Known, l: Log, point: Point, r2: Known, l2: Log) -> bool {
    match r.managed_screen() {
        Some((screen, _)) => held_dragged(r, l, screen, point, r2, l2),
        None => r2 == r && l2 == l,
    }
}

/// The mouse lets go of what it holds.
pub open spec fn let_go(r: Known, l: Log, screen: Screen, space: SpaceId, r2: Known, l2: Log) -> bool {
    exists|s: State, t: Log, s2: State|
        {
            &&& #[trigger] resize_ended(r.layout, l, space, screen.frame, r.config, s, t)
            &&& #[trigger] move_ended(s, t, space, screen.frame, r.config, s2, l2)
            &&& r2 == Known { layout: s2, in_drag: false, ..r }
        }
}

/// The left button came up.
pub open spec fn mouse_up(r: Known, l: Log, r2: Known, l2: Log) -> bool {
    match r.managed_screen() {
        Some((screen, space)) if r.layout.resizing is Some || r.layout.moving is Some => let_go(
            r,
            l,
            screen,
            space,
            r2,
            l2,
        ),
        _ => r2 == Known { in_drag: false, ..r } && l2 == l,
    }
}

/// The layout manager hears which window the mouse is over, and which has the focus.
pub open spec fn over_told(
    r: Known,
    l: Log,
    over: (SpaceId, WindowId),
    main_space: Option<SpaceId>,
    r2: Known,
    l2: Log,
) -> bool {
    layout_told(
        r,
        l,
        LayoutEventView::MouseMovedOverWindow {
            over,
            current_main: match (main_space, r.main) {
                (Some(space), Some(wid)) => Some((space, wid)),
                _ => None,
            },
        },
        Seq::empty(),
        true,
        r2,
        l2,
    )
}

/// The mouse is over a window of a space.
pub open spec fn over_window(
    r: Known,
    l: Log,
    over: (SpaceId, WindowId),
    r2: Known,
    l2: Log,
) -> bool {
    exists|t: Log, main_space: Option<SpaceId>| #[trigger]
        window_space(r, l, r.main, t, main_space) && over_told(r, t, over, main_space, r2, l2)
}

/// The mouse is over a known window; its space decides.
pub open spec fn over_known(
    r: Known,
    l: Log,
    wid: WindowId,
    r2: Known,
    l2: Log,
    outcome: Outcome,
) -> bool {
    exists|t: Log, to: Option<SpaceId>|
        {
            &&& #[trigger] best_space(l, r.screens, r.windows[wid].frame_monotonic, t, to)
            &&& match to {
                // The screen has no space.
                None => r2 == r && l2 == t && outcome == Outcome::Done,
                Some(space) => over_window(r, t, (space, wid), r2, l2) && outcome == plain(),
            }
        }
}

/// The mouse came over a window.
pub open spec fn mouse_over(
    r: Known,
    l: Log,
    wsid: WindowServerId,
    r2: Known,
    l2: Log,
    outcome: Outcome,
) -> bool {
    if r.window_ids.contains_key(wsid) && r.windows.contains_key(r.window_ids[wsid]) {
        over_known(r, l, r.window_ids[wsid], r2, l2, outcome)
    } else {
        r2 == r && l2 == l && outcome == Outcome::Done
    }
}

/// The layout manager hears of the wheel, and its response is passed on.
pub open spec fn wheel_told(
    r: Known,
    l: Log,
    screen: Screen,
    space: SpaceId,
    delta: Real,
    r2: Known,
    l2: Log,
) -> bool {
    exists|s: State, t: Log, response: Response|
        {
            &&& #[trigger] wheel_handled(
                r.layout,
                l,
                space,
                delta,
                screen.frame,
                r.config.scroll@,
                s,
                t,
                response,
            )
            &&& r2 == Known { layout: s, ..r }
            &&& raised(r2, t, response, false, l2)
        }
}

/// The wheel was turned. It counts with the modifier key only, and while scroll
/// layouts are on; sideways turns count before others.
pub open spec fn wheel_turned(
    r: Known,
    l: Log,
    delta_x: Real,
    delta_y: Real,
    alt_held: bool,
    r2: Known,
    l2: Log,
    outcome: Outcome,
) -> bool {
    if !r.config.scroll.enable || !alt_held {
        r2 == r && l2 == l && outcome == Outcome::Done
    } else {
        &&& outcome == plain()
        &&& match r.managed_screen() {
            None => r2 == r && l2 == l,
            Some((screen, space)) => {
                let t = ask(l, l2, Req::Equal(delta_x, Real(ZERO)));
                wheel_told(
                    r,
                    t,
                    screen,
                    space,
                    if answer(t)->Flag_0 {
                        delta_y
                    } else {
                        delta_x
                    },
                    r2,
                    l2,
                )
            },
        }
    }
}

impl Reactor {
    fn managed_screen(&self) -> (managed: Option<(Screen, SpaceId)>)
        ensures
            managed == self@.managed_screen(),
            self@.coherent() && managed is Some ==> self@.layout.spaces.contains_key(
                (managed->0).1,
            ),
    {
        match self.active_screen() {
            Some(screen) => match screen.space {
                Some(space) => Some((screen, space)),
                None => None,
            },
            None => None,
        }
    }

    /// Takes hold of what the mouse is at.
    pub fn on_mouse_down<H: ReactorHost>(&mut self, link: &mut Link<H>, point: Point)
        requires
            old(self)@.coherent(),
        ensures
            mouse_down(old(self)@, old(link).log(), point, final(self)@, final(link).log()),
            final(self)@.coherent(),
            grew(old(link).log(), final(link).log()),
    {
        let (screen, space) = match self.managed_screen() {
            Some(managed) => managed,
            None => {
                return;
            },
        };
        let ghost r = self@;
        let ghost l = link.log();
        let hit = self.layout.hit_test_scroll_edges(
            link,
            space,
            point,
            screen.frame,
            &self.config,
        );
        let ghost t = link.log();
        assert(edges_hit(r.layout, l, space, point, screen.frame, r.config, t, hit));
        if let Some((column, window, edges)) = hit {
            let _ = self.layout.begin_interactive_resize(column, window, edges, point);
            self.in_drag = true;
        } else {
            let hit = self.layout.hit_test_scroll_window(
                link,
                space,
                point,
                screen.frame,
                &self.config,
            );
            assert(window_hit(
                r.layout,
                t,
                space,
                point,
                screen.frame,
                r.config,
                link.log(),
                hit,
            ));
            if let Some((wid, node)) = hit {
                let _ = self.layout.begin_interactive_move(space, wid, node, point);
                self.in_drag = true;
            }
            assert(window_gripped(r, t, screen, space, point, self@, link.log()));
        }
        assert(gripped(r, l, screen, space, point, self@, link.log()));
    }

    fn drag_window<H: ReactorHost>(&mut self, link: &mut Link<H>, screen: Screen, point: Point)
        requires
            old(self)@.coherent(),
        ensures
            window_dragged(
                old(self)@,
                old(link).log(),
                screen,
                point,
                final(self)@,
                final(link).log(),
            ),
            final(self)@.coherent(),
            grew(old(link).log(), final(link).log()),
    {
        let ghost r = self@;
        let ghost l = link.log();
        let changed = self.layout.update_interactive_move(
            link,
            point,
            screen.frame,
            &self.config,
        );
        let ghost m = self@;
        let ghost t = link.log();
        assert(move_followed(
            r.layout,
            l,
            point,
            screen.frame,
            r.config,
            m.layout,
            t,
            changed,
        ));
        assert(m.layout.spaces == r.layout.spaces);
        if changed {
            let none: [WindowId; 0] = [];
            let new_wids: &[WindowId] = &none;
            assert(new_wids@ =~= Seq::<WindowId>::empty());
            self.update_layout(link, new_wids, false);
        }
    }

    /// Lets what the mouse holds follow it.
    pub fn on_mouse_dragged<H: ReactorHost>(&mut self, link: &mut Link<H>, point: Point)
        requires
            old(self)@.coherent(),
        ensures
            mouse_dragged(old(self)@, old(link).log(), point, final(self)@, final(link).log()),
            final(self)@.coherent(),
            grew(old(link).log(), final(link).log()),
    {
        let (screen, _) = match self.managed_screen() {
            Some(managed) => managed,
            None => {
                return;
            },
        };
        let ghost r = self@;
        let ghost l = link.log();
        let changed = self.layout.update_interactive_resize(link, point, screen.frame);
        let ghost m = self@;
        let ghost t = link.log();
        assert(resize_followed(r.layout, l, point, screen.frame, m.layout, t, changed));
        if changed {
            let none: [WindowId; 0] = [];
            let new_wids: &[WindowId] = &none;
            assert(new_wids@ =~= Seq::<WindowId>::empty());
            self.update_layout(link, new_wids, true);
        } else {
            self.drag_window(link, screen, point);
        }
        assert(held_dragged(r, l, screen, point, self@, link.log()));
    }

    /// Lets go of what the mouse holds.
    pub fn on_mouse_up<H: ReactorHost>(&mut self, link: &mut Link<H>)
        requires
            old(self)@.coherent(),
        ensures
            mouse_up(old(self)@, old(link).log(), final(self)@, final(link).log()),
            final(self)@.coherent(),
            grew(old(link).log(), final(link).log()),
    {
        if self.layout.has_interactive_state() {
            if let Some((screen, space)) = self.managed_screen() {
                let ghost r = self@;
                let ghost l = link.log();
                self.layout.end_interactive_resize(link, space, screen.frame, &self.config);
                let ghost s = self@.layout;
                let ghost t = link.log();
                assert(resize_ended(r.layout, l, space, screen.frame, r.config, s, t));
                assert(s.spaces == r.layout.spaces);
                self.layout.end_interactive_move(link, space, screen.frame, &self.config);
                assert(move_ended(
                    s,
                    t,
                    space,
                    screen.frame,
                    r.config,
                    self@.layout,
                    link.log(),
                ));
                assert(self@.layout.spaces == s.spaces);
            }
        }
        self.in_drag = false;
    }

    /// Lets the focus follow the mouse.
    pub fn on_mouse_over<H: ReactorHost>(&mut self, link: &mut Link<H>, wsid: WindowServerId) -> (outcome:
        Outcome)
        requires
            old(self)@.coherent(),
        ensures
            mouse_over(
                old(self)@,
                old(link).log(),
                wsid,
                final(self)@,
                final(link).log(),
                outcome,
            ),
            final(self)@.coherent(),
            grew(old(link).log(), final(link).log()),
    {
        let wid = match self.window_ids.get(wsid) {
            Some(wid) => *wid,
            None => {
                return Outcome::Done;
            },
        };
        let frame = match self.windows.get(wid) {
            Some(window) => window.frame_monotonic,
            None => {
                return Outcome::Done;
            },
        };
        let ghost r = self@;
        let ghost l = link.log();
        let to = self.best_space_for_window(link, &frame);
        let ghost t = link.log();
        assert(best_space(l, r.screens, frame, t, to));
        let to_space = match to {
            Some(space) => space,
            None => {
                return Outcome::Done;
            },
        };
        let main_space = self.main_window_space(link);
        let ghost t1 = link.log();
        let current_main = match main_space {
            Some(space) => match self.main_window {
                Some(id) => Some((space, id)),
                None => None,
            },
            None => None,
        };
        proof {
            lemma_best_space_exposed(r, l, frame, t, to);
            if main_space is Some {
                lemma_best_space_exposed(
                    r,
                    t,
                    r.windows[r.main->0].frame_monotonic,
                    t1,
                    main_space,
                );
            }
        }
        let over = (to_space, wid);
        let event = LayoutEvent::MouseMovedOverWindow { over, current_main };
        let ghost heard = event@;
        self.send_layout_event_from_mouse(link, event, true);
        proof {
            lemma_told_keeps(r, t1, heard, Seq::empty(), true, self@, link.log());
        }
        assert(window_space(r, t, r.main, t1, main_space));
        assert(over_told(r, t1, over, main_space, self@, link.log()));
        assert(over_window(r, t, over, self@, link.log()));
        Outcome::Settle { new: None, is_resize: false }
    }

    fn tell_wheel<H: ReactorHost>(
        &mut self,
        link: &mut Link<H>,
        screen: Screen,
        space: SpaceId,
        delta: Real,
    )
        requires
            old(self)@.coherent(),
            old(self)@.layout.spaces.contains_key(space),
        ensures
            wheel_told(
                old(self)@,
                old(link).log(),
                screen,
                space,
                delta,
                final(self)@,
                final(link).log(),
            ),
            final(self)@.coherent(),
            grew(old(link).log(), final(link).log()),
    {
        let ghost r = self@;
        let ghost l = link.log();
        let response = self.layout.handle_scroll_wheel(
            link,
            space,
            delta,
            &screen.frame,
            &self.config.scroll,
        );
        let ghost t = link.log();
        let ghost said = response@;
        self.handle_layout_response(link, response);
        assert(wheel_handled(
            r.layout,
            l,
            space,
            delta,
            screen.frame,
            r.config.scroll@,
            self@.layout,
            t,
            said,
        ));
        assert(self@.layout.spaces == r.layout.spaces);
    }

    /// Moves through a scroll layout as the wheel says.
    pub fn on_wheel<H: ReactorHost>(
        &mut self,
        link: &mut Link<H>,
        delta_x: Real,
        delta_y: Real,
        alt_held: bool,
    ) -> (outcome: Outcome)
        requires
            old(self)@.coherent(),
        ensures
            wheel_turned(
                old(self)@,
                old(link).log(),
                delta_x,
                delta_y,
                alt_held,
                final(self)@,
                final(link).log(),
                outcome,
            ),
            final(self)@.coherent(),
            grew(old(link).log(), final(link).log()),
    {
        if !self.config.scroll.enable || !alt_held {
            return Outcome::Done;
        }
        if let Some((screen, space)) = self.managed_screen() {
            let delta = if link.equal(delta_x, Real(ZERO)) {
                delta_y
            } else {
                delta_x
            };
            self.tell_wheel(link, screen, space, delta);
        }
        Outcome::Settle { new: None, is_resize: false }
    }
}

} // verus!
