//! Screens and spaces that change.

use vstd::prelude::*;

use crate::ids::{Frame, Real, SpaceId, WindowServerId};
use crate::layout::events::{event_handled, LayoutEvent, LayoutEventView};
use crate::layout::laws::law_event_keeps_spaces;
use crate::layout::state::State;
use crate::link::{ask, grew, Link, Log, ReactorHost, Req};
use crate::messages::Converter;
use crate::reactor::discovery::{all_asked, lemma_told_keeps, main_told};
use crate::reactor::event::{WindowServerInfo, WindowsOnScreen};
use crate::reactor::outcome::{plain, Outcome};
use crate::reactor::raising::{raised_if_news, told};
use crate::reactor::screens::active_updated;
use crate::reactor::state::{Known, Reactor, Screen};
use crate::reactor::visible::all_read;
use crate::response::{coalesced, EventResponse, Response};

verus! {

/// The number of screens that all three lists describe.
pub open spec fn shortest(a: nat, b: nat, c: nat) -> nat {
    if a <= b && a <= c {
        a
    } else if b <= c {
        b
    } else {
        c
    }
}

/// The screens that three lists describe.
pub open spec fn screens_from(
    frames: Seq<Frame>,
    spaces: Seq<Option<SpaceId>>,
    scale_factors: Seq<Real>,
) -> Seq<Screen> {
    Seq::new(
        shortest(frames.len(), spaces.len(), scale_factors.len()),
        |i: int| Screen { frame: frames[i], space: spaces[i], scale_factor: scale_factors[i] },
    )
}

/// A screen's space, if it has one, is shown on it.
pub open spec fn expose_step(r: Known, l: Log, screen: Screen, r2: Known, l2: Log) -> bool {
    match screen.space {
        None => r2 == r && l2 == l,
        Some(space) => told(
            r,
            l,
            LayoutEventView::SpaceExposed(space, screen.frame.size),
            r2,
            l2,
        ),
    }
}

/// The same for several screens.
pub open spec fn exposed_one_by_one(r: Known, l: Log, screens: Seq<Screen>, r2: Known, l2: Log) -> bool
    decreases screens.len(),
{
    if screens.len() == 0 {
        r2 == r && l2 == l
    } else {
        exists|m: Known, t: Log|
            exposed_one_by_one(r, l, screens.drop_last(), m, t) && #[trigger] expose_step(
                m,
                t,
                screens.last(),
                r2,
                l2,
            )
    }
}

/// The active screen is found, and the group bars hear of the change.
pub open spec fn change_closed(
    r: Known,
    l: Log,
    spaces: Seq<Option<SpaceId>>,
    converter: Converter,
    r2: Known,
    l2: Log,
) -> bool {
    exists|t: Log| #[trigger]
        active_updated(r, l, r2, t) && l2 == ask(
            t,
            l2,
            Req::ScreenParametersChanged(spaces, converter),
        )
}

/// The screens are these. The layout manager hears of the space of each.
pub open spec fn screens_changed(
    r: Known,
    l: Log,
    screens: Seq<Screen>,
    spaces: Seq<Option<SpaceId>>,
    converter: Converter,
    r2: Known,
    l2: Log,
) -> bool {
    exists|m: Known, t: Log| #[trigger]
        exposed_one_by_one(Known { screens, ..r }, l, screens, m, t) && change_closed(
            m,
            t,
            spaces,
            converter,
            r2,
            l2,
        )
}

/// Responses that come one after the other, in one.
pub open spec fn joined(before: Option<Response>, response: Response) -> Option<Response> {
    match before {
        None => Some(response),
        Some(before) => Some(coalesced(before, response)),
    }
}

/// What a response says, if there is one.
pub open spec fn said_by(response: Option<EventResponse>) -> Option<Response> {
    match response {
        Some(response) => Some(response@),
        None => None,
    }
}

/// A screen's space, if it has one, is shown on it; the response is kept.
pub open spec fn gather_step(
    s: State,
    l: Log,
    screen: Screen,
    before: Option<Response>,
    s2: State,
    l2: Log,
    after: Option<Response>,
) -> bool {
    match screen.space {
        None => s2 == s && l2 == l && after == before,
        Some(space) => exists|response: Response|
            {
                &&& #[trigger] event_handled(
                    s,
                    l,
                    LayoutEventView::SpaceExposed(space, screen.frame.size),
                    s2,
                    l2,
                    response,
                )
                &&& after == joined(before, response)
            },
    }
}

/// The same for several screens; the responses are joined.
pub open spec fn gathered(
    s: State,
    l: Log,
    screens: Seq<Screen>,
    s2: State,
    l2: Log,
    response: Option<Response>,
) -> bool
    decreases screens.len(),
{
    if screens.len() == 0 {
        s2 == s && l2 == l && response is None
    } else {
        exists|m: State, t: Log, before: Option<Response>|
            gathered(s, l, screens.drop_last(), m, t, before) && #[trigger] gather_step(
                m,
                t,
                screens.last(),
                before,
                s2,
                l2,
                response,
            )
    }
}

/// The joined response, if there is any, is passed on if it is news.
pub open spec fn news_raised(
    r: Known,
    l: Log,
    response: Option<Response>,
    order: Seq<WindowServerId>,
    l2: Log,
) -> bool {
    match response {
        None => l2 == l,
        Some(response) => raised_if_news(r, l, response, order, false, l2),
    }
}

/// The active screen is found, and the applications are asked for their windows.
pub open spec fn visit_closed(r: Known, l: Log, r2: Known, l2: Log) -> bool {
    exists|t: Log| #[trigger] active_updated(r, l, r2, t) && all_asked(r2, t, l2)
}

/// The layout manager hears of the main window, and the change is closed.
pub open spec fn visit_focused(r: Known, l: Log, r2: Known, l2: Log) -> bool {
    exists|m: Known, t: Log| #[trigger] main_told(r, l, true, m, t) && visit_closed(m, t, r2, l2)
}

/// The joined response is passed on, and so on.
pub open spec fn visit_raised(
    r: Known,
    l: Log,
    response: Option<Response>,
    order: Seq<WindowServerId>,
    r2: Known,
    l2: Log,
) -> bool {
    exists|t: Log| #[trigger]
        news_raised(r, l, response, order, t) && visit_focused(r, t, r2, l2)
}

/// The spaces on the screens are shown.
pub open spec fn visited(
    r: Known,
    l: Log,
    order: Seq<WindowServerId>,
    r2: Known,
    l2: Log,
) -> bool {
    exists|s: State, t: Log, response: Option<Response>| #[trigger]
        gathered(r.layout, l, r.screens, s, t, response) && visit_raised(
            Known { layout: s, ..r },
            t,
            response,
            order,
            r2,
            l2,
        )
}

/// The screens, with these spaces on them.
pub open spec fn with_spaces(screens: Seq<Screen>, spaces: Seq<Option<SpaceId>>) -> Seq<Screen> {
    Seq::new(screens.len(), |i: int| Screen { space: spaces[i], ..screens[i] })
}

/// The mouse holds nothing, the screens have these spaces.
pub open spec fn moved_in(r: Known, spaces: Seq<Option<SpaceId>>) -> Known {
    Known {
        layout: State { resizing: None, moving: None, ..r.layout },
        in_drag: false,
        screens: with_spaces(r.screens, spaces),
        ..r
    }
}

/// Other spaces are on the screens. A change that does not fit the number of
/// screens is ignored, but for what it says of the windows on screen.
pub open spec fn space_changed(
    r: Known,
    l: Log,
    spaces: Seq<Option<SpaceId>>,
    visible: Seq<WindowServerId>,
    infos: Seq<WindowServerInfo>,
    r2: Known,
    l2: Log,
    outcome: Outcome,
) -> bool {
    let m = all_read(r, visible, infos);
    if spaces.len() != r.screens.len() {
        r2 == m && l2 == l && outcome == Outcome::Done
    } else {
        visited(moved_in(m, spaces), l, visible, r2, l2) && outcome == plain()
    }
}

/// The first `n` of the screens have spaces that were exposed.
pub open spec fn exposed_up_to(r: Known, n: int) -> bool {
    forall|i: int|
        0 <= i < n && (#[trigger] r.screens[i]).space is Some ==> r.layout.spaces.contains_key(
            r.screens[i].space->0,
        )
}

impl Reactor {
    fn expose_one_by_one<H: ReactorHost>(&mut self, link: &mut Link<H>)
        ensures
            exposed_one_by_one(
                old(self)@,
                old(link).log(),
                old(self)@.screens,
                final(self)@,
                final(link).log(),
            ),
            final(self)@ == (Known { layout: final(self)@.layout, ..old(self)@ }),
            final(self)@.coherent(),
            grew(old(link).log(), final(link).log()),
    {
        let ghost r = self@;
        let ghost l = link.log();
        let mut i: usize = 0;
        assert(r.screens.take(0) == Seq::<Screen>::empty());
        while i < self.screens.len()
            invariant
                i <= r.screens.len(),
                self@ == (Known { layout: self@.layout, ..r }),
                exposed_up_to(self@, i as int),
                exposed_one_by_one(r, l, r.screens.take(i as int), self@, link.log()),
                grew(l, link.log()),
            decreases r.screens.len() - i,
        {
            let ghost m = self@;
            let ghost t = link.log();
            let screen = self.screens[i];
            assert(m.screens[i as int] == screen);
            if let Some(space) = screen.space {
                let event = LayoutEvent::SpaceExposed(space, screen.frame.size);
                let ghost heard = event@;
                self.send_layout_event(link, event);
                proof {
                    lemma_told_keeps(m, t, heard, Seq::empty(), false, self@, link.log());
                }
            }
            let ghost done = r.screens.take(i + 1);
            assert(done.drop_last() == r.screens.take(i as int));
            assert(expose_step(m, t, done.last(), self@, link.log()));
            i += 1;
        }
        assert(r.screens.take(i as int) == r.screens);
    }

    /// Takes over which screens there are.
    pub fn on_screens_changed<H: ReactorHost>(
        &mut self,
        link: &mut Link<H>,
        frames: &Vec<Frame>,
        spaces: &Vec<Option<SpaceId>>,
        scale_factors: &Vec<Real>,
        converter: Converter,
    )
        ensures
            screens_changed(
                old(self)@,
                old(link).log(),
                screens_from(frames@, spaces@, scale_factors@),
                spaces@,
                converter,
                final(self)@,
                final(link).log(),
            ),
            final(self)@.coherent(),
            grew(old(link).log(), final(link).log()),
    {
        let ghost r = self@;
        let ghost l = link.log();
        let ghost all = screens_from(frames@, spaces@, scale_factors@);
        let mut screens: Vec<Screen> = Vec::new();
        let mut i: usize = 0;
        while i < frames.len() && i < spaces.len() && i < scale_factors.len()
            invariant
                i <= frames@.len(),
                i <= spaces@.len(),
                i <= scale_factors@.len(),
                all == screens_from(frames@, spaces@, scale_factors@),
                screens@ == all.take(i as int),
            decreases frames@.len() - i,
        {
            screens.push(
                Screen { frame: frames[i], space: spaces[i], scale_factor: scale_factors[i] },
            );
            assert(screens@ =~= all.take(i + 1));
            i += 1;
        }
        assert(screens@ =~= all);
        self.screens = screens;
        self.expose_one_by_one(link);
        let ghost m = self@;
        let ghost t = link.log();
        self.update_active_screen(link);
        let ghost t1 = link.log();
        link.screen_parameters_changed(spaces, converter);
        assert(active_updated(m, t, self@, t1));
        assert(change_closed(m, t, spaces@, converter, self@, link.log()));
        assert(exposed_one_by_one(Known { screens: all, ..r }, l, all, m, t));
    }

    fn gather<H: ReactorHost>(&mut self, link: &mut Link<H>) -> (response: Option<EventResponse>)
        ensures
            gathered(
                old(self)@.layout,
                old(link).log(),
                old(self)@.screens,
                final(self)@.layout,
                final(link).log(),
                said_by(response),
            ),
            final(self)@ == (Known { layout: final(self)@.layout, ..old(self)@ }),
            final(self)@.coherent(),
            grew(old(link).log(), final(link).log()),
    {
        let ghost r = self@;
        let ghost l = link.log();
        let mut joint: Option<EventResponse> = None;
        let ghost mut said: Option<Response> = None;
        let mut i: usize = 0;
        assert(r.screens.take(0) == Seq::<Screen>::empty());
        while i < self.screens.len()
            invariant
                i <= r.screens.len(),
                self@ == (Known { layout: self@.layout, ..r }),
                exposed_up_to(self@, i as int),
                said == said_by(joint),
                gathered(
                    r.layout,
                    l,
                    r.screens.take(i as int),
                    self@.layout,
                    link.log(),
                    said,
                ),
                grew(l, link.log()),
            decreases r.screens.len() - i,
        {
            let ghost m = self@.layout;
            let ghost t = link.log();
            let ghost before = said;
            let screen = self.screens[i];
            assert(self@.screens[i as int] == screen);
            if let Some(space) = screen.space {
                let event = LayoutEvent::SpaceExposed(space, screen.frame.size);
                let ghost heard = event@;
                let response = self.layout.handle_event(link, event);
                proof {
                    law_event_keeps_spaces(m, t, heard, self@.layout, link.log(), response@);
                    said = joined(before, response@);
                }
                joint = match joint {
                    Some(first) => Some(first.coalesce(response)),
                    None => Some(response),
                };
            }
            let ghost done = r.screens.take(i + 1);
            assert(done.drop_last() == r.screens.take(i as int));
            assert(gather_step(m, t, done.last(), before, self@.layout, link.log(), said));
            i += 1;
        }
        assert(r.screens.take(i as int) == r.screens);
        joint
    }

    fn visit<H: ReactorHost>(&mut self, link: &mut Link<H>, order: &Vec<WindowServerId>)
        ensures
            visited(
                old(self)@,
                old(link).log(),
                order@,
                final(self)@,
                final(link).log(),
            ),
            final(self)@.coherent(),
            grew(old(link).log(), final(link).log()),
    {
        let ghost r = self@;
        let ghost l = link.log();
        let response = self.gather(link);
        let ghost said = said_by(response);
        let ghost m = self@;
        let ghost t = link.log();
        if let Some(response) = response {
            self.handle_layout_response_with_visible_window_order(
                link,
                response,
                Some(order.as_slice()),
                false,
            );
        }
        let ghost t1 = link.log();
        self.tell_main(link, true);
        let ghost m1 = self@;
        let ghost t2 = link.log();
        self.update_active_screen(link);
        let ghost t3 = link.log();
        self.update_visible_windows(link);
        assert(active_updated(m1, t2, self@, t3));
        assert(visit_closed(m1, t2, self@, link.log()));
        assert(main_told(m, t1, true, m1, t2));
        assert(visit_focused(m, t1, self@, link.log()));
        assert(news_raised(m, t, said, order@, t1));
        assert(visit_raised(m, t, said, order@, self@, link.log()));
        assert(gathered(r.layout, l, r.screens, m.layout, t, said));
        assert(m == (Known { layout: m.layout, ..r }));
    }

    /// Takes over which spaces are on the screens.
    pub fn on_space_changed<H: ReactorHost>(
        &mut self,
        link: &mut Link<H>,
        spaces: &Vec<Option<SpaceId>>,
        on_screen: WindowsOnScreen,
    ) -> (outcome: Outcome)
        requires
            old(self)@.coherent(),
        ensures
            space_changed(
                old(self)@,
                old(link).log(),
                spaces@,
                on_screen.visible@,
                on_screen.info@,
                final(self)@,
                final(link).log(),
                outcome,
            ),
            final(self)@.coherent(),
            grew(old(link).log(), final(link).log()),
    {
        let order = on_screen.visible.clone();
        assert(order@ =~= on_screen.visible@);
        self.update_complete_window_server_info(on_screen);
        if spaces.len() != self.screens.len() {
            return Outcome::Done;
        }
        self.layout.cancel_interactive_state();
        self.in_drag = false;
        let ghost m = self@;
        let ghost all = with_spaces(m.screens, spaces@);
        let mut screens: Vec<Screen> = Vec::new();
        let mut i: usize = 0;
        while i < self.screens.len()
            invariant
                i <= m.screens.len(),
                self@ == m,
                spaces@.len() == m.screens.len(),
                all == with_spaces(m.screens, spaces@),
                screens@ == all.take(i as int),
            decreases m.screens.len() - i,
        {
            let screen = self.screens[i];
            screens.push(Screen { space: spaces[i], ..screen });
            assert(screens@ =~= all.take(i + 1));
            i += 1;
        }
        assert(screens@ =~= all);
        self.screens = screens;
        self.visit(link, &order);
        Outcome::Settle { new: None, is_resize: false }
    }
}

} // verus!
