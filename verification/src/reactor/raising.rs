//! Passing events on to the layout manager, and its responses on to be raised.

use vstd::prelude::*;

use crate::collections::{each_once, lemma_filter_step, with, Key, VecSet};
use crate::ids::{Point, SpaceId, WindowId, WindowServerId};
use crate::layout::events::{event_handled, event_known, LayoutEvent, LayoutEventView};
use crate::layout::state::State;
use crate::link::{answer, ask, grew, Link, Log, ReactorHost, Req};
use crate::messages::{AppContact, RaiseRequest, RaiseRequestView};
use crate::reactor::screens::best_space;
use crate::reactor::state::{AppState, Known, Reactor};
use crate::reactor::visible::response_filtered;
use crate::response::{EventResponse, Response};

verus! {

/// The windows of one application in one space are raised together.
#[derive(Clone, Copy, Debug, PartialEq, Eq, Structural)]
pub struct Pile {
    pub pid: i32,
    pub space: Option<SpaceId>,
}

impl Key for Pile {
    fn same(&self, other: &Pile) -> (same: bool) {
        *self == *other
    }
}

/// A window and the pile that it is raised with.
#[derive(Clone, Copy, Debug, PartialEq, Eq, Structural)]
pub struct Sheet {
    pub pile: Pile,
    pub wid: WindowId,
}

impl Key for AppContact {
    fn same(&self, other: &AppContact) -> (same: bool) {
        *self == *other
    }
}

/// The handles of the applications that have some of the windows, each once.
pub open spec fn handles_for(apps: Map<i32, AppState>, wids: Seq<WindowId>) -> Seq<AppContact>
    decreases wids.len(),
{
    if wids.len() == 0 {
        Seq::empty()
    } else {
        let front = handles_for(apps, wids.drop_last());
        let pid = wids.last().pid;
        if apps.contains_key(pid) {
            with(front, AppContact { pid, handle: apps[pid].handle })
        } else {
            front
        }
    }
}

/// One window more is put to its pile, if it is known.
pub open spec fn pile_step(
    r: Known,
    l: Log,
    sheets: Seq<Sheet>,
    wid: WindowId,
    l2: Log,
    sheets2: Seq<Sheet>,
) -> bool {
    if r.windows.contains_key(wid) {
        exists|space: Option<SpaceId>|
            {
                &&& #[trigger] best_space(
                    l,
                    r.screens,
                    r.windows[wid].frame_monotonic,
                    l2,
                    space,
                )
                &&& sheets2 == sheets.push(Sheet { pile: Pile { pid: wid.pid, space }, wid })
            }
    } else {
        l2 == l && sheets2 == sheets
    }
}

/// The windows that are known, each with its pile.
pub open spec fn piled(r: Known, l: Log, wids: Seq<WindowId>, l2: Log, sheets: Seq<Sheet>) -> bool
    decreases wids.len(),
{
    if wids.len() == 0 {
        l2 == l && sheets == Seq::<Sheet>::empty()
    } else {
        exists|t: Log, before: Seq<Sheet>|
            piled(r, l, wids.drop_last(), t, before) && #[trigger] pile_step(
                r,
                t,
                before,
                wids.last(),
                l2,
                sheets,
            )
    }
}

/// The piles, in the order in which they were begun.
pub open spec fn piles_of(sheets: Seq<Sheet>) -> Seq<Pile> {
    each_once(sheets.map_values(|sheet: Sheet| sheet.pile))
}

/// The windows of a pile, in order.
pub open spec fn windows_in(sheets: Seq<Sheet>, pile: Pile) -> Seq<WindowId> {
    sheets.filter(|sheet: Sheet| sheet.pile == pile).map_values(|sheet: Sheet| sheet.wid)
}

/// The windows, pile by pile.
pub open spec fn by_pile(sheets: Seq<Sheet>) -> Seq<Seq<WindowId>> {
    piles_of(sheets).map_values(|pile: Pile| windows_in(sheets, pile))
}

/// All windows that a response speaks of, the one to focus last.
pub open spec fn all_windows(response: Response) -> Seq<WindowId> {
    match response.focus {
        Some(wid) => response.raise.push(wid),
        None => response.raise,
    }
}

/// Whether the mouse jumps to the window that gets the focus: where the settings
/// want it, and it was not the mouse that moved the focus.
pub open spec fn mouse_jumps(r: Known, focus: Option<WindowId>, from_mouse: bool) -> bool {
    &&& r.config.mouse_follows_focus
    &&& !from_mouse
    &&& focus is Some
    &&& r.windows.contains_key(focus->0)
}

/// The request is put together and sent.
pub open spec fn request_sent(
    r: Known,
    l: Log,
    response: Response,
    sheets: Seq<Sheet>,
    from_mouse: bool,
    l2: Log,
) -> bool {
    let jumps = mouse_jumps(r, response.focus, from_mouse);
    let asked = ask(l, l2, Req::Middle(r.windows[response.focus->0].frame_monotonic));
    let (t, place): (Log, Option<Point>) = if jumps {
        (asked, Some(answer(asked)->Place_0))
    } else {
        (l, None)
    };
    l2 == ask(
        t,
        l2,
        Req::Raise(
            RaiseRequestView {
                raise_windows: by_pile(sheets),
                focus_window: match response.focus {
                    Some(wid) => Some((wid, place)),
                    None => None,
                },
                app_handles: handles_for(r.apps, all_windows(response)),
            },
        ),
    )
}

/// A response is passed on, unless it asks for nothing.
pub open spec fn raised(r: Known, l: Log, response: Response, from_mouse: bool, l2: Log) -> bool {
    if response.raise.len() == 0 && response.focus is None {
        l2 == l
    } else {
        exists|t: Log, sheets: Seq<Sheet>| #[trigger]
            piled(r, l, response.raise, t, sheets) && request_sent(
                r,
                t,
                response,
                sheets,
                from_mouse,
                l2,
            )
    }
}

/// A response is passed on if it would change the windows on screen.
pub open spec fn raised_if_news(
    r: Known,
    l: Log,
    response: Response,
    order: Seq<WindowServerId>,
    from_mouse: bool,
    l2: Log,
) -> bool {
    exists|t: Log, left: Response| #[trigger]
        response_filtered(r, l, response, order, t, left) && raised(r, t, left, from_mouse, l2)
}

/// A response is passed on. Where the order of the windows on screen is given, it
/// is dropped if it would change nothing.
pub open spec fn response_handled(
    r: Known,
    l: Log,
    response: Response,
    order: Option<Seq<WindowServerId>>,
    from_mouse: bool,
    l2: Log,
) -> bool {
    match order {
        None => raised(r, l, response, from_mouse, l2),
        Some(order) => raised_if_news(r, l, response, order, from_mouse, l2),
    }
}

/// The layout manager has handled an event; its response is passed on.
pub open spec fn answered(
    r: Known,
    l: Log,
    response: Response,
    order: Seq<WindowServerId>,
    from_mouse: bool,
    l2: Log,
) -> bool {
    response_handled(
        r,
        l,
        response,
        if order.len() == 0 {
            None
        } else {
            Some(order)
        },
        from_mouse,
        l2,
    )
}

/// The layout manager hears of an event, and its response is passed on.
pub open spec fn layout_told(
    r: Known,
    l: Log,
    event: LayoutEventView,
    order: Seq<WindowServerId>,
    from_mouse: bool,
    r2: Known,
    l2: Log,
) -> bool {
    exists|s: State, t: Log, response: Response|
        {
            &&& #[trigger] event_handled(r.layout, l, event, s, t, response)
            &&& r2 == Known { layout: s, ..r }
            &&& answered(r2, t, response, order, from_mouse, l2)
        }
}

/// The layout manager hears of an event.
pub open spec fn told(r: Known, l: Log, event: LayoutEventView, r2: Known, l2: Log) -> bool {
    layout_told(r, l, event, Seq::empty(), false, r2, l2)
}

/// The piles of a list of windows, in the order in which they were begun.
fn list_piles(sheets: &Vec<Sheet>) -> (piles: VecSet<Pile>)
    ensures
        piles@ == piles_of(sheets@),
{
    let mut piles: VecSet<Pile> = VecSet::new();
    let ghost all = sheets@.map_values(|sheet: Sheet| sheet.pile);
    let mut i: usize = 0;
    assert(all.take(0) == Seq::<Pile>::empty());
    while i < sheets.len()
        invariant
            i <= sheets@.len(),
            all == sheets@.map_values(|sheet: Sheet| sheet.pile),
            piles@ == each_once(all.take(i as int)),
        decreases sheets@.len() - i,
    {
        assert(all.take(i + 1).drop_last() == all.take(i as int));
        piles.insert(sheets[i].pile);
        i += 1;
    }
    assert(all.take(i as int) == all);
    piles
}

/// The windows of a pile.
fn list_windows(sheets: &Vec<Sheet>, pile: Pile) -> (wids: Vec<WindowId>)
    ensures
        wids@ == windows_in(sheets@, pile),
{
    let mut wids: Vec<WindowId> = Vec::new();
    let ghost keep = |sheet: Sheet| sheet.pile == pile;
    let mut i: usize = 0;
    proof {
        reveal(Seq::filter);
        assert(wids@ =~= windows_in(sheets@.take(0), pile));
    }
    while i < sheets.len()
        invariant
            i <= sheets@.len(),
            keep == (|sheet: Sheet| sheet.pile == pile),
            wids@ == windows_in(sheets@.take(i as int), pile),
        decreases sheets@.len() - i,
    {
        proof {
            lemma_filter_step(sheets@, i as int, keep);
        }
        if sheets[i].pile == pile {
            wids.push(sheets[i].wid);
        }
        assert(wids@ =~= windows_in(sheets@.take(i + 1), pile));
        i += 1;
    }
    assert(sheets@.take(i as int) == sheets@);
    wids
}

/// The windows, pile by pile.
fn sort_by_pile(sheets: &Vec<Sheet>) -> (sorted: Vec<Vec<WindowId>>)
    ensures
        sorted@.map_values(|pile: Vec<WindowId>| pile@) == by_pile(sheets@),
{
    let piles = list_piles(sheets);
    let list = piles.items();
    let mut sorted: Vec<Vec<WindowId>> = Vec::new();
    let mut i: usize = 0;
    while i < list.len()
        invariant
            i <= list@.len(),
            sorted@.len() == i,
            forall|j: int| 0 <= j < i ==> (#[trigger] sorted@[j])@ == windows_in(sheets@, list@[j]),
        decreases list@.len() - i,
    {
        sorted.push(list_windows(sheets, list[i]));
        i += 1;
    }
    assert(sorted@.map_values(|pile: Vec<WindowId>| pile@) =~= by_pile(sheets@));
    sorted
}

impl Reactor {
    /// Puts each window to its pile.
    fn pile_up<H: ReactorHost>(&self, link: &mut Link<H>, wids: &Vec<WindowId>) -> (sheets: Vec<Sheet>)
        ensures
            piled(self@, old(link).log(), wids@, final(link).log(), sheets@),
            grew(old(link).log(), final(link).log()),
    {
        let ghost l = link.log();
        let mut sheets: Vec<Sheet> = Vec::new();
        let mut i: usize = 0;
        assert(wids@.take(0) == Seq::<WindowId>::empty());
        while i < wids.len()
            invariant
                i <= wids@.len(),
                piled(self@, l, wids@.take(i as int), link.log(), sheets@),
                grew(l, link.log()),
            decreases wids@.len() - i,
        {
            let ghost t = link.log();
            let ghost before = sheets@;
            let wid = wids[i];
            if let Some(window) = self.windows.get(wid) {
                let frame = window.frame_monotonic;
                let space = self.best_space_for_window(link, &frame);
                sheets.push(Sheet { pile: Pile { pid: wid.pid, space }, wid });
            }
            let ghost done = wids@.take(i + 1);
            assert(done.drop_last() == wids@.take(i as int));
            assert(pile_step(self@, t, before, done.last(), link.log(), sheets@));
            i += 1;
        }
        assert(wids@.take(i as int) == wids@);
        sheets
    }

    /// The handles of the applications that have some of the windows.
    fn handles_of(&self, wids: &Vec<WindowId>) -> (handles: VecSet<AppContact>)
        ensures
            handles@ == handles_for(self@.apps, wids@),
    {
        let mut handles: VecSet<AppContact> = VecSet::new();
        let mut i: usize = 0;
        assert(wids@.take(0) == Seq::<WindowId>::empty());
        while i < wids.len()
            invariant
                i <= wids@.len(),
                handles@ == handles_for(self@.apps, wids@.take(i as int)),
            decreases wids@.len() - i,
        {
            assert(wids@.take(i + 1).drop_last() == wids@.take(i as int));
            let pid = wids[i].pid;
            if let Some(app) = self.apps.get(pid) {
                handles.insert(AppContact { pid, handle: app.handle });
            }
            i += 1;
        }
        assert(wids@.take(i as int) == wids@);
        handles
    }

    fn raise<H: ReactorHost>(&self, link: &mut Link<H>, response: EventResponse, from_mouse: bool)
        ensures
            raised(self@, old(link).log(), response@, from_mouse, final(link).log()),
            grew(old(link).log(), final(link).log()),
    {
        let ghost asked_for = response@;
        let EventResponse { raise_windows, focus_window } = response;
        if raise_windows.len() == 0 && focus_window.is_none() {
            return;
        }
        let ghost l = link.log();
        let sheets = self.pile_up(link, &raise_windows);
        let ghost t = link.log();
        let mut all = raise_windows;
        if let Some(wid) = focus_window {
            all.push(wid);
        }
        let handles = self.handles_of(&all);
        let focus_window_with_warp = match focus_window {
            Some(wid) => {
                let mut warp: Option<Point> = None;
                if self.config.mouse_follows_focus && !from_mouse {
                    if let Some(window) = self.windows.get(wid) {
                        let frame = window.frame_monotonic;
                        warp = Some(link.middle(frame));
                    }
                }
                Some((wid, warp))
            },
            None => None,
        };
        let app_handles = handles.items().clone();
        assert(app_handles@ =~= handles@);
        let request = RaiseRequest {
            raise_windows: sort_by_pile(&sheets),
            focus_window: focus_window_with_warp,
            app_handles,
        };
        link.raise(&request);
        assert(request_sent(self@, t, asked_for, sheets@, from_mouse, link.log()));
        assert(piled(self@, l, asked_for.raise, t, sheets@));
    }

    /// Passes a response on. Where the order of the windows on screen is given, it
    /// is dropped if it would change nothing.
    pub fn handle_layout_response_with_visible_window_order<H: ReactorHost>(
        &self,
        link: &mut Link<H>,
        response: EventResponse,
        visible_window_order: Option<&[WindowServerId]>,
        from_mouse: bool,
    )
        ensures
            response_handled(
                self@,
                old(link).log(),
                response@,
                match visible_window_order {
                    Some(order) => Some(order@),
                    None => None,
                },
                from_mouse,
                final(link).log(),
            ),
            grew(old(link).log(), final(link).log()),
    {
        match visible_window_order {
            Some(order) => {
                let ghost asked_for = response@;
                let left = self.filter_response(link, response, order);
                let ghost t = link.log();
                let ghost left_over = left@;
                self.raise(link, left, from_mouse);
                assert(response_filtered(
                    self@,
                    old(link).log(),
                    asked_for,
                    order@,
                    t,
                    left_over,
                ));
                assert(raised_if_news(
                    self@,
                    old(link).log(),
                    asked_for,
                    order@,
                    from_mouse,
                    link.log(),
                ));
            },
            None => {
                self.raise(link, response, from_mouse);
            },
        }
    }

    /// Passes a response on.
    pub fn handle_layout_response<H: ReactorHost>(&self, link: &mut Link<H>, response: EventResponse)
        ensures
            raised(self@, old(link).log(), response@, false, final(link).log()),
            grew(old(link).log(), final(link).log()),
    {
        self.handle_layout_response_from_mouse(link, response, false);
    }

    /// Passes a response on that the mouse may have caused.
    pub fn handle_layout_response_from_mouse<H: ReactorHost>(
        &self,
        link: &mut Link<H>,
        response: EventResponse,
        from_mouse: bool,
    )
        ensures
            raised(self@, old(link).log(), response@, from_mouse, final(link).log()),
            grew(old(link).log(), final(link).log()),
    {
        self.handle_layout_response_with_visible_window_order(link, response, None, from_mouse);
    }

    /// Tells the layout manager of an event and passes its response on.
    pub fn send_layout_event_with_visible_window_order_from_mouse<H: ReactorHost>(
        &mut self,
        link: &mut Link<H>,
        event: LayoutEvent,
        visible_window_order: &[WindowServerId],
        from_mouse: bool,
    )
        requires
            event_known(old(self)@.layout, event@),
        ensures
            layout_told(
                old(self)@,
                old(link).log(),
                event@,
                visible_window_order@,
                from_mouse,
                final(self)@,
                final(link).log(),
            ),
            grew(old(link).log(), final(link).log()),
    {
        let ghost r = self@;
        let ghost l = link.log();
        let ghost heard = event@;
        let response = self.layout.handle_event(link, event);
        let ghost t = link.log();
        let ghost said = response@;
        let order = if visible_window_order.len() == 0 {
            None
        } else {
            Some(visible_window_order)
        };
        self.handle_layout_response_with_visible_window_order(link, response, order, from_mouse);
        assert(event_handled(r.layout, l, heard, self@.layout, t, said));
        assert(answered(self@, t, said, visible_window_order@, from_mouse, link.log()));
    }

    /// Tells the layout manager of an event that the mouse may have caused.
    pub fn send_layout_event_from_mouse<H: ReactorHost>(
        &mut self,
        link: &mut Link<H>,
        event: LayoutEvent,
        from_mouse: bool,
    )
        requires
            event_known(old(self)@.layout, event@),
        ensures
            layout_told(
                old(self)@,
                old(link).log(),
                event@,
                Seq::empty(),
                from_mouse,
                final(self)@,
                final(link).log(),
            ),
            grew(old(link).log(), final(link).log()),
    {
        let none: [WindowServerId; 0] = [];
        let order: &[WindowServerId] = &none;
        assert(order@ =~= Seq::<WindowServerId>::empty());
        self.send_layout_event_with_visible_window_order_from_mouse(
            link,
            event,
            order,
            from_mouse,
        );
    }

    /// Tells the layout manager of an event.
    pub fn send_layout_event<H: ReactorHost>(&mut self, link: &mut Link<H>, event: LayoutEvent)
        requires
            event_known(old(self)@.layout, event@),
        ensures
            told(old(self)@, old(link).log(), event@, final(self)@, final(link).log()),
            grew(old(link).log(), final(link).log()),
    {
        let none: [WindowServerId; 0] = [];
        let order: &[WindowServerId] = &none;
        assert(order@ =~= Seq::<WindowServerId>::empty());
        self.send_layout_event_with_visible_window_order(link, event, order);
    }

    /// Tells the layout manager of an event, with the order of the windows on screen.
    pub fn send_layout_event_with_visible_window_order<H: ReactorHost>(
        &mut self,
        link: &mut Link<H>,
        event: LayoutEvent,
        visible_window_order: &[WindowServerId],
    )
        requires
            event_known(old(self)@.layout, event@),
        ensures
            layout_told(
                old(self)@,
                old(link).log(),
                event@,
                visible_window_order@,
                false,
                final(self)@,
                final(link).log(),
            ),
            grew(old(link).log(), final(link).log()),
    {
        self.send_layout_event_with_visible_window_order_from_mouse(
            link,
            event,
            visible_window_order,
            false,
        );
    }
}

} // verus!
