//! Which windows the window server shows, and what that spares.

use vstd::prelude::*;

use crate::collections::{each_once, position, with, VecSet};
use crate::ids::{Frame, Real, WindowId, WindowServerId};
use crate::layout::scroll::ZERO;
use crate::link::{answer, ask, grew, Link, Log, ReactorHost, Req};
use crate::reactor::event::{WindowServerInfo, WindowsOnScreen};
use crate::reactor::state::{Known, Reactor, Screen, WindowState};
use crate::response::{nothing, EventResponse, Response};

verus! {

/// What the window server says of windows is noted, the latest for each.
pub open spec fn infos_noted(
    known: Map<WindowServerId, WindowServerInfo>,
    infos: Seq<WindowServerInfo>,
) -> Map<WindowServerId, WindowServerInfo>
    decreases infos.len(),
{
    if infos.len() == 0 {
        known
    } else {
        infos_noted(known, infos.drop_last()).insert(infos.last().id, infos.last())
    }
}

/// The windows on screen are these; what is said of them is noted.
pub open spec fn shown_now(r: Known, visible: Seq<WindowServerId>, infos: Seq<WindowServerInfo>) -> Known {
    Known { visible: each_once(visible), server_info: infos_noted(r.server_info, infos), ..r }
}

/// The frame of an ordinary window is as the window server says. The update is
/// taken to come after the last write.
pub open spec fn frame_read(
    windows: Map<WindowId, WindowState>,
    ids: Map<WindowServerId, WindowId>,
    info: WindowServerInfo,
) -> Map<WindowId, WindowState> {
    if info.layer == 0 && ids.contains_key(info.id) && windows.contains_key(ids[info.id]) {
        let wid = ids[info.id];
        windows.insert(wid, WindowState { frame_monotonic: info.frame, ..windows[wid] })
    } else {
        windows
    }
}

/// The same for several windows.
pub open spec fn frames_read(
    windows: Map<WindowId, WindowState>,
    ids: Map<WindowServerId, WindowId>,
    infos: Seq<WindowServerInfo>,
) -> Map<WindowId, WindowState>
    decreases infos.len(),
{
    if infos.len() == 0 {
        windows
    } else {
        frame_read(frames_read(windows, ids, infos.drop_last()), ids, infos.last())
    }
}

/// All is as the window server says: the windows on screen, and their frames.
pub open spec fn all_read(r: Known, visible: Seq<WindowServerId>, infos: Seq<WindowServerInfo>) -> Known {
    shown_now(
        Known { windows: frames_read(r.windows, r.window_ids, infos), ..r },
        visible,
        infos,
    )
}

/// Whether some of `frame` is on a screen whose windows are managed.
pub open spec fn overlap_tried(l: Log, screen: Screen, frame: Frame, l2: Log, overlaps: bool) -> bool {
    let t1 = ask(l, l2, Req::Intersection(screen.frame, frame));
    let size = answer(t1)->Rect_0.size;
    let t2 = ask(t1, l2, Req::Less(Real(ZERO), size.width));
    let t3 = ask(t2, l2, Req::Less(Real(ZERO), size.height));
    if screen.space is None {
        l2 == l && !overlaps
    } else if !answer(t2)->Flag_0 {
        l2 == t2 && !overlaps
    } else {
        l2 == t3 && overlaps == answer(t3)->Flag_0
    }
}

/// Nothing of `frame` is on any of the screens.
pub open spec fn no_overlap(l: Log, screens: Seq<Screen>, frame: Frame, l2: Log) -> bool
    decreases screens.len(),
{
    if screens.len() == 0 {
        l2 == l
    } else {
        exists|t: Log|
            no_overlap(l, screens.drop_last(), frame, t) && #[trigger] overlap_tried(
                t,
                screens.last(),
                frame,
                l2,
                false,
            )
    }
}

/// Some of `frame` is on screen `n`, and nothing of it on those before.
pub open spec fn overlap_at(l: Log, screens: Seq<Screen>, frame: Frame, n: int, l2: Log) -> bool {
    &&& 0 <= n < screens.len()
    &&& exists|t: Log| #[trigger]
        no_overlap(l, screens.take(n), frame, t) && overlap_tried(t, screens[n], frame, l2, true)
}

/// Whether some of `frame` is on any of the screens.
pub open spec fn overlap_found(l: Log, screens: Seq<Screen>, frame: Frame, l2: Log, found: bool) -> bool {
    if found {
        exists|n: int| #[trigger] overlap_at(l, screens, frame, n, l2)
    } else {
        no_overlap(l, screens, frame, l2)
    }
}

/// Whether a window counts when it is asked which windows are on top: an ordinary
/// window on a screen whose windows are managed.
pub open spec fn counts(r: Known, l: Log, wsid: WindowServerId, l2: Log, yes: bool) -> bool {
    if !r.server_info.contains_key(wsid) || r.server_info[wsid].layer != 0 {
        l2 == l && !yes
    } else {
        overlap_found(l, r.screens, r.server_info[wsid].frame, l2, yes)
    }
}

/// The number by which the window server knows a window that is on screen.
pub open spec fn shown_id(r: Known, wid: WindowId) -> Option<WindowServerId> {
    if r.windows.contains_key(wid) {
        match r.windows[wid].window_server_id {
            Some(wsid) if r.visible.contains(wsid) => Some(wsid),
            _ => None,
        }
    } else {
        None
    }
}

/// One window more that is wanted on top, if it counts.
pub open spec fn wanted_step(
    r: Known,
    l: Log,
    ids: Seq<WindowServerId>,
    wid: WindowId,
    l2: Log,
    ids2: Seq<WindowServerId>,
) -> bool {
    match shown_id(r, wid) {
        None => l2 == l && ids2 == ids,
        Some(wsid) => {
            ||| counts(r, l, wsid, l2, true) && ids2 == with(ids, wsid)
            ||| counts(r, l, wsid, l2, false) && ids2 == ids
        },
    }
}

/// The windows that are wanted on top, those that count.
pub open spec fn wanted_on_top(
    r: Known,
    l: Log,
    wids: Seq<WindowId>,
    l2: Log,
    ids: Seq<WindowServerId>,
) -> bool
    decreases wids.len(),
{
    if wids.len() == 0 {
        l2 == l && ids == Seq::<WindowServerId>::empty()
    } else {
        exists|t: Log, before: Seq<WindowServerId>|
            wanted_on_top(r, l, wids.drop_last(), t, before) && #[trigger] wanted_step(
                r,
                t,
                before,
                wids.last(),
                l2,
                ids,
            )
    }
}

/// One window more of those on screen, if it counts; none once there are `n`.
pub open spec fn top_step(
    r: Known,
    l: Log,
    ids: Seq<WindowServerId>,
    wsid: WindowServerId,
    n: nat,
    l2: Log,
    ids2: Seq<WindowServerId>,
) -> bool {
    if ids.len() >= n {
        l2 == l && ids2 == ids
    } else {
        ||| counts(r, l, wsid, l2, true) && ids2 == ids.push(wsid)
        ||| counts(r, l, wsid, l2, false) && ids2 == ids
    }
}

/// The `n` windows on top, of those that count.
pub open spec fn on_top(
    r: Known,
    l: Log,
    order: Seq<WindowServerId>,
    n: nat,
    l2: Log,
    ids: Seq<WindowServerId>,
) -> bool
    decreases order.len(),
{
    if order.len() == 0 {
        l2 == l && ids == Seq::<WindowServerId>::empty()
    } else {
        exists|t: Log, before: Seq<WindowServerId>|
            on_top(r, l, order.drop_last(), n, t, before) && #[trigger] top_step(
                r,
                t,
                before,
                order.last(),
                n,
                l2,
                ids,
            )
    }
}

/// The two lists name the same windows.
pub open spec fn same_windows(a: Seq<WindowServerId>, b: Seq<WindowServerId>) -> bool {
    &&& forall|wsid: WindowServerId| #[trigger] a.contains(wsid) ==> b.contains(wsid)
    &&& forall|wsid: WindowServerId| #[trigger] b.contains(wsid) ==> a.contains(wsid)
}

/// A response that asks for what is the case already asks for nothing.
pub open spec fn spared(
    response: Response,
    wanted: Seq<WindowServerId>,
    top: Seq<WindowServerId>,
) -> Response {
    if same_windows(top, wanted) {
        nothing()
    } else {
        response
    }
}

/// The windows on top are held against those that are wanted there.
pub open spec fn held_against(
    r: Known,
    l: Log,
    response: Response,
    wanted: Seq<WindowServerId>,
    order: Seq<WindowServerId>,
    l2: Log,
    left: Response,
) -> bool {
    exists|top: Seq<WindowServerId>| #[trigger]
        on_top(r, l, order, wanted.len(), l2, top) && left == spared(response, wanted, top)
}

/// A response is dropped where the windows that it raises are on top already.
pub open spec fn raised_already(
    r: Known,
    l: Log,
    response: Response,
    order: Seq<WindowServerId>,
    l2: Log,
    left: Response,
) -> bool {
    exists|t: Log, wanted: Seq<WindowServerId>| #[trigger]
        wanted_on_top(r, l, response.raise, t, wanted) && held_against(
            r,
            t,
            response,
            wanted,
            order,
            l2,
            left,
        )
}

/// A response that would change nothing is dropped. `order` is the order of the
/// windows on screen. A window to focus has to be the first there.
pub open spec fn response_filtered(
    r: Known,
    l: Log,
    response: Response,
    order: Seq<WindowServerId>,
    l2: Log,
    left: Response,
) -> bool {
    match response.focus {
        None => raised_already(r, l, response, order, l2, left),
        Some(wid) => if order.len() > 0 && wid.wsid == Some(order[0]) {
            raised_already(r, l, response, order.skip(1), l2, left)
        } else {
            l2 == l && left == response
        },
    }
}

/// Whether two lists name the same windows.
fn are_same_windows(a: &Vec<WindowServerId>, b: &Vec<WindowServerId>) -> (same: bool)
    ensures
        same == same_windows(a@, b@),
{
    covers(a, b) && covers(b, a)
}

/// Whether `b` names all windows that `a` names.
fn covers(a: &Vec<WindowServerId>, b: &Vec<WindowServerId>) -> (all: bool)
    ensures
        all == forall|wsid: WindowServerId| #[trigger] a@.contains(wsid) ==> b@.contains(wsid),
{
    let mut i: usize = 0;
    while i < a.len()
        invariant
            i <= a@.len(),
            forall|j: int| 0 <= j < i ==> b@.contains(#[trigger] a@[j]),
        decreases a@.len() - i,
    {
        if position(b.as_slice(), a[i]).is_none() {
            assert(a@.contains(a@[i as int]));
            return false;
        }
        i += 1;
    }
    true
}

impl Reactor {
    /// Takes over which windows are on screen.
    ///
    /// The list is always complete, also where only one application's windows changed.
    pub fn update_partial_window_server_info(&mut self, on_screen: WindowsOnScreen)
        ensures
            final(self)@ == shown_now(old(self)@, on_screen.visible@, on_screen.info@),
    {
        self.visible_windows = VecSet::from_list(&on_screen.visible);
        let infos = on_screen.info;
        let ghost known = self.window_server_info@;
        let mut i: usize = 0;
        assert(infos@.take(0) == Seq::<WindowServerInfo>::empty());
        let ghost r = self@;
        while i < infos.len()
            invariant
                i <= infos@.len(),
                self@ == (Known {
                    server_info: infos_noted(known, infos@.take(i as int)),
                    ..r
                }),
            decreases infos@.len() - i,
        {
            assert(infos@.take(i + 1).drop_last() == infos@.take(i as int));
            self.window_server_info.insert(infos[i].id, infos[i]);
            i += 1;
        }
        assert(infos@.take(i as int) == infos@);
    }

    fn read_frame(&mut self, info: WindowServerInfo)
        ensures
            final(self)@ == (Known {
                windows: frame_read(old(self)@.windows, old(self)@.window_ids, info),
                ..old(self)@
            }),
    {
        if info.layer != 0 {
            return;
        }
        if let Some(wid) = self.window_ids.get(info.id) {
            let wid = *wid;
            let ghost before = self.windows@;
            if let Some(window) = self.windows.remove(wid) {
                let mut window = window;
                window.frame_monotonic = info.frame;
                self.windows.insert(wid, window);
                assert(self.windows@ =~= before.insert(wid, window));
            } else {
                assert(self.windows@ =~= before);
            }
        }
    }

    /// Takes over which windows are on screen, and where they are.
    pub fn update_complete_window_server_info(&mut self, on_screen: WindowsOnScreen)
        ensures
            final(self)@ == all_read(old(self)@, on_screen.visible@, on_screen.info@),
    {
        let ghost r = self@;
        let infos = &on_screen.info;
        let mut i: usize = 0;
        assert(infos@.take(0) == Seq::<WindowServerInfo>::empty());
        while i < infos.len()
            invariant
                i <= infos@.len(),
                self@ == (Known {
                    windows: frames_read(r.windows, r.window_ids, infos@.take(i as int)),
                    ..r
                }),
            decreases infos@.len() - i,
        {
            assert(infos@.take(i + 1).drop_last() == infos@.take(i as int));
            self.read_frame(infos[i]);
            i += 1;
        }
        assert(infos@.take(i as int) == infos@);
        self.update_partial_window_server_info(on_screen);
    }

    fn overlaps<H: ReactorHost>(&self, link: &mut Link<H>, screen: Screen, frame: Frame) -> (overlaps: bool)
        ensures
            overlap_tried(old(link).log(), screen, frame, final(link).log(), overlaps),
            grew(old(link).log(), final(link).log()),
    {
        if screen.space.is_none() {
            return false;
        }
        let size = link.intersection(screen.frame, frame).size;
        link.less(Real(ZERO), size.width) && link.less(Real(ZERO), size.height)
    }

    /// Whether a window counts when it is asked which windows are on top.
    pub fn should_compare_visible_window<H: ReactorHost>(&self, link: &mut Link<H>, wsid: WindowServerId) -> (yes:
        bool)
        ensures
            counts(self@, old(link).log(), wsid, final(link).log(), yes),
            grew(old(link).log(), final(link).log()),
    {
        let info = match self.window_server_info.get(wsid) {
            Some(info) => *info,
            None => {
                return false;
            },
        };
        if info.layer != 0 {
            return false;
        }
        let ghost l = link.log();
        let screens = &self.screens;
        let mut i: usize = 0;
        assert(screens@.take(0) == Seq::<Screen>::empty());
        while i < screens.len()
            invariant
                l == old(link).log(),
                screens@ == self@.screens,
                self@.server_info.contains_key(wsid),
                info == self@.server_info[wsid],
                info.layer == 0,
                i <= screens@.len(),
                no_overlap(l, screens@.take(i as int), info.frame, link.log()),
                grew(l, link.log()),
            decreases screens@.len() - i,
        {
            let ghost t = link.log();
            if self.overlaps(link, screens[i], info.frame) {
                assert(no_overlap(l, screens@.take(i as int), info.frame, t));
                assert(overlap_at(l, screens@, info.frame, i as int, link.log()));
                return true;
            }
            let ghost done = screens@.take(i + 1);
            assert(done.drop_last() == screens@.take(i as int));
            assert(overlap_tried(t, done.last(), info.frame, link.log(), false));
            i += 1;
        }
        assert(screens@.take(i as int) == screens@);
        false
    }

    /// The windows that are wanted on top, those that count.
    fn wanted_windows<H: ReactorHost>(&self, link: &mut Link<H>, wids: &Vec<WindowId>) -> (ids: VecSet<
        WindowServerId,
    >)
        ensures
            wanted_on_top(self@, old(link).log(), wids@, final(link).log(), ids@),
            grew(old(link).log(), final(link).log()),
    {
        let ghost l = link.log();
        let mut ids: VecSet<WindowServerId> = VecSet::new();
        let mut i: usize = 0;
        assert(wids@.take(0) == Seq::<WindowId>::empty());
        while i < wids.len()
            invariant
                i <= wids@.len(),
                wanted_on_top(self@, l, wids@.take(i as int), link.log(), ids@),
                grew(l, link.log()),
            decreases wids@.len() - i,
        {
            let ghost t = link.log();
            let ghost before = ids@;
            let wid = wids[i];
            if let Some(window) = self.windows.get(wid) {
                if let Some(wsid) = window.window_server_id {
                    if self.visible_windows.contains(wsid) {
                        if self.should_compare_visible_window(link, wsid) {
                            ids.insert(wsid);
                        }
                    }
                }
            }
            let ghost done = wids@.take(i + 1);
            assert(done.drop_last() == wids@.take(i as int));
            assert(wanted_step(self@, t, before, done.last(), link.log(), ids@));
            i += 1;
        }
        assert(wids@.take(i as int) == wids@);
        ids
    }

    /// The `n` windows on top, of those in `order` from `start` on that count.
    fn top_windows<H: ReactorHost>(
        &self,
        link: &mut Link<H>,
        order: &[WindowServerId],
        start: usize,
        n: usize,
    ) -> (ids: Vec<WindowServerId>)
        requires
            start <= order@.len(),
        ensures
            on_top(
                self@,
                old(link).log(),
                order@.skip(start as int),
                n as nat,
                final(link).log(),
                ids@,
            ),
            grew(old(link).log(), final(link).log()),
    {
        let ghost l = link.log();
        let ghost rest = order@.skip(start as int);
        let mut ids: Vec<WindowServerId> = Vec::new();
        let mut i: usize = start;
        assert(rest.take(0) == Seq::<WindowServerId>::empty());
        while i < order.len()
            invariant
                start <= i <= order@.len(),
                rest == order@.skip(start as int),
                on_top(self@, l, rest.take(i - start), n as nat, link.log(), ids@),
                grew(l, link.log()),
            decreases order@.len() - i,
        {
            let ghost t = link.log();
            let ghost before = ids@;
            if ids.len() < n {
                if self.should_compare_visible_window(link, order[i]) {
                    ids.push(order[i]);
                }
            }
            let ghost done = rest.take(i + 1 - start);
            assert(done.drop_last() == rest.take(i - start));
            assert(top_step(self@, t, before, done.last(), n as nat, link.log(), ids@));
            i += 1;
        }
        assert(rest.take(i - start) == rest);
        ids
    }

    /// Drops a response that would change nothing.
    pub fn filter_response<H: ReactorHost>(
        &self,
        link: &mut Link<H>,
        response: EventResponse,
        visible_window_order: &[WindowServerId],
    ) -> (left: EventResponse)
        ensures
            response_filtered(
                self@,
                old(link).log(),
                response@,
                visible_window_order@,
                final(link).log(),
                left@,
            ),
            grew(old(link).log(), final(link).log()),
    {
        let mut start: usize = 0;
        if let Some(focus) = response.focus_window {
            if visible_window_order.len() > 0 && focus.wsid() == Some(visible_window_order[0]) {
                // The window to focus stays in the response unless nothing is to be raised.
                start = 1;
            } else {
                return response;
            }
        }
        let ghost l = link.log();
        let wanted = self.wanted_windows(link, &response.raise_windows);
        let ghost t = link.log();
        let ghost order = visible_window_order@.skip(start as int);
        let top = self.top_windows(link, visible_window_order, start, wanted.len());
        let ghost before = response@;
        assert(visible_window_order@.skip(0) =~= visible_window_order@);
        let left = if are_same_windows(&top, wanted.items()) {
            EventResponse::default()
        } else {
            response
        };
        assert(left@ == spared(before, wanted@, top@));
        assert(held_against(self@, t, before, wanted@, order, link.log(), left@));
        assert(wanted_on_top(self@, l, before.raise, t, wanted@));
        assert(raised_already(self@, l, before, order, link.log(), left@));
        left
    }
}

} // verus!
