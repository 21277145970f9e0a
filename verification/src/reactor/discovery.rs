//! Windows that come to be known.

use vstd::prelude::*;

use crate::collections::{lemma_filter_step, lists};
use crate::ids::{SpaceId, WindowId, WindowServerId};
use crate::layout::events::{infos, LayoutEvent, LayoutEventView};
use crate::layout::laws::law_event_keeps_spaces;
use crate::link::{ask_each, grew, Link, Log, ReactorHost, Req};
use crate::reactor::event::WindowInfo;
use crate::reactor::raising::{layout_told, told};
use crate::reactor::screens::best_space;
use crate::reactor::state::{
    lemma_spaces_exposed, spaces_exposed, spaces_of, window_from, AppState, Known, Reactor, Screen,
    WindowState,
};
use crate::window_class::{clone_title, exposed, text_of, LayoutWindowInfo, WindowInfoView};

verus! {

/// A window is known, under its own name and under that of the window server.
pub open spec fn window_noted(r: Known, wid: WindowId, info: WindowInfo) -> Known {
    Known {
        window_ids: match info.sys_id {
            Some(wsid) => r.window_ids.insert(wsid, wid),
            None => r.window_ids,
        },
        windows: r.windows.insert(wid, window_from(info)),
        ..r
    }
}

/// The same for several windows.
pub open spec fn windows_noted(r: Known, new: Seq<(WindowId, WindowInfo)>) -> Known
    decreases new.len(),
{
    if new.len() == 0 {
        r
    } else {
        window_noted(windows_noted(r, new.drop_last()), new.last().0, new.last().1)
    }
}

/// What the layout manager hears of a window.
pub open spec fn layout_info(r: Known, app: Option<AppState>, window: WindowState) -> WindowInfoView {
    WindowInfoView {
        bundle_id: match app {
            Some(app) => text_of(app.info.bundle_id),
            None => None,
        },
        title: Some(exposed(window.title)),
        layer: match window.window_server_id {
            Some(wsid) if r.server_info.contains_key(wsid) => Some(r.server_info[wsid].layer),
            _ => None,
        },
        is_standard: window.is_ax_standard,
        is_resizable: window.is_resizable,
    }
}

/// The application with number `pid`, if it is known.
pub open spec fn app_of(r: Known, pid: i32) -> Option<AppState> {
    if r.apps.contains_key(pid) {
        Some(r.apps[pid])
    } else {
        None
    }
}

/// A window that was found on screen in a space.
pub struct Found {
    pub space: SpaceId,
    pub wid: WindowId,
    pub info: LayoutWindowInfo,
}

/// What a [`Found`] says.
pub struct FoundView {
    pub space: SpaceId,
    pub wid: WindowId,
    pub info: WindowInfoView,
}

impl View for Found {
    type V = FoundView;

    open spec fn view(&self) -> FoundView {
        FoundView { space: self.space, wid: self.wid, info: self.info@ }
    }
}

/// What a list of found windows says.
pub open spec fn findings(found: Seq<Found>) -> Seq<FoundView> {
    found.map_values(|f: Found| f@)
}

/// The windows found in `space`.
pub open spec fn found_in(found: Seq<FoundView>, space: SpaceId) -> Seq<(WindowId, WindowInfoView)> {
    found.filter(|f: FoundView| f.space == space).map_values(|f: FoundView| (f.wid, f.info))
}

/// The windows found in other spaces.
pub open spec fn found_elsewhere(found: Seq<FoundView>, space: SpaceId) -> Seq<FoundView> {
    found.filter(|f: FoundView| f.space != space)
}

/// The window of an application that the window server knows as `wsid`.
pub open spec fn window_of_app(r: Known, pid: i32, wsid: WindowServerId) -> Option<WindowId> {
    if r.window_ids.contains_key(wsid) && r.window_ids[wsid].pid == pid && r.windows.contains_key(
        r.window_ids[wsid],
    ) {
        Some(r.window_ids[wsid])
    } else {
        None
    }
}

/// One window on screen more: it is found if it is the application's, and on a
/// screen that has a space.
pub open spec fn found_step(
    r: Known,
    l: Log,
    pid: i32,
    found: Seq<FoundView>,
    wsid: WindowServerId,
    l2: Log,
    found2: Seq<FoundView>,
) -> bool {
    match window_of_app(r, pid, wsid) {
        None => l2 == l && found2 == found,
        Some(wid) => {
            let window = r.windows[wid];
            exists|space: Option<SpaceId>|
                {
                    &&& #[trigger] best_space(l, r.screens, window.frame_monotonic, l2, space)
                    &&& found2 == match space {
                        Some(space) => found.push(
                            FoundView { space, wid, info: layout_info(r, app_of(r, pid), window) },
                        ),
                        None => found,
                    }
                }
        },
    }
}

/// The windows of an application that are on screen.
pub open spec fn windows_found(
    r: Known,
    l: Log,
    pid: i32,
    visible: Seq<WindowServerId>,
    l2: Log,
    found: Seq<FoundView>,
) -> bool
    decreases visible.len(),
{
    if visible.len() == 0 {
        l2 == l && found == Seq::<FoundView>::empty()
    } else {
        exists|t: Log, before: Seq<FoundView>|
            windows_found(r, l, pid, visible.drop_last(), t, before) && #[trigger] found_step(
                r,
                t,
                pid,
                before,
                visible.last(),
                l2,
                found,
            )
    }
}

/// The layout manager hears which of the found windows are on one screen.
pub open spec fn screen_told(
    r: Known,
    l: Log,
    pid: i32,
    screen: Screen,
    found: Seq<FoundView>,
    r2: Known,
    l2: Log,
    rest: Seq<FoundView>,
) -> bool {
    match screen.space {
        None => r2 == r && l2 == l && rest == found,
        Some(space) => {
            &&& told(
                r,
                l,
                LayoutEventView::WindowsOnScreenUpdated(space, pid, found_in(found, space)),
                r2,
                l2,
            )
            &&& rest == found_elsewhere(found, space)
        },
    }
}

/// The same for several screens.
pub open spec fn screens_told(
    r: Known,
    l: Log,
    pid: i32,
    screens: Seq<Screen>,
    found: Seq<FoundView>,
    r2: Known,
    l2: Log,
    rest: Seq<FoundView>,
) -> bool
    decreases screens.len(),
{
    if screens.len() == 0 {
        r2 == r && l2 == l && rest == found
    } else {
        exists|m: Known, t: Log, left: Seq<FoundView>|
            screens_told(r, l, pid, screens.drop_last(), found, m, t, left) && #[trigger] screen_told(
                m,
                t,
                pid,
                screens.last(),
                left,
                r2,
                l2,
                rest,
            )
    }
}

/// The layout manager hears that the main window has the focus, if there is one.
pub open spec fn main_told(r: Known, l: Log, wanted: bool, r2: Known, l2: Log) -> bool {
    match r.main {
        Some(wid) if wanted => told(
            r,
            l,
            LayoutEventView::WindowFocused(spaces_of(r.screens), wid),
            r2,
            l2,
        ),
        _ => r2 == r && l2 == l,
    }
}

/// Whether the main window is one of the application's.
pub open spec fn has_main(r: Known, pid: i32) -> bool {
    r.main is Some && r.main->0.pid == pid
}

/// The found windows are passed on to the layout manager, and the focus where it is
/// on a window of the application.
pub open spec fn findings_told(
    r: Known,
    l: Log,
    pid: i32,
    found: Seq<FoundView>,
    r2: Known,
    l2: Log,
) -> bool {
    exists|m: Known, t: Log, rest: Seq<FoundView>| #[trigger]
        screens_told(r, l, pid, r.screens, found, m, t, rest) && main_told(
            m,
            t,
            has_main(m, pid),
            r2,
            l2,
        )
}

/// The windows of an application on screen are looked up and passed on.
pub open spec fn app_told(r: Known, l: Log, pid: i32, r2: Known, l2: Log) -> bool {
    exists|t: Log, found: Seq<FoundView>| #[trigger]
        windows_found(r, l, pid, r.visible, t, found) && findings_told(r, t, pid, found, r2, l2)
}

/// New windows of an application are known, and the layout manager hears which of
/// its windows are on screen. Which these are, the window server says: that an
/// application no longer names a window removes nothing.
pub open spec fn discovered(
    r: Known,
    l: Log,
    pid: i32,
    new: Seq<(WindowId, WindowInfo)>,
    r2: Known,
    l2: Log,
) -> bool {
    app_told(windows_noted(r, new), l, pid, r2, l2)
}

/// The requests that ask the applications for their visible windows.
pub open spec fn visibility_questions(apps: Map<i32, AppState>, pids: Seq<i32>) -> Seq<Req> {
    pids.map_values(|pid: i32| Req::GetVisibleWindows(apps[pid].handle))
}

/// Every application is asked for its visible windows.
pub open spec fn all_asked(r: Known, l: Log, l2: Log) -> bool {
    exists|pids: Seq<i32>| #[trigger]
        lists(pids, r.apps) && l2 == ask_each(l, l2, visibility_questions(r.apps, pids))
}

/// What telling the layout manager leaves as it was.
pub proof fn lemma_told_keeps(
    r: Known,
    l: Log,
    event: LayoutEventView,
    order: Seq<WindowServerId>,
    from_mouse: bool,
    r2: Known,
    l2: Log,
)
    requires
        layout_told(r, l, event, order, from_mouse, r2, l2),
    ensures
        r2 == (Known { layout: r2.layout, ..r }),
        r.coherent() ==> r2.coherent(),
        spaces_exposed(r.layout, r.screens) ==> spaces_exposed(r2.layout, r2.screens),
        crate::layout::laws::keeps_spaces(r.layout, r2.layout),
        match event {
            LayoutEventView::SpaceExposed(space, _) => r2.layout.spaces.contains_key(space),
            _ => true,
        },
{
    let (s, t, response) = choose|s: crate::layout::state::State, t: Log, response: crate::response::Response|
        {
            &&& #[trigger] crate::layout::events::event_handled(r.layout, l, event, s, t, response)
            &&& r2 == Known { layout: s, ..r }
            &&& crate::reactor::raising::answered(r2, t, response, order, from_mouse, l2)
        };
    law_event_keeps_spaces(r.layout, l, event, s, t, response);
}

fn clone_text(text: &Option<String>) -> (copy: Option<String>)
    ensures
        text_of(copy) == text_of(*text),
{
    match text {
        Some(text) => Some(text.clone()),
        None => None,
    }
}

/// Takes the windows found in `space` out of a list. Returns them, and the rest.
fn split_found(found: Vec<Found>, space: SpaceId) -> (split: (
    Vec<(WindowId, LayoutWindowInfo)>,
    Vec<Found>,
))
    ensures
        infos(split.0@) == found_in(findings(found@), space),
        findings(split.1@) == found_elsewhere(findings(found@), space),
{
    let ghost all = findings(found@);
    let ghost here = |f: FoundView| f.space == space;
    let ghost there = |f: FoundView| f.space != space;
    let mut given: Vec<(WindowId, LayoutWindowInfo)> = Vec::new();
    let mut rest: Vec<Found> = Vec::new();
    proof {
        reveal(Seq::filter);
        assert(infos(given@) =~= found_in(all.take(0), space));
        assert(findings(rest@) =~= found_elsewhere(all.take(0), space));
    }
    for f in it: found.into_iter()
        invariant
            all == findings(it.seq()),
            here == (|f: FoundView| f.space == space),
            there == (|f: FoundView| f.space != space),
            infos(given@) == found_in(all.take(it.index() as int), space),
            findings(rest@) == found_elsewhere(all.take(it.index() as int), space),
    {
        proof {
            let i = it.index() as int;
            assert(all[i] == f@);
            lemma_filter_step(all, i, here);
            lemma_filter_step(all, i, there);
        }
        let ghost i = it.index() as int;
        let ghost seen = f@;
        let ghost before = given@;
        if f.space == space {
            given.push((f.wid, f.info));
            assert(infos(given@) =~= infos(before).push((seen.wid, seen.info)));
            assert(found_in(all.take(i + 1), space) =~= found_in(all.take(i), space).push(
                (seen.wid, seen.info),
            ));
        } else {
            rest.push(f);
        }
        assert(infos(given@) =~= found_in(all.take(i + 1), space));
        assert(findings(rest@) =~= found_elsewhere(all.take(i + 1), space));
    }
    assert(all.take(all.len() as int) =~= all);
    (given, rest)
}

impl Reactor {
    /// Gets to know a window.
    pub(crate) fn note_window(&mut self, wid: WindowId, info: WindowInfo)
        ensures
            final(self)@ == window_noted(old(self)@, wid, info),
    {
        if let Some(wsid) = info.sys_id {
            self.window_ids.insert(wsid, wid);
        }
        self.windows.insert(wid, WindowState::from(info));
    }

    fn note_windows(&mut self, new: Vec<(WindowId, WindowInfo)>)
        ensures
            final(self)@ == windows_noted(old(self)@, new@),
    {
        let ghost r = self@;
        let ghost all = new@;
        assert(all.take(0) == Seq::<(WindowId, WindowInfo)>::empty());
        for entry in it: new.into_iter()
            invariant
                all == it.seq(),
                self@ == windows_noted(r, all.take(it.index() as int)),
        {
            proof {
                let i = it.index() as int;
                assert(all.take(i + 1).drop_last() == all.take(i));
            }
            let (wid, info) = entry;
            self.note_window(wid, info);
        }
        assert(all.take(all.len() as int) == all);
    }

    /// What the layout manager hears of a window.
    pub(crate) fn layout_info_of(&self, app: Option<&AppState>, window: &WindowState) -> (info:
        LayoutWindowInfo)
        ensures
            info@ == layout_info(
                self@,
                match app {
                    Some(app) => Some(*app),
                    None => None,
                },
                *window,
            ),
    {
        let layer = match window.window_server_id {
            Some(wsid) => match self.window_server_info.get(wsid) {
                Some(info) => Some(info.layer),
                None => None,
            },
            None => None,
        };
        LayoutWindowInfo {
            bundle_id: match app {
                Some(app) => clone_text(&app.info.bundle_id),
                None => None,
            },
            title: Some(clone_title(&window.title)),
            layer,
            is_standard: window.is_ax_standard,
            is_resizable: window.is_resizable,
        }
    }

    /// Adds a window on screen to those found, if it is the application's.
    fn find_window<H: ReactorHost>(
        &self,
        link: &mut Link<H>,
        pid: i32,
        wsid: WindowServerId,
        found: &mut Vec<Found>,
    )
        ensures
            found_step(
                self@,
                old(link).log(),
                pid,
                findings(old(found)@),
                wsid,
                final(link).log(),
                findings(final(found)@),
            ),
            grew(old(link).log(), final(link).log()),
    {
        let wid = match self.window_ids.get(wsid) {
            Some(wid) => *wid,
            None => {
                return;
            },
        };
        if wid.pid != pid || !self.window_is_tracked(wid) {
            return;
        }
        let window = match self.windows.get(wid) {
            Some(window) => window,
            None => {
                return;
            },
        };
        let frame = window.frame_monotonic;
        let space = self.best_space_for_window(link, &frame);
        assert(best_space(old(link).log(), self@.screens, frame, link.log(), space));
        if let Some(space) = space {
            let info = self.layout_info_of(self.apps.get(pid), window);
            found.push(Found { space, wid, info });
            assert(findings(found@) =~= findings(old(found)@).push(found@.last()@));
        }
    }

    fn find_windows<H: ReactorHost>(&self, link: &mut Link<H>, pid: i32) -> (found: Vec<Found>)
        ensures
            windows_found(
                self@,
                old(link).log(),
                pid,
                self@.visible,
                final(link).log(),
                findings(found@),
            ),
            grew(old(link).log(), final(link).log()),
    {
        let ghost l = link.log();
        let visible = self.visible_windows.items();
        let mut found: Vec<Found> = Vec::new();
        let mut i: usize = 0;
        assert(visible@.take(0) == Seq::<WindowServerId>::empty());
        assert(findings(found@) =~= Seq::<FoundView>::empty());
        while i < visible.len()
            invariant
                i <= visible@.len(),
                windows_found(
                    self@,
                    l,
                    pid,
                    visible@.take(i as int),
                    link.log(),
                    findings(found@),
                ),
                grew(l, link.log()),
            decreases visible@.len() - i,
        {
            let ghost t = link.log();
            let ghost before = findings(found@);
            self.find_window(link, pid, visible[i], &mut found);
            let ghost done = visible@.take(i + 1);
            assert(done.drop_last() == visible@.take(i as int));
            assert(found_step(
                self@,
                t,
                pid,
                before,
                done.last(),
                link.log(),
                findings(found@),
            ));
            i += 1;
        }
        assert(visible@.take(i as int) == visible@);
        found
    }

    fn tell_screens<H: ReactorHost>(&mut self, link: &mut Link<H>, pid: i32, found: Vec<Found>) -> (rest: Vec<
        Found,
    >)
        requires
            old(self)@.coherent(),
        ensures
            screens_told(
                old(self)@,
                old(link).log(),
                pid,
                old(self)@.screens,
                findings(found@),
                final(self)@,
                final(link).log(),
                findings(rest@),
            ),
            final(self)@ == (Known { layout: final(self)@.layout, ..old(self)@ }),
            final(self)@.coherent(),
            grew(old(link).log(), final(link).log()),
    {
        let ghost r = self@;
        let ghost l = link.log();
        let ghost given = findings(found@);
        let mut rest = found;
        let mut i: usize = 0;
        assert(r.screens.take(0) == Seq::<Screen>::empty());
        while i < self.screens.len()
            invariant
                i <= r.screens.len(),
                self@ == (Known { layout: self@.layout, ..r }),
                self@.coherent(),
                screens_told(
                    r,
                    l,
                    pid,
                    r.screens.take(i as int),
                    given,
                    self@,
                    link.log(),
                    findings(rest@),
                ),
                grew(l, link.log()),
            decreases r.screens.len() - i,
        {
            let ghost m = self@;
            let ghost t = link.log();
            let ghost left = findings(rest@);
            let screen = self.screens[i];
            assert(m.screens[i as int] == screen);
            if let Some(space) = screen.space {
                let (windows, others) = split_found(rest, space);
                rest = others;
                let event = LayoutEvent::WindowsOnScreenUpdated(space, pid, windows);
                let ghost heard = event@;
                self.send_layout_event(link, event);
                proof {
                    lemma_told_keeps(m, t, heard, Seq::empty(), false, self@, link.log());
                }
            }
            let ghost done = r.screens.take(i + 1);
            assert(done.drop_last() == r.screens.take(i as int));
            assert(screen_told(
                m,
                t,
                pid,
                done.last(),
                left,
                self@,
                link.log(),
                findings(rest@),
            ));
            i += 1;
        }
        assert(r.screens.take(i as int) == r.screens);
        rest
    }

    /// Tells the layout manager, where it is `wanted`, that the main window has the focus.
    pub(crate) fn tell_main<H: ReactorHost>(&mut self, link: &mut Link<H>, wanted: bool)
        requires
            old(self)@.coherent(),
        ensures
            main_told(old(self)@, old(link).log(), wanted, final(self)@, final(link).log()),
            final(self)@ == (Known { layout: final(self)@.layout, ..old(self)@ }),
            final(self)@.coherent(),
            grew(old(link).log(), final(link).log()),
    {
        if let Some(wid) = self.main_window {
            if wanted {
                let ghost r = self@;
                let ghost l = link.log();
                let spaces = self.visible_spaces();
                proof {
                    lemma_spaces_exposed(self@.layout, self@.screens);
                }
                let event = LayoutEvent::WindowFocused(spaces, wid);
                let ghost heard = event@;
                self.send_layout_event(link, event);
                proof {
                    lemma_told_keeps(r, l, heard, Seq::empty(), false, self@, link.log());
                }
            }
        }
    }

    /// Gets to know windows of an application, and passes on which are on screen.
    pub fn on_windows_discovered<H: ReactorHost>(
        &mut self,
        link: &mut Link<H>,
        pid: i32,
        new: Vec<(WindowId, WindowInfo)>,
        _known_visible: Vec<WindowId>,
    )
        requires
            old(self)@.coherent(),
        ensures
            discovered(old(self)@, old(link).log(), pid, new@, final(self)@, final(link).log()),
            final(self)@.coherent(),
            final(self)@ == (Known {
                layout: final(self)@.layout,
                ..windows_noted(old(self)@, new@)
            }),
            grew(old(link).log(), final(link).log()),
    {
        proof {
            lemma_noted_keeps(self@, new@);
        }
        self.note_windows(new);
        let ghost r = self@;
        let ghost l = link.log();
        let found = self.find_windows(link, pid);
        let ghost t = link.log();
        let ghost findings0 = findings(found@);
        let rest = self.tell_screens(link, pid, found);
        let ghost m = self@;
        let ghost t1 = link.log();
        let wanted = match self.main_window {
            Some(wid) => wid.pid == pid,
            None => false,
        };
        self.tell_main(link, wanted);
        assert(screens_told(r, t, pid, r.screens, findings0, m, t1, findings(rest@)));
        assert(findings_told(r, t, pid, findings0, self@, link.log()));
        assert(app_told(r, l, pid, self@, link.log()));
    }

    /// Asks every application for its visible windows.
    pub fn update_visible_windows<H: ReactorHost>(&self, link: &mut Link<H>)
        ensures
            all_asked(self@, old(link).log(), final(link).log()),
            grew(old(link).log(), final(link).log()),
    {
        let pids = self.apps.keys();
        let ghost l = link.log();
        let ghost reqs = visibility_questions(self@.apps, pids@);
        let mut i: usize = 0;
        assert(link.log() =~= ask_each(l, link.log(), reqs.take(0)));
        assert(lists(pids@, self@.apps));
        while i < pids.len()
            invariant
                i <= pids@.len(),
                lists(pids@, self@.apps),
                reqs == visibility_questions(self@.apps, pids@),
                link.log() == ask_each(l, link.log(), reqs.take(i as int)),
                grew(l, link.log()),
            decreases pids@.len() - i,
        {
            assert(pids@.contains(pids@[i as int]));
            let handle = self.apps.get(pids[i]).unwrap().handle;
            link.get_visible_windows(handle);
            assert(link.log() =~= ask_each(l, link.log(), reqs.take(i + 1)));
            i += 1;
        }
        assert(reqs.take(i as int) =~= reqs);
    }
}

/// Getting to know windows leaves the screens and the layouts alone.
proof fn lemma_noted_keeps(r: Known, new: Seq<(WindowId, WindowInfo)>)
    ensures
        windows_noted(r, new).layout == r.layout,
        windows_noted(r, new).screens == r.screens,
    decreases new.len(),
{
    if new.len() > 0 {
        lemma_noted_keeps(r, new.drop_last());
    }
}

} // verus!
