//! What the layout manager does on an event.

use vstd::prelude::*;

use crate::collections::{with, without};
use crate::config::NewWindowPlacement;
use crate::ids::{Frame, LayoutId, Size, SpaceId, WindowId};
use crate::layout::conversion::kind_allowed;
use crate::layout::floating::{float_added, floats_added, noted_elsewhere, of_other_apps};
use crate::layout::state::{ActiveFloat, LayoutManager, State};
use crate::link::{answer, ask, ask_each, grew, LayoutHost, Link, Log, Req};
use crate::response::{nothing, EventResponse, Response};
use crate::window_class::{class_of, classify_window, LayoutWindowInfo, WindowClass, WindowInfoView};

verus! {

/// What the layout manager hears about.
#[derive(Debug, PartialEq)]
pub enum LayoutEvent {
    /// Names the applications that run, so that windows of others are not kept
    /// when a saved state is restored.
    AppsRunningUpdated(Vec<i32>),
    AppClosed(i32),
    /// Updates the set of windows for a given application and space.
    WindowsOnScreenUpdated(SpaceId, i32, Vec<(WindowId, LayoutWindowInfo)>),
    WindowAdded(SpaceId, WindowId, LayoutWindowInfo),
    WindowRemoved(WindowId),
    WindowSpaceChanged { wid: WindowId, added: SpaceId, removed: SpaceId },
    WindowFocused(Vec<SpaceId>, WindowId),
    WindowResized {
        wid: WindowId,
        old_frame: Frame,
        new_frame: Frame,
        screens: Vec<(SpaceId, Frame)>,
    },
    SpaceExposed(SpaceId, Size),
    MouseMovedOverWindow {
        over: (SpaceId, WindowId),
        current_main: Option<(SpaceId, WindowId)>,
    },
}

/// What a [`LayoutEvent`] says.
pub enum LayoutEventView {
    AppsRunningUpdated(Seq<i32>),
    AppClosed(i32),
    WindowsOnScreenUpdated(SpaceId, i32, Seq<(WindowId, WindowInfoView)>),
    WindowAdded(SpaceId, WindowId, WindowInfoView),
    WindowRemoved(WindowId),
    WindowSpaceChanged { wid: WindowId, added: SpaceId, removed: SpaceId },
    WindowFocused(Seq<SpaceId>, WindowId),
    WindowResized {
        wid: WindowId,
        old_frame: Frame,
        new_frame: Frame,
        screens: Seq<(SpaceId, Frame)>,
    },
    SpaceExposed(SpaceId, Size),
    MouseMovedOverWindow {
        over: (SpaceId, WindowId),
        current_main: Option<(SpaceId, WindowId)>,
    },
}

/// What is known of each window of a list.
pub open spec fn infos(windows: Seq<(WindowId, LayoutWindowInfo)>) -> Seq<(WindowId, WindowInfoView)> {
    windows.map_values(|w: (WindowId, LayoutWindowInfo)| (w.0, w.1@))
}

impl View for LayoutEvent {
    type V = LayoutEventView;

    open spec fn view(&self) -> LayoutEventView {
        match *self {
            LayoutEvent::AppsRunningUpdated(pids) => LayoutEventView::AppsRunningUpdated(pids@),
            LayoutEvent::AppClosed(pid) => LayoutEventView::AppClosed(pid),
            LayoutEvent::WindowsOnScreenUpdated(space, pid, windows) => {
                LayoutEventView::WindowsOnScreenUpdated(space, pid, infos(windows@))
            },
            LayoutEvent::WindowAdded(space, wid, info) => {
                LayoutEventView::WindowAdded(space, wid, info@)
            },
            LayoutEvent::WindowRemoved(wid) => LayoutEventView::WindowRemoved(wid),
            LayoutEvent::WindowSpaceChanged { wid, added, removed } => {
                LayoutEventView::WindowSpaceChanged { wid, added, removed }
            },
            LayoutEvent::WindowFocused(spaces, wid) => LayoutEventView::WindowFocused(spaces@, wid),
            LayoutEvent::WindowResized { wid, old_frame, new_frame, screens } => {
                LayoutEventView::WindowResized { wid, old_frame, new_frame, screens: screens@ }
            },
            LayoutEvent::SpaceExposed(space, size) => LayoutEventView::SpaceExposed(space, size),
            LayoutEvent::MouseMovedOverWindow { over, current_main } => {
                LayoutEventView::MouseMovedOverWindow { over, current_main }
            },
        }
    }
}

/// Every one of `spaces` was exposed before.
pub open spec fn all_exposed(s: State, spaces: Seq<SpaceId>) -> bool {
    forall|i: int| 0 <= i < spaces.len() ==> s.spaces.contains_key(#[trigger] spaces[i])
}

/// The spaces of all `screens` were exposed before.
pub open spec fn screens_exposed(s: State, screens: Seq<(SpaceId, Frame)>) -> bool {
    forall|i: int| 0 <= i < screens.len() ==> s.spaces.contains_key((#[trigger] screens[i]).0)
}

/// The spaces whose layout an event asks for were exposed before.
pub open spec fn event_known(s: State, event: LayoutEventView) -> bool {
    match event {
        LayoutEventView::WindowsOnScreenUpdated(space, _, _) => s.spaces.contains_key(space),
        LayoutEventView::WindowAdded(space, _, info) => class_of(info) == WindowClass::Regular
            ==> s.spaces.contains_key(space),
        LayoutEventView::WindowSpaceChanged { wid: _, added, removed } => s.spaces.contains_key(
            added,
        ) && s.spaces.contains_key(removed),
        LayoutEventView::WindowFocused(spaces, wid) => s.floating.contains(wid) || all_exposed(
            s,
            spaces,
        ),
        LayoutEventView::WindowResized { wid: _, old_frame: _, new_frame: _, screens } => {
            screens_exposed(s, screens)
        },
        LayoutEventView::MouseMovedOverWindow { over, current_main } => match current_main {
            Some((space, _)) => s.spaces.contains_key(space) && s.spaces.contains_key(over.0),
            None => true,
        },
        _ => true,
    }
}

/// The windows that the active layout of `space` shows.
pub open spec fn top_layer(s: State, l: Log, space: SpaceId, l2: Log, wids: Seq<WindowId>) -> bool {
    if s.spaces.contains_key(space) {
        let t = ask(l, l2, Req::Root(s.spaces[space]));
        &&& l2 == ask(t, l2, Req::VisibleWindowsUnder(answer(t)->Node_0))
        &&& wids == answer(l2)->Windows_0
    } else {
        l2 == l && wids == Seq::<WindowId>::empty()
    }
}

/// After a change of layout: the layout's kind is checked, and the windows that
/// it shows are raised.
pub open spec fn exposed_settled(
    s: State,
    l: Log,
    space: SpaceId,
    s2: State,
    l2: Log,
    r: Response,
) -> bool {
    exists|t: Log| #[trigger]
        kind_allowed(s, l, space, s2, t) && top_layer(s2, t, space, l2, r.raise) && r.focus is None
}

/// A space is shown on a screen of the given size: it gets its first layout if it
/// has none, and then the layout for that size.
pub open spec fn space_exposed(
    s: State,
    l: Log,
    space: SpaceId,
    size: Size,
    s2: State,
    l2: Log,
    r: Response,
) -> bool {
    let t = if s.spaces.contains_key(space) {
        l
    } else {
        ask(l, l2, Req::OpenSpace(space, size, s.default_kind))
    };
    let t1 = ask(t, l2, Req::ActivateSize(space, size));
    exposed_settled(
        State { spaces: s.spaces.insert(space, answer(t1)->Layout_0), ..s },
        t1,
        space,
        s2,
        l2,
        r,
    )
}

/// What is known of `wid`: the last that the list says of it.
pub open spec fn info_of(windows: Seq<(WindowId, WindowInfoView)>, wid: WindowId) -> WindowInfoView
    decreases windows.len(),
{
    if windows.len() == 0 {
        arbitrary()
    } else if windows.last().0 == wid {
        windows.last().1
    } else {
        info_of(windows.drop_last(), wid)
    }
}

/// The windows of an update, told apart.
pub struct Sorted {
    /// Those that the layout has or takes in place.
    pub tree: Seq<WindowId>,
    /// Those that a scroll layout takes as new.
    pub new: Seq<WindowId>,
    /// Those that float from now on.
    pub floats: Seq<WindowId>,
    /// The floating windows on screen, those of the update among them.
    pub active: Seq<ActiveFloat>,
}

/// The layout is asked, in turn, for each of the first `n` windows that do not float.
pub open spec fn asked_for(
    floating: Seq<WindowId>,
    layout: LayoutId,
    windows: Seq<(WindowId, WindowInfoView)>,
    n: nat,
    l: Log,
    l2: Log,
) -> bool
    decreases n,
{
    if n == 0 {
        l2 == l
    } else {
        let wid = windows[n - 1].0;
        if floating.contains(wid) {
            asked_for(floating, layout, windows, (n - 1) as nat, l, l2)
        } else {
            &&& l2.len() > 0
            &&& l2 == ask(l2.drop_last(), l2, Req::WindowNode(layout, wid))
            &&& asked_for(floating, layout, windows, (n - 1) as nat, l, l2.drop_last())
        }
    }
}

/// The first `n` windows of an update, told apart by what the layout answered:
/// a window that floats goes on floating, one that the layout has stays, and a new
/// one goes by its class.
pub open spec fn sorted(
    s: State,
    space: SpaceId,
    pid: i32,
    scroll: bool,
    windows: Seq<(WindowId, WindowInfoView)>,
    n: nat,
    log: Log,
) -> Sorted
    decreases n,
{
    if n == 0 {
        Sorted {
            tree: Seq::empty(),
            new: Seq::empty(),
            floats: Seq::empty(),
            active: s.active_floating.filter(noted_elsewhere(space, pid)),
        }
    } else {
        let wid = windows[n - 1].0;
        if s.floating.contains(wid) {
            let p = sorted(s, space, pid, scroll, windows, (n - 1) as nat, log);
            Sorted { active: with(p.active, ActiveFloat { space, pid, wid }), ..p }
        } else {
            let p = sorted(s, space, pid, scroll, windows, (n - 1) as nat, log.drop_last());
            if answer(log)->MaybeNode_0 is Some {
                Sorted { tree: p.tree.push(wid), ..p }
            } else {
                match class_of(info_of(windows, wid)) {
                    WindowClass::Untracked => p,
                    WindowClass::FloatByDefault => Sorted { floats: p.floats.push(wid), ..p },
                    WindowClass::Regular => if scroll {
                        Sorted { new: p.new.push(wid), ..p }
                    } else {
                        Sorted { tree: p.tree.push(wid), ..p }
                    },
                }
            }
        }
    }
}

/// The requests that add `wids` to a scroll layout.
pub open spec fn scroll_additions(s: State, layout: LayoutId, wids: Seq<WindowId>) -> Seq<Req> {
    wids.map_values(
        |wid: WindowId|
            Req::AddWindowToScrollColumn(
                layout,
                wid,
                s.scroll.new_window_in_column == NewWindowPlacement::NewColumn,
                s.scroll.visible_columns,
            ),
    )
}

/// The window that was last focused while floating is forgotten when its
/// application no longer has it on screen.
pub open spec fn last_float_kept(
    last: Option<WindowId>,
    pid: i32,
    windows: Seq<(WindowId, WindowInfoView)>,
) -> Option<WindowId> {
    match last {
        Some(wid) if wid.pid == pid && !windows.map_values(
            |w: (WindowId, WindowInfoView)| w.0,
        ).contains(wid) => None,
        _ => last,
    }
}

/// The windows of an update, told apart, are given to the layout and to the
/// floating windows.
pub open spec fn windows_settled(
    s: State,
    l: Log,
    space: SpaceId,
    pid: i32,
    scroll: bool,
    windows: Seq<(WindowId, WindowInfoView)>,
    s2: State,
    l2: Log,
) -> bool {
    let layout = s.spaces[space];
    exists|t: Log|
        {
            let p = sorted(s, space, pid, scroll, windows, windows.len(), t);
            let t1 = ask(t, l2, Req::SetWindowsForApp(layout, pid, p.tree));
            let s1 = State {
                active_floating: p.active,
                last_floating: last_float_kept(s.last_floating, pid, windows),
                ..s
            };
            &&& #[trigger] asked_for(s.floating, layout, windows, windows.len(), l, t)
            &&& l2 == ask_each(t1, l2, scroll_additions(s, layout, p.new))
            &&& s2 == floats_added(s1, p.floats, space)
        }
}

/// The windows that an application has on screen in a space are these. Windows
/// that are in the layout already are neither duplicated nor lost.
pub open spec fn windows_updated(
    s: State,
    l: Log,
    space: SpaceId,
    pid: i32,
    windows: Seq<(WindowId, WindowInfoView)>,
    s2: State,
    l2: Log,
) -> bool {
    let t = ask(l, l2, Req::IsScrollLayout(s.spaces[space]));
    windows_settled(s, t, space, pid, answer(t)->Flag_0, windows, s2, l2)
}

/// A new window goes by its class: it floats, it goes behind the selection or into
/// the columns of a scroll layout, or nothing is done with it.
pub open spec fn window_added(
    s: State,
    l: Log,
    space: SpaceId,
    wid: WindowId,
    info: WindowInfoView,
    s2: State,
    l2: Log,
) -> bool {
    match class_of(info) {
        WindowClass::Untracked => s2 == s && l2 == l,
        WindowClass::FloatByDefault => s2 == float_added(s, wid, Some(space)) && l2 == l,
        WindowClass::Regular => {
            let layout = s.spaces[space];
            let t = ask(l, l2, Req::IsScrollLayout(layout));
            &&& s2 == s
            &&& if answer(t)->Flag_0 {
                l2 == ask_each(t, l2, scroll_additions(s, layout, seq![wid]))
            } else {
                let t1 = ask(t, l2, Req::Selection(layout));
                l2 == ask(t1, l2, Req::AddWindowAfter(layout, answer(t1)->Node_0, wid))
            }
        },
    }
}

/// A window went to another space: it leaves the one layout and goes behind the
/// selection of the other. One that was in no layout is left alone.
pub open spec fn space_changed(
    s: State,
    l: Log,
    wid: WindowId,
    added: SpaceId,
    removed: SpaceId,
    l2: Log,
) -> bool {
    let t = ask(l, l2, Req::WindowNode(s.spaces[removed], wid));
    match answer(t)->MaybeNode_0 {
        None => l2 == t,
        Some(node) => {
            let t1 = ask(t, l2, Req::Selection(s.spaces[added]));
            l2 == ask(t1, l2, Req::MoveNodeAfter(answer(t1)->Node_0, node))
        },
    }
}

/// The viewport of a space, if it has one, no longer counts as scrolled by the user.
pub open spec fn scrolling_cleared(s: State, l: Log, space: SpaceId, l2: Log) -> bool {
    let layout = s.spaces[space];
    l2 == if s.viewports.contains(layout) {
        ask(l, l2, Req::StopUserScrolling(layout))
    } else {
        l
    }
}

/// The same for several spaces.
pub open spec fn all_scrolling_cleared(s: State, l: Log, spaces: Seq<SpaceId>, l2: Log) -> bool
    decreases spaces.len(),
{
    if spaces.len() == 0 {
        l2 == l
    } else {
        exists|t: Log|
            all_scrolling_cleared(s, l, spaces.drop_last(), t) && #[trigger] scrolling_cleared(
                s,
                t,
                spaces.last(),
                l2,
            )
    }
}

/// The window is selected where the layout of `space` has it.
pub open spec fn selected_in(s: State, l: Log, space: SpaceId, wid: WindowId, l2: Log) -> bool {
    let t = ask(l, l2, Req::WindowNode(s.spaces[space], wid));
    match answer(t)->MaybeNode_0 {
        None => l2 == t,
        Some(node) => l2 == ask(t, l2, Req::Select(node)),
    }
}

/// The same for several spaces.
pub open spec fn selected_in_all(
    s: State,
    l: Log,
    spaces: Seq<SpaceId>,
    wid: WindowId,
    l2: Log,
) -> bool
    decreases spaces.len(),
{
    if spaces.len() == 0 {
        l2 == l
    } else {
        exists|t: Log|
            selected_in_all(s, l, spaces.drop_last(), wid, t) && #[trigger] selected_in(
                s,
                t,
                spaces.last(),
                wid,
                l2,
            )
    }
}

/// A window has the focus. A floating one is remembered as such; any other is
/// selected in the layouts on screen.
pub open spec fn window_focused(
    s: State,
    l: Log,
    spaces: Seq<SpaceId>,
    wid: WindowId,
    s2: State,
    l2: Log,
) -> bool {
    if s.floating.contains(wid) {
        s2 == State { focused: Some(wid), last_floating: Some(wid), ..s } && l2 == l
    } else {
        &&& s2 == State { focused: Some(wid), ..s }
        &&& exists|t: Log| #[trigger]
            all_scrolling_cleared(s, l, spaces, t) && selected_in_all(s, t, spaces, wid, l2)
    }
}

/// The user gave a window a new frame, seen from one screen. A window that fills
/// the screen is noted as such; one that did so before no longer does; otherwise
/// the layout follows the resize. Sizes that do not fit on the screen are ignored.
pub open spec fn resized_in(
    s: State,
    l: Log,
    wid: WindowId,
    old_frame: Frame,
    new_frame: Frame,
    screen: (SpaceId, Frame),
    l2: Log,
) -> bool {
    let t = ask(l, l2, Req::WindowNode(s.spaces[screen.0], wid));
    match answer(t)->MaybeNode_0 {
        None => l2 == t,
        Some(node) => {
            let t1 = ask(t, l2, Req::ContainsSize(screen.1.size, old_frame.size));
            let t2 = ask(t1, l2, Req::ContainsSize(screen.1.size, new_frame.size));
            let t3 = ask(t2, l2, Req::SameFrame(new_frame, screen.1));
            let t4 = ask(t3, l2, Req::IsFullscreen(node));
            if !answer(t1)->Flag_0 {
                l2 == t1
            } else if !answer(t2)->Flag_0 {
                l2 == t2
            } else if answer(t3)->Flag_0 {
                l2 == ask(t3, l2, Req::SetFullscreen(node, true))
            } else if answer(t4)->Flag_0 {
                l2 == ask(t4, l2, Req::SetFullscreen(node, false))
            } else {
                l2 == ask(t4, l2, Req::SetFrameFromResize(node, old_frame, new_frame, screen.1))
            }
        },
    }
}

/// The same, seen from several screens.
pub open spec fn resized_in_all(
    s: State,
    l: Log,
    wid: WindowId,
    old_frame: Frame,
    new_frame: Frame,
    screens: Seq<(SpaceId, Frame)>,
    l2: Log,
) -> bool
    decreases screens.len(),
{
    if screens.len() == 0 {
        l2 == l
    } else {
        exists|t: Log|
            {
                &&& resized_in_all(s, l, wid, old_frame, new_frame, screens.drop_last(), t)
                &&& #[trigger] resized_in(s, t, wid, old_frame, new_frame, screens.last(), l2)
            }
    }
}

/// The mouse came over a window. The focus follows it from one window of a layout
/// to another, if the layout shows that one.
pub open spec fn mouse_moved(
    s: State,
    l: Log,
    over: (SpaceId, WindowId),
    current_main: Option<(SpaceId, WindowId)>,
    l2: Log,
    r: Response,
) -> bool {
    match current_main {
        None => l2 == l && r == nothing(),
        Some(current) => {
            let t = ask(l, l2, Req::WindowNode(s.spaces[current.0], current.1));
            let t1 = ask(t, l2, Req::WindowNode(s.spaces[over.0], over.1));
            let t2 = ask(t1, l2, Req::IsVisible(answer(t1)->MaybeNode_0->0));
            if answer(t)->MaybeNode_0 is None {
                l2 == t && r == nothing()
            } else if answer(t1)->MaybeNode_0 is None {
                l2 == t1 && r == nothing()
            } else {
                l2 == t2 && r == if answer(t2)->Flag_0 {
                    Response { raise: Seq::empty(), focus: Some(over.1) }
                } else {
                    nothing()
                }
            }
        },
    }
}

/// What the layout manager does on an event.
pub open spec fn event_handled(
    s: State,
    l: Log,
    event: LayoutEventView,
    s2: State,
    l2: Log,
    r: Response,
) -> bool {
    match event {
        LayoutEventView::SpaceExposed(space, size) => space_exposed(s, l, space, size, s2, l2, r),
        LayoutEventView::MouseMovedOverWindow { over, current_main } => {
            s2 == s && mouse_moved(s, l, over, current_main, l2, r)
        },
        LayoutEventView::WindowsOnScreenUpdated(space, pid, windows) => {
            windows_updated(s, l, space, pid, windows, s2, l2) && r == nothing()
        },
        LayoutEventView::AppsRunningUpdated(pids) => {
            s2 == s && l2 == ask(l, l2, Req::RetainApps(pids)) && r == nothing()
        },
        LayoutEventView::AppClosed(pid) => {
            &&& s2 == State { floating: of_other_apps(s.floating, pid), ..s }
            &&& l2 == ask(l, l2, Req::RemoveWindowsForApp(pid))
            &&& r == nothing()
        },
        LayoutEventView::WindowAdded(space, wid, info) => {
            window_added(s, l, space, wid, info, s2, l2) && r == nothing()
        },
        LayoutEventView::WindowRemoved(wid) => {
            &&& s2 == State { floating: without(s.floating, wid), ..s }
            &&& l2 == ask(l, l2, Req::RemoveWindow(wid))
            &&& r == nothing()
        },
        LayoutEventView::WindowSpaceChanged { wid, added, removed } => {
            s2 == s && space_changed(s, l, wid, added, removed, l2) && r == nothing()
        },
        LayoutEventView::WindowFocused(spaces, wid) => {
            window_focused(s, l, spaces, wid, s2, l2) && r == nothing()
        },
        LayoutEventView::WindowResized { wid, old_frame, new_frame, screens } => {
            &&& s2 == s
            &&& resized_in_all(s, l, wid, old_frame, new_frame, screens, l2)
            &&& r == nothing()
        },
    }
}

/// What `windows` says of `wid`.
fn find_info(windows: &Vec<(WindowId, LayoutWindowInfo)>, wid: WindowId) -> (info: &LayoutWindowInfo)
    requires
        exists|i: int| 0 <= i < windows@.len() && (#[trigger] windows@[i]).0 == wid,
    ensures
        info@ == info_of(infos(windows@), wid),
{
    let mut i: usize = windows.len();
    assert(infos(windows@).take(i as int) == infos(windows@));
    while i > 0
        invariant
            i <= windows@.len(),
            exists|j: int| 0 <= j < i && (#[trigger] windows@[j]).0 == wid,
            info_of(infos(windows@).take(i as int), wid) == info_of(infos(windows@), wid),
        decreases i,
    {
        i -= 1;
        assert(infos(windows@).take(i + 1).drop_last() == infos(windows@).take(i as int));
        if windows[i].0 == wid {
            return &windows[i].1;
        }
    }
    assert(false);
    &windows[0].1
}

/// Whether `windows` names `wid`.
fn names(windows: &Vec<(WindowId, LayoutWindowInfo)>, wid: WindowId) -> (named: bool)
    ensures
        named == infos(windows@).map_values(|w: (WindowId, WindowInfoView)| w.0).contains(wid),
{
    let ghost wids = infos(windows@).map_values(|w: (WindowId, WindowInfoView)| w.0);
    let mut i: usize = 0;
    while i < windows.len()
        invariant
            i <= windows@.len(),
            wids == infos(windows@).map_values(|w: (WindowId, WindowInfoView)| w.0),
            forall|j: int| 0 <= j < i ==> wids[j] != wid,
        decreases windows@.len() - i,
    {
        assert(wids[i as int] == windows@[i as int].0);
        if windows[i].0 == wid {
            return true;
        }
        i += 1;
    }
    false
}

impl LayoutManager {
    /// The windows that the layout of `space` shows.
    pub fn top_layer_windows<H: LayoutHost>(&self, link: &mut Link<H>, space: SpaceId) -> (wids: Vec<
        WindowId,
    >)
        ensures
            top_layer(self@, old(link).log(), space, final(link).log(), wids@),
            grew(old(link).log(), final(link).log()),
    {
        match self.try_layout(space) {
            Some(layout) => {
                let root = link.root(layout);
                link.visible_windows_under(root)
            },
            None => Vec::new(),
        }
    }

    fn on_space_exposed<H: LayoutHost>(
        &mut self,
        link: &mut Link<H>,
        space: SpaceId,
        size: Size,
    ) -> (response: EventResponse)
        ensures
            space_exposed(
                old(self)@,
                old(link).log(),
                space,
                size,
                final(self)@,
                final(link).log(),
                response@,
            ),
            grew(old(link).log(), final(link).log()),
    {
        if !self.layout_mapping.contains_key(space) {
            let _ = link.open_space(space, size, self.default_layout_kind);
        }
        let active = link.activate_size(space, size);
        self.layout_mapping.insert(space, active);
        let ghost s1 = self@;
        let ghost t1 = link.log();
        self.ensure_layout_kind_allowed_for_space(link, space);
        let ghost t = link.log();
        let raise_windows = self.top_layer_windows(link, space);
        let response = EventResponse { raise_windows, focus_window: None };
        assert(kind_allowed(s1, t1, space, self@, t));
        assert(exposed_settled(s1, t1, space, self@, link.log(), response@));
        response
    }

    /// Adds a window to a scroll layout, in a column of its own or not as the
    /// configuration says.
    pub(crate) fn add_scroll_window<H: LayoutHost>(
        &self,
        link: &mut Link<H>,
        layout: LayoutId,
        wid: WindowId,
    )
        ensures
            final(link).log() == ask_each(
                old(link).log(),
                final(link).log(),
                scroll_additions(self@, layout, seq![wid]),
            ),
            final(link).log() == ask(
                old(link).log(),
                final(link).log(),
                scroll_additions(self@, layout, seq![wid])[0],
            ),
    {
        let new_column = self.scroll_cfg.new_window_in_column == NewWindowPlacement::NewColumn;
        link.add_window_to_scroll_column(layout, wid, new_column, self.scroll_cfg.visible_columns);
        assert(link.log() =~= ask_each(
            old(link).log(),
            link.log(),
            scroll_additions(self@, layout, seq![wid]),
        ));
    }

    fn on_windows_updated<H: LayoutHost>(
        &mut self,
        link: &mut Link<H>,
        space: SpaceId,
        pid: i32,
        windows: &Vec<(WindowId, LayoutWindowInfo)>,
    )
        requires
            old(self)@.spaces.contains_key(space),
        ensures
            windows_updated(
                old(self)@,
                old(link).log(),
                space,
                pid,
                infos(windows@),
                final(self)@,
                final(link).log(),
            ),
            grew(old(link).log(), final(link).log()),
    {
        let ghost s = self@;
        let ghost w = infos(windows@);
        if let Some(last) = self.last_floating_focus {
            if last.pid == pid && !names(windows, last) {
                self.last_floating_focus = None;
            }
        }
        let layout = self.layout(space);
        let scroll = link.is_scroll_layout(layout);
        let ghost l = link.log();
        self.clear_active_floats(space, pid);
        let mut add_floating: Vec<WindowId> = Vec::new();
        let mut new_windows: Vec<WindowId> = Vec::new();
        let mut tree_windows: Vec<WindowId> = Vec::new();
        let mut i: usize = 0;
        while i < windows.len()
            invariant
                i <= windows@.len(),
                w == infos(windows@),
                grew(l, link.log()),
                asked_for(s.floating, layout, w, i as nat, l, link.log()),
                sorted(s, space, pid, scroll, w, i as nat, link.log()) == (Sorted {
                    tree: tree_windows@,
                    new: new_windows@,
                    floats: add_floating@,
                    active: self@.active_floating,
                }),
                self@ == (State {
                    active_floating: self@.active_floating,
                    last_floating: last_float_kept(s.last_floating, pid, w),
                    ..s
                }),
            decreases windows@.len() - i,
        {
            let wid = windows[i].0;
            let ghost before = link.log();
            assert(w[i as int].0 == wid);
            if self.floating_windows.contains(wid) {
                self.active_floating_windows.insert(ActiveFloat { space, pid, wid });
            } else {
                let node = link.window_node(layout, wid);
                assert(link.log().drop_last() == before);
                if node.is_some() {
                    tree_windows.push(wid);
                } else {
                    match classify_window(find_info(windows, wid)) {
                        WindowClass::Untracked => {},
                        WindowClass::FloatByDefault => {
                            add_floating.push(wid);
                        },
                        WindowClass::Regular => {
                            if scroll {
                                new_windows.push(wid);
                            } else {
                                tree_windows.push(wid);
                            }
                        },
                    }
                }
            }
            i += 1;
        }
        let ghost t = link.log();
        link.set_windows_for_app(layout, pid, &tree_windows);
        let ghost t1 = link.log();
        let ghost s1 = self@;
        let mut j: usize = 0;
        assert(scroll_additions(s, layout, new_windows@.take(0)) == Seq::<Req>::empty());
        assert(link.log() =~= ask_each(
            t1,
            link.log(),
            scroll_additions(s, layout, new_windows@.take(0)),
        ));
        while j < new_windows.len()
            invariant
                j <= new_windows@.len(),
                self@ == s1,
                s1.scroll == s.scroll,
                grew(t1, link.log()),
                link.log() == ask_each(
                    t1,
                    link.log(),
                    scroll_additions(s, layout, new_windows@.take(j as int)),
                ),
            decreases new_windows@.len() - j,
        {
            let ghost before = link.log();
            self.add_scroll_window(link, layout, new_windows[j]);
            assert(link.log() =~= ask_each(
                t1,
                link.log(),
                scroll_additions(s, layout, new_windows@.take(j + 1)),
            ));
            j += 1;
        }
        assert(new_windows@.take(j as int) == new_windows@);
        let mut k: usize = 0;
        assert(add_floating@.take(0) == Seq::<WindowId>::empty());
        while k < add_floating.len()
            invariant
                k <= add_floating@.len(),
                self@ == floats_added(s1, add_floating@.take(k as int), space),
            decreases add_floating@.len() - k,
        {
            assert(add_floating@.take(k + 1).drop_last() == add_floating@.take(k as int));
            self.add_floating_window(add_floating[k], Some(space));
            k += 1;
        }
        assert(add_floating@.take(k as int) == add_floating@);
        assert(asked_for(s.floating, layout, w, w.len(), l, t));
        assert(windows_settled(s, l, space, pid, scroll, w, self@, link.log()));
    }

    fn on_window_added<H: LayoutHost>(
        &mut self,
        link: &mut Link<H>,
        space: SpaceId,
        wid: WindowId,
        info: &LayoutWindowInfo,
    )
        requires
            class_of(info@) == WindowClass::Regular ==> old(self)@.spaces.contains_key(space),
        ensures
            window_added(
                old(self)@,
                old(link).log(),
                space,
                wid,
                info@,
                final(self)@,
                final(link).log(),
            ),
            grew(old(link).log(), final(link).log()),
    {
        match classify_window(info) {
            WindowClass::FloatByDefault => {
                self.add_floating_window(wid, Some(space));
            },
            WindowClass::Regular => {
                let layout = self.layout(space);
                if link.is_scroll_layout(layout) {
                    self.add_scroll_window(link, layout, wid);
                } else {
                    let selection = link.selection(layout);
                    let _ = link.add_window_after(layout, selection, wid);
                }
            },
            WindowClass::Untracked => {},
        }
    }

    /// Lets the viewport of `space` follow the focus again.
    pub fn clear_user_scrolling<H: LayoutHost>(&self, link: &mut Link<H>, space: SpaceId)
        requires
            self@.spaces.contains_key(space),
        ensures
            scrolling_cleared(self@, old(link).log(), space, final(link).log()),
            grew(old(link).log(), final(link).log()),
    {
        let layout = self.layout(space);
        if self.viewports.contains(layout) {
            link.stop_user_scrolling(layout);
        }
    }

    fn on_window_focused<H: LayoutHost>(
        &mut self,
        link: &mut Link<H>,
        spaces: &Vec<SpaceId>,
        wid: WindowId,
    )
        requires
            old(self)@.floating.contains(wid) || all_exposed(old(self)@, spaces@),
        ensures
            window_focused(
                old(self)@,
                old(link).log(),
                spaces@,
                wid,
                final(self)@,
                final(link).log(),
            ),
            grew(old(link).log(), final(link).log()),
    {
        let ghost s = self@;
        let ghost l = link.log();
        self.focused_window = Some(wid);
        if self.floating_windows.contains(wid) {
            self.last_floating_focus = Some(wid);
            return;
        }
        let mut i: usize = 0;
        assert(spaces@.take(0) == Seq::<SpaceId>::empty());
        while i < spaces.len()
            invariant
                i <= spaces@.len(),
                self@ == (State { focused: Some(wid), ..s }),
                all_exposed(s, spaces@),
                grew(l, link.log()),
                all_scrolling_cleared(s, l, spaces@.take(i as int), link.log()),
            decreases spaces@.len() - i,
        {
            let ghost t = link.log();
            self.clear_user_scrolling(link, spaces[i]);
            assert(spaces@.take(i + 1).drop_last() == spaces@.take(i as int));
            assert(scrolling_cleared(s, t, spaces@.take(i + 1).last(), link.log()));
            i += 1;
        }
        assert(spaces@.take(i as int) == spaces@);
        let ghost t0 = link.log();
        assert(all_scrolling_cleared(s, l, spaces@, t0));
        let mut j: usize = 0;
        assert(spaces@.take(0) == Seq::<SpaceId>::empty());
        while j < spaces.len()
            invariant
                j <= spaces@.len(),
                self@ == (State { focused: Some(wid), ..s }),
                all_exposed(s, spaces@),
                grew(t0, link.log()),
                selected_in_all(s, t0, spaces@.take(j as int), wid, link.log()),
            decreases spaces@.len() - j,
        {
            let ghost t = link.log();
            let layout = self.layout(spaces[j]);
            if let Some(node) = link.window_node(layout, wid) {
                link.select(node);
            }
            assert(spaces@.take(j + 1).drop_last() == spaces@.take(j as int));
            assert(selected_in(s, t, spaces@.take(j + 1).last(), wid, link.log()));
            j += 1;
        }
        assert(spaces@.take(j as int) == spaces@);
    }

    fn on_resized_in<H: LayoutHost>(
        &self,
        link: &mut Link<H>,
        wid: WindowId,
        old_frame: Frame,
        new_frame: Frame,
        screen: (SpaceId, Frame),
    )
        requires
            self@.spaces.contains_key(screen.0),
        ensures
            resized_in(
                self@,
                old(link).log(),
                wid,
                old_frame,
                new_frame,
                screen,
                final(link).log(),
            ),
            grew(old(link).log(), final(link).log()),
    {
        let layout = self.layout(screen.0);
        let node = match link.window_node(layout, wid) {
            Some(node) => node,
            None => {
                return;
            },
        };
        if !link.contains_size(screen.1.size, old_frame.size) || !link.contains_size(
            screen.1.size,
            new_frame.size,
        ) {
            // This can happen for instance if the window fills the screen by means
            // of the system.
            return;
        }
        if link.same_frame(new_frame, screen.1) {
            // Usually a double click on the title bar.
            link.set_fullscreen(node, true);
        } else if link.is_fullscreen(node) {
            // The old frame does not reflect the size in the layout.
            link.set_fullscreen(node, false);
        } else {
            link.set_frame_from_resize(node, old_frame, new_frame, screen.1);
        }
    }

    fn on_window_resized<H: LayoutHost>(
        &self,
        link: &mut Link<H>,
        wid: WindowId,
        old_frame: Frame,
        new_frame: Frame,
        screens: &Vec<(SpaceId, Frame)>,
    )
        requires
            screens_exposed(self@, screens@),
        ensures
            resized_in_all(
                self@,
                old(link).log(),
                wid,
                old_frame,
                new_frame,
                screens@,
                final(link).log(),
            ),
            grew(old(link).log(), final(link).log()),
    {
        let ghost s = self@;
        let ghost l = link.log();
        let mut i: usize = 0;
        assert(screens@.take(0) == Seq::<(SpaceId, Frame)>::empty());
        while i < screens.len()
            invariant
                i <= screens@.len(),
                s == self@,
                screens_exposed(s, screens@),
                grew(l, link.log()),
                resized_in_all(
                    s,
                    l,
                    wid,
                    old_frame,
                    new_frame,
                    screens@.take(i as int),
                    link.log(),
                ),
            decreases screens@.len() - i,
        {
            let ghost t = link.log();
            self.on_resized_in(link, wid, old_frame, new_frame, screens[i]);
            let ghost done = screens@.take(i + 1);
            assert(done.drop_last() == screens@.take(i as int));
            assert(resized_in(s, t, wid, old_frame, new_frame, done.last(), link.log()));
            i += 1;
        }
        assert(screens@.take(i as int) == screens@);
    }

    fn on_mouse_moved<H: LayoutHost>(
        &self,
        link: &mut Link<H>,
        over: (SpaceId, WindowId),
        current_main: Option<(SpaceId, WindowId)>,
    ) -> (response: EventResponse)
        requires
            match current_main {
                Some((space, _)) => self@.spaces.contains_key(space) && self@.spaces.contains_key(
                    over.0,
                ),
                None => true,
            },
        ensures
            mouse_moved(
                self@,
                old(link).log(),
                over,
                current_main,
                final(link).log(),
                response@,
            ),
            grew(old(link).log(), final(link).log()),
    {
        if let Some((cur_space, cur_wid)) = current_main {
            let cur_layout = self.layout(cur_space);
            if link.window_node(cur_layout, cur_wid).is_some() {
                let new_layout = self.layout(over.0);
                if let Some(new_node) = link.window_node(new_layout, over.1) {
                    if link.is_visible(new_node) {
                        return EventResponse {
                            raise_windows: Vec::new(),
                            focus_window: Some(over.1),
                        };
                    }
                }
            }
        }
        EventResponse::default()
    }

    /// Handles an event.
    pub fn handle_event<H: LayoutHost>(
        &mut self,
        link: &mut Link<H>,
        event: LayoutEvent,
    ) -> (response: EventResponse)
        requires
            event_known(old(self)@, event@),
        ensures
            event_handled(
                old(self)@,
                old(link).log(),
                event@,
                final(self)@,
                final(link).log(),
                response@,
            ),
            grew(old(link).log(), final(link).log()),
    {
        match event {
            LayoutEvent::SpaceExposed(space, size) => {
                return self.on_space_exposed(link, space, size);
            },
            LayoutEvent::MouseMovedOverWindow { over, current_main } => {
                return self.on_mouse_moved(link, over, current_main);
            },
            LayoutEvent::WindowsOnScreenUpdated(space, pid, windows) => {
                self.on_windows_updated(link, space, pid, &windows);
            },
            LayoutEvent::AppsRunningUpdated(pids) => {
                link.retain_apps(&pids);
            },
            LayoutEvent::AppClosed(pid) => {
                link.remove_windows_for_app(pid);
                self.remove_floats_of_app(pid);
            },
            LayoutEvent::WindowAdded(space, wid, info) => {
                self.on_window_added(link, space, wid, &info);
            },
            LayoutEvent::WindowRemoved(wid) => {
                link.remove_window(wid);
                self.floating_windows.remove(wid);
            },
            LayoutEvent::WindowSpaceChanged { wid, added, removed } => {
                let from = self.layout(removed);
                if let Some(node) = link.window_node(from, wid) {
                    let to = self.layout(added);
                    let selection = link.selection(to);
                    link.move_node_after(selection, node);
                }
            },
            LayoutEvent::WindowFocused(spaces, wid) => {
                self.on_window_focused(link, &spaces, wid);
            },
            LayoutEvent::WindowResized { wid, old_frame, new_frame, screens } => {
                self.on_window_resized(link, wid, old_frame, new_frame, &screens);
            },
        }
        EventResponse::default()
    }
}

} // verus!
