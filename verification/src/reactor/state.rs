//! The state of the reactor.

use redact::Secret;
use vstd::prelude::*;

use crate::collections::{VecMap, VecSet};
use crate::config::Config;
use crate::ids::{Frame, Real, SpaceId, WindowId, WindowServerId};
use crate::layout::conversion::config_set;
use crate::layout::state::{LayoutManager, State};
use crate::link::{grew, LayoutHost, Link};
use crate::messages::{AppHandle, TransactionId};
use crate::reactor::event::{AppInfo, WindowInfo, WindowServerInfo};

verus! {

/// An application that runs.
#[derive(Debug)]
pub struct AppState {
    pub info: AppInfo,
    pub handle: AppHandle,
}

/// A screen, and the space on it where its windows are managed.
#[derive(Clone, Copy, Debug, PartialEq, Eq, Structural)]
pub struct Screen {
    pub frame: Frame,
    pub space: Option<SpaceId>,
    pub scale_factor: Real,
}

/// A window that is known.
#[derive(Debug)]
pub struct WindowState {
    pub title: Secret<String>,
    /// The last known frame of the window. Always includes the last write.
    ///
    /// It follows reads only when these are known to come after the last write.
    pub frame_monotonic: Frame,
    pub is_ax_standard: bool,
    pub is_resizable: bool,
    pub last_sent_txid: TransactionId,
    pub window_server_id: Option<WindowServerId>,
}

/// The number after `txid`. The first follows the last.
pub open spec fn next_number(txid: TransactionId) -> TransactionId {
    TransactionId(
        if txid.0 == u32::MAX {
            0
        } else {
            (txid.0 + 1) as u32
        },
    )
}

impl WindowState {
    /// Numbers another write to the window.
    #[must_use]
    pub fn next_txid(&mut self) -> (txid: TransactionId)
        ensures
            txid == next_number(old(self).last_sent_txid),
            *final(self) == (WindowState { last_sent_txid: txid, ..*old(self) }),
    {
        self.last_sent_txid = TransactionId(
            if self.last_sent_txid.0 == u32::MAX {
                0
            } else {
                self.last_sent_txid.0 + 1
            },
        );
        self.last_sent_txid
    }
}

/// A window of which no write is known yet.
pub open spec fn window_from(info: WindowInfo) -> WindowState {
    WindowState {
        title: info.title,
        frame_monotonic: info.frame,
        is_ax_standard: info.is_standard,
        is_resizable: info.is_resizable,
        last_sent_txid: TransactionId(0),
        window_server_id: info.sys_id,
    }
}

impl vstd::std_specs::convert::FromSpecImpl<WindowInfo> for WindowState {
    open spec fn obeys_from_spec() -> bool {
        true
    }

    open spec fn from_spec(info: WindowInfo) -> WindowState {
        window_from(info)
    }
}

impl From<WindowInfo> for WindowState {
    fn from(info: WindowInfo) -> (window: Self) {
        WindowState {
            title: info.title,
            frame_monotonic: info.frame,
            is_ax_standard: info.is_standard,
            is_resizable: info.is_resizable,
            last_sent_txid: TransactionId(0),
            window_server_id: info.sys_id,
        }
    }
}

/// The reactor.
pub struct Reactor {
    pub config: Config,
    pub apps: VecMap<i32, AppState>,
    pub layout: LayoutManager,
    pub windows: VecMap<WindowId, WindowState>,
    pub window_server_info: VecMap<WindowServerId, WindowServerInfo>,
    pub window_ids: VecMap<WindowServerId, WindowId>,
    pub visible_windows: VecSet<WindowServerId>,
    pub screens: Vec<Screen>,
    pub active_screen_idx: Option<u16>,
    /// The main window of the active application.
    pub main_window: Option<WindowId>,
    pub in_drag: bool,
}

/// What a [`Reactor`] knows.
#[verifier::ext_equal]
pub struct Known {
    pub config: Config,
    pub apps: Map<i32, AppState>,
    pub layout: State,
    pub windows: Map<WindowId, WindowState>,
    pub server_info: Map<WindowServerId, WindowServerInfo>,
    pub window_ids: Map<WindowServerId, WindowId>,
    pub visible: Seq<WindowServerId>,
    pub screens: Seq<Screen>,
    pub active: Option<u16>,
    pub main: Option<WindowId>,
    pub in_drag: bool,
}

impl View for Reactor {
    type V = Known;

    open spec fn view(&self) -> Known {
        Known {
            config: self.config,
            apps: self.apps@,
            layout: self.layout@,
            windows: self.windows@,
            server_info: self.window_server_info@,
            window_ids: self.window_ids@,
            visible: self.visible_windows@,
            screens: self.screens@,
            active: self.active_screen_idx,
            main: self.main_window,
            in_drag: self.in_drag,
        }
    }
}

impl Known {
    /// The layout manager knows the space of every screen that has one.
    pub open spec fn coherent(self) -> bool {
        spaces_exposed(self.layout, self.screens)
    }
}

/// The spaces of `screens` were exposed to the layout manager.
pub open spec fn spaces_exposed(layout: State, screens: Seq<Screen>) -> bool {
    forall|i: int|
        0 <= i < screens.len() && (#[trigger] screens[i]).space is Some
            ==> layout.spaces.contains_key(screens[i].space->0)
}

/// The spaces of the screens that have one, in order.
pub open spec fn spaces_of(screens: Seq<Screen>) -> Seq<SpaceId>
    decreases screens.len(),
{
    if screens.len() == 0 {
        Seq::empty()
    } else {
        let front = spaces_of(screens.drop_last());
        match screens.last().space {
            Some(space) => front.push(space),
            None => front,
        }
    }
}

/// A reactor at the start, with a layout manager that has taken the configuration over.
pub open spec fn started(config: Config, layout: State) -> Known {
    Known {
        config,
        apps: Map::empty(),
        layout,
        windows: Map::empty(),
        server_info: Map::empty(),
        window_ids: Map::empty(),
        visible: Seq::empty(),
        screens: Seq::empty(),
        active: None,
        main: None,
        in_drag: false,
    }
}

/// The spaces of `screens` are among those exposed.
pub proof fn lemma_spaces_exposed(layout: State, screens: Seq<Screen>)
    requires
        spaces_exposed(layout, screens),
    ensures
        crate::layout::events::all_exposed(layout, spaces_of(screens)),
    decreases screens.len(),
{
    if screens.len() > 0 {
        let front = screens.drop_last();
        assert forall|i: int| 0 <= i < front.len() && (#[trigger] front[i]).space is Some implies layout.spaces.contains_key(
        front[i].space->0) by {
            assert(screens[i].space is Some);
        }
        lemma_spaces_exposed(layout, front);
        assert(screens[screens.len() - 1] == screens.last());
    }
}

impl Reactor {
    /// A reactor that takes the layout manager over and gives it the configuration.
    pub fn new<H: LayoutHost>(link: &mut Link<H>, config: Config, layout: LayoutManager) -> (reactor: Self)
        ensures
            config_set(
                layout@,
                old(link).log(),
                config,
                reactor@.layout,
                final(link).log(),
            ),
            reactor@ == started(config, reactor@.layout),
            reactor@.coherent(),
            grew(old(link).log(), final(link).log()),
    {
        let mut layout = layout;
        layout.set_config(link, &config);
        Reactor {
            config,
            apps: VecMap::new(),
            layout,
            windows: VecMap::new(),
            window_server_info: VecMap::new(),
            window_ids: VecMap::new(),
            visible_windows: VecSet::new(),
            screens: Vec::new(),
            active_screen_idx: None,
            main_window: None,
            in_drag: false,
        }
    }

    /// The spaces of the screens that have one, in order.
    pub fn visible_spaces(&self) -> (spaces: Vec<SpaceId>)
        ensures
            spaces@ == spaces_of(self@.screens),
    {
        let mut spaces: Vec<SpaceId> = Vec::new();
        let mut i: usize = 0;
        assert(self.screens@.take(0) == Seq::<Screen>::empty());
        while i < self.screens.len()
            invariant
                i <= self.screens@.len(),
                spaces@ == spaces_of(self.screens@.take(i as int)),
            decreases self.screens@.len() - i,
        {
            assert(self.screens@.take(i + 1).drop_last() == self.screens@.take(i as int));
            if let Some(space) = self.screens[i].space {
                spaces.push(space);
            }
            i += 1;
        }
        assert(self.screens@.take(i as int) == self.screens@);
        spaces
    }
}

} // verus!
