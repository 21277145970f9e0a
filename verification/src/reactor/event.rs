//! What the reactor hears about.

use redact::Secret;
use vstd::prelude::*;

use crate::config::Config;
use crate::ids::{Frame, Point, Real, SpaceId, WindowId, WindowServerId};
use crate::layout::commands::LayoutCommand;
use crate::messages::{AppHandle, Converter, TransactionId};

verus! {

/// An application, as far as windows are managed by it.
#[derive(Debug)]
pub struct AppInfo {
    pub bundle_id: Option<String>,
}

/// A window, as its application describes it.
#[derive(Debug)]
pub struct WindowInfo {
    pub title: Secret<String>,
    pub frame: Frame,
    pub is_standard: bool,
    pub is_resizable: bool,
    pub sys_id: Option<WindowServerId>,
}

/// A window, as the window server describes it.
#[derive(Clone, Copy, Debug, PartialEq, Eq, Structural)]
pub struct WindowServerInfo {
    pub id: WindowServerId,
    pub pid: i32,
    pub layer: i32,
    pub frame: Frame,
}

/// The windows on screen, the foremost first, and what the window server says of them.
#[derive(Debug)]
pub struct WindowsOnScreen {
    pub visible: Vec<WindowServerId>,
    pub info: Vec<WindowServerInfo>,
}

/// Whether the left mouse button is down.
#[derive(Clone, Copy, Debug, PartialEq, Eq, Structural)]
pub enum MouseState {
    Down,
    Up,
}

/// Whether a change of the focus is one that the reactor itself asked for.
#[derive(Clone, Copy, Debug, PartialEq, Eq, Structural)]
pub enum Quiet {
    Yes,
    No,
}

/// Whether a change of a frame is one that the reactor asked for.
#[derive(Clone, Copy, Debug, PartialEq, Eq, Structural)]
pub struct Requested(pub bool);

/// A command for the reactor itself.
#[derive(Clone, Copy, Debug, PartialEq, Eq, Structural)]
pub enum ReactorCommand {
    Debug,
    Serialize,
    SaveAndExit,
}

/// A command of the log, by number; it is passed on.
#[derive(Clone, Copy, Debug, PartialEq, Eq, Structural)]
pub struct MetricsCommand(pub u32);

/// A command of the user.
#[derive(Clone, Copy, Debug, PartialEq, Eq, Structural)]
pub enum Command {
    Layout(LayoutCommand),
    Metrics(MetricsCommand),
    Reactor(ReactorCommand),
}

/// What the reactor hears about.
#[allow(inconsistent_fields)]
#[derive(Debug)]
pub enum Event {
    /// The screens changed. This is always the first event.
    ///
    /// There is one frame for each screen, that of the main screen first.
    ScreenParametersChanged {
        frames: Vec<Frame>,
        spaces: Vec<Option<SpaceId>>,
        scale_factors: Vec<Real>,
        converter: Converter,
    },
    /// The current space changed.
    ///
    /// There is one space for each screen. No windows are managed on a screen
    /// without one. The windows on screen are in here so that windows are not
    /// arranged twice.
    SpaceChanged(Vec<Option<SpaceId>>, WindowsOnScreen),
    /// All applications that were running have been registered.
    StartupComplete,
    /// An application was launched. This is also sent at the start for each that runs.
    ApplicationLaunched {
        pid: i32,
        info: AppInfo,
        handle: AppHandle,
        is_frontmost: bool,
        main_window: Option<WindowId>,
        visible_windows: Vec<(WindowId, WindowInfo)>,
    },
    ApplicationTerminated(i32),
    ApplicationThreadTerminated(i32),
    ApplicationActivated(i32, Quiet),
    ApplicationDeactivated(i32),
    ApplicationGloballyActivated(i32),
    ApplicationGloballyDeactivated(i32),
    ApplicationMainWindowChanged(i32, Option<WindowId>, Quiet),
    WindowsDiscovered {
        pid: i32,
        new: Vec<(WindowId, WindowInfo)>,
        known_visible: Vec<WindowId>,
    },
    WindowCreated(WindowId, WindowInfo, MouseState),
    /// The windows on screen. Where an application is named, only its windows changed.
    WindowsOnScreenUpdated { pid: Option<i32>, on_screen: WindowsOnScreen },
    WindowBecameVisible(WindowId),
    WindowDestroyed(WindowId),
    WindowFrameChanged(WindowId, Frame, TransactionId, Requested, Option<MouseState>),
    /// The left mouse button was released.
    ///
    /// Changes of the layout are held back while it is down, so that they do not
    /// get in the way of drags.
    MouseUp,
    /// The mouse came over another window.
    MouseMovedOverWindow(WindowServerId),
    /// A request to raise a window is done.
    RaiseCompleted { window_id: WindowId, sequence_id: u64 },
    /// A sequence of such requests took too long.
    RaiseTimeout { sequence_id: u64 },
    LeftMouseDown(Point),
    LeftMouseDragged(Point),
    ScrollWheel { delta_x: Real, delta_y: Real, alt_held: bool },
    Command(Command),
    ConfigChanged(Config),
}

impl Event {
    /// Whether the event comes so often that it drowns others in a log.
    pub open spec fn comes_often(self) -> bool {
        ||| self is WindowFrameChanged
        ||| self is MouseUp
        ||| self is LeftMouseDown
        ||| self is LeftMouseDragged
    }

    /// Whether the event comes so often that it drowns others in a log.
    pub fn is_noisy(&self) -> (noisy: bool)
        ensures
            noisy == self.comes_often(),
    {
        match self {
            Event::WindowFrameChanged(_, _, _, _, _)
            | Event::MouseUp
            | Event::LeftMouseDown(_)
            | Event::LeftMouseDragged(_) => true,
            _ => false,
        }
    }
}

} // verus!
