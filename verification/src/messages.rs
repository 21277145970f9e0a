//! What the reactor sends to other actors.

use vstd::prelude::*;

use crate::ids::{Frame, Point, WindowId};

verus! {

/// The thread that runs an application's requests.
#[derive(Clone, Copy, Debug, PartialEq, Eq, Structural)]
pub struct AppHandle(pub u64);

/// An application and its thread.
#[derive(Clone, Copy, Debug, PartialEq, Eq, Structural)]
pub struct AppContact {
    pub pid: i32,
    pub handle: AppHandle,
}

/// How screen coordinates are converted; passed on as it came.
#[derive(Clone, Copy, Debug, PartialEq, Eq, Structural)]
pub struct Converter(pub u64);

/// A counter per window that tells when the reactor last asked for a change of
/// its frame.
#[derive(Clone, Copy, Debug, PartialEq, Eq, Structural)]
pub struct TransactionId(pub u32);

/// Whether new frames are reached by way of an animation.
#[derive(Clone, Copy, Debug, PartialEq, Eq, Structural)]
pub enum AnimationMode {
    Replace,
    SkipToEnd,
}

/// The way of one window to its new frame.
#[derive(Clone, Copy, Debug, PartialEq, Eq, Structural)]
pub struct WindowMove {
    pub handle: AppHandle,
    pub wid: WindowId,
    pub from: Frame,
    pub to: Frame,
    pub is_new: bool,
    pub txid: TransactionId,
}

/// Windows to raise, in groups, and a window to focus after that, with the place
/// that the mouse should jump to.
#[derive(Debug)]
pub struct RaiseRequest {
    pub raise_windows: Vec<Vec<WindowId>>,
    pub focus_window: Option<(WindowId, Option<Point>)>,
    pub app_handles: Vec<AppContact>,
}

/// What a [`RaiseRequest`] says.
pub struct RaiseRequestView {
    pub raise_windows: Seq<Seq<WindowId>>,
    pub focus_window: Option<(WindowId, Option<Point>)>,
    pub app_handles: Seq<AppContact>,
}

impl View for RaiseRequest {
    type V = RaiseRequestView;

    open spec fn view(&self) -> RaiseRequestView {
        RaiseRequestView {
            raise_windows: self.raise_windows@.map_values(|group: Vec<WindowId>| group@),
            focus_window: self.focus_window,
            app_handles: self.app_handles@,
        }
    }
}

} // verus!
