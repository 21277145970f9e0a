//! Names of the things that the window manager talks about, and the plain
//! values that stand for geometry.

use vstd::prelude::*;

verus! {

/// A window of an application.
///
/// `wsid` is set when the window was named after the window server's own number.
#[derive(Clone, Copy, Debug, PartialEq, Eq, PartialOrd, Ord, Hash, Structural)]
pub struct WindowId {
    pub pid: i32,
    pub idx: u32,
    pub wsid: Option<WindowServerId>,
}

/// The window server's number for a window.
#[derive(Clone, Copy, Debug, PartialEq, Eq, PartialOrd, Ord, Hash, Structural)]
pub struct WindowServerId(pub u32);

/// A space (a virtual desktop of one screen).
#[derive(Clone, Copy, Debug, PartialEq, Eq, PartialOrd, Ord, Hash, Structural)]
pub struct SpaceId(pub u64);

/// A layout in the layout tree.
#[derive(Clone, Copy, Debug, PartialEq, Eq, PartialOrd, Ord, Hash, Structural)]
pub struct LayoutId(pub u64);

/// A node of the layout tree.
#[derive(Clone, Copy, Debug, PartialEq, Eq, PartialOrd, Ord, Hash, Structural)]
pub struct NodeId(pub u64);

impl WindowId {
    /// The window with the given number within its application.
    pub fn new(pid: i32, idx: u32) -> (id: WindowId)
        ensures
            id == (WindowId { pid, idx, wsid: None }),
    {
        WindowId { pid, idx, wsid: None }
    }

    /// The window that the window server knows by the given number.
    pub fn with_wsid(pid: i32, wsid: WindowServerId) -> (id: WindowId)
        ensures
            id == (WindowId { pid, idx: wsid.0, wsid: Some(wsid) }),
    {
        WindowId { pid, idx: wsid.0, wsid: Some(wsid) }
    }

    /// The window server's number, where the name carries it.
    pub fn wsid(&self) -> (wsid: Option<WindowServerId>)
        ensures
            wsid == self.wsid,
    {
        self.wsid
    }
}

impl SpaceId {
    pub fn new(raw: u64) -> (id: SpaceId)
        ensures
            id == SpaceId(raw),
    {
        SpaceId(raw)
    }
}

impl WindowServerId {
    pub fn new(raw: u32) -> (id: WindowServerId)
        ensures
            id == WindowServerId(raw),
    {
        WindowServerId(raw)
    }
}

#[derive(Clone, Copy, Debug, PartialEq, Eq, Structural)]
pub enum Direction {
    Left,
    Right,
    Up,
    Down,
}

#[derive(Clone, Copy, Debug, PartialEq, Eq, Structural)]
pub enum Orientation {
    Horizontal,
    Vertical,
}

/// How a layout arranges its windows.
#[derive(Clone, Copy, Debug, PartialEq, Eq, Structural)]
pub enum LayoutKind {
    Tree,
    Scroll,
}

/// How a container of the tree arranges its children. The kinds that no rule
/// singles out are carried by number.
#[derive(Clone, Copy, Debug, PartialEq, Eq, Structural)]
pub enum ContainerKind {
    Vertical,
    Tabbed,
    Other(u8),
}

/// The bit pattern of a number in double precision. It is carried and handed
/// back; whatever has to be computed with it is asked of the host.
#[derive(Clone, Copy, Debug, PartialEq, Eq, Structural)]
pub struct Real(pub u64);

/// The bit pattern of the number one.
pub const ONE: u64 = 0x3ff0_0000_0000_0000;

#[derive(Clone, Copy, Debug, PartialEq, Eq, Structural)]
pub struct Point {
    pub x: Real,
    pub y: Real,
}

#[derive(Clone, Copy, Debug, PartialEq, Eq, Structural)]
pub struct Size {
    pub width: Real,
    pub height: Real,
}

/// A rectangle on the desktop.
#[derive(Clone, Copy, Debug, PartialEq, Eq, Structural)]
pub struct Frame {
    pub origin: Point,
    pub size: Size,
}

/// When a viewport puts the focused column in the middle; passed on as it came.
#[derive(Clone, Copy, Debug, PartialEq, Eq, Structural)]
pub struct CenterMode(pub u8);

/// The host's name for a configuration, which holds more than is read here.
#[derive(Clone, Copy, Debug, PartialEq, Eq, Structural)]
pub struct ConfigId(pub u64);

/// The bar that shows the windows of a group. `bar` is the host's own number for it.
#[derive(Clone, Copy, Debug, PartialEq, Eq, Structural)]
pub struct GroupBar {
    pub bar: u64,
    pub is_on_top: bool,
    pub indicator_frame: Frame,
}

} // verus!
