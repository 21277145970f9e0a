//! What can be asked of a host, by the kind of the answer.

use vstd::prelude::*;

use crate::ids::{
    CenterMode, ConfigId, ContainerKind, Direction, Frame, GroupBar, LayoutId, LayoutKind, NodeId,
    Orientation, Point, Real, Size, SpaceId, WindowId,
};
use crate::layout::saved::{SavedLayout, Shown};
use crate::link::{Binary, Req, Unary};
use crate::messages::{AnimationMode, AppHandle, Converter, RaiseRequest, WindowMove};

verus! {

/// What is answered with a layout.
pub enum LayoutRequest {
    /// Gives `space` its first layout, for a screen of `size`. The answer is its active layout.
    OpenSpace { space: SpaceId, size: Size, kind: LayoutKind },
    /// Switches `space` to the layout for a screen of `size`. The answer is the layout that is then
    /// active.
    ActivateSize { space: SpaceId, size: Size },
    /// Readies the active layout of `space` for a change. The answer is the layout that is then
    /// active.
    PrepareModify { space: SpaceId },
    /// Puts `layout` in place of the active layout of `space`. The answer is the layout that is
    /// then active.
    ReplaceActiveLayout { space: SpaceId, layout: LayoutId },
    /// Makes `layout` the active one of `space`. The answer is the layout that is then active.
    SelectLayout { space: SpaceId, layout: LayoutId },
    /// Makes an empty tree layout.
    CreateLayout,
    /// Makes an empty scroll layout.
    CreateScrollLayout,
}

impl View for LayoutRequest {
    type V = Req;

    open spec fn view(&self) -> Req {
        match *self {
            LayoutRequest::OpenSpace { space, size, kind } => Req::OpenSpace(space, size, kind),
            LayoutRequest::ActivateSize { space, size } => Req::ActivateSize(space, size),
            LayoutRequest::PrepareModify { space } => Req::PrepareModify(space),
            LayoutRequest::ReplaceActiveLayout { space, layout } => {
                Req::ReplaceActiveLayout(space, layout)
            },
            LayoutRequest::SelectLayout { space, layout } => Req::SelectLayout(space, layout),
            LayoutRequest::CreateLayout => Req::CreateLayout,
            LayoutRequest::CreateScrollLayout => Req::CreateScrollLayout,
        }
    }
}

/// What is answered with layouts.
pub enum LayoutsRequest {
    /// The layouts of `space`, in order.
    Layouts { space: SpaceId },
}

impl View for LayoutsRequest {
    type V = Req;

    open spec fn view(&self) -> Req {
        match *self {
            LayoutsRequest::Layouts { space } => Req::Layouts(space),
        }
    }
}

/// What is answered with a place in a list.
pub enum IndexRequest {
    /// Where the active layout stands among the layouts of `space`.
    ActiveLayoutIndex { space: SpaceId },
}

impl View for IndexRequest {
    type V = Req;

    open spec fn view(&self) -> Req {
        match *self {
            IndexRequest::ActiveLayoutIndex { space } => Req::ActiveLayoutIndex(space),
        }
    }
}

/// What is answered with yes or no.
pub enum FlagRequest {
    /// Whether `layout` arranges its windows in scrolling columns.
    IsScrollLayout { layout: LayoutId },
    /// Whether the layout shows `node`.
    IsVisible { node: NodeId },
    /// Whether `node` fills its screen.
    IsFullscreen { node: NodeId },
    /// Whether a container of this kind shows one child at a time.
    IsGroupKind { kind: ContainerKind },
    /// Moves `node` in a direction. The answer is whether it could.
    MoveNode { layout: LayoutId, node: NodeId, direction: Direction },
    /// Turns filling the screen on or off. The answer is whether it is on.
    ToggleFullscreen { node: NodeId },
    /// Moves the edge of `node` on the given side. The answer is whether it moved.
    Resize { node: NodeId, ratio: Real, direction: Direction },
    /// Whether the user is scrolling the viewport.
    IsUserScrolling { layout: LayoutId },
    /// Whether the viewport is in motion.
    IsAnimating { layout: LayoutId },
    /// Whether the viewport shows a frame.
    IsInView { layout: LayoutId, frame: Frame },
    /// Whether `inner` fits within `outer`.
    ContainsSize { outer: Size, inner: Size },
    /// Whether `point` lies within `frame`.
    ContainsPoint { frame: Frame, point: Point },
    /// Whether two frames are equal.
    SameFrame { frame: Frame, other: Frame },
    /// Whether `a` is less than `b`.
    Less { a: Real, b: Real },
    /// Whether two numbers are equal.
    Equal { a: Real, b: Real },
}

impl View for FlagRequest {
    type V = Req;

    open spec fn view(&self) -> Req {
        match *self {
            FlagRequest::IsScrollLayout { layout } => Req::IsScrollLayout(layout),
            FlagRequest::IsVisible { node } => Req::IsVisible(node),
            FlagRequest::IsFullscreen { node } => Req::IsFullscreen(node),
            FlagRequest::IsGroupKind { kind } => Req::IsGroupKind(kind),
            FlagRequest::MoveNode { layout, node, direction } => {
                Req::MoveNode(layout, node, direction)
            },
            FlagRequest::ToggleFullscreen { node } => Req::ToggleFullscreen(node),
            FlagRequest::Resize { node, ratio, direction } => Req::Resize(node, ratio, direction),
            FlagRequest::IsUserScrolling { layout } => Req::IsUserScrolling(layout),
            FlagRequest::IsAnimating { layout } => Req::IsAnimating(layout),
            FlagRequest::IsInView { layout, frame } => Req::IsInView(layout, frame),
            FlagRequest::ContainsSize { outer, inner } => Req::ContainsSize(outer, inner),
            FlagRequest::ContainsPoint { frame, point } => Req::ContainsPoint(frame, point),
            FlagRequest::SameFrame { frame, other } => Req::SameFrame(frame, other),
            FlagRequest::Less { a, b } => Req::Less(a, b),
            FlagRequest::Equal { a, b } => Req::Equal(a, b),
        }
    }
}

/// What is answered with the kind of a layout.
pub enum KindRequest {
    /// How `layout` arranges its windows.
    LayoutKind { layout: LayoutId },
}

impl View for KindRequest {
    type V = Req;

    open spec fn view(&self) -> Req {
        match *self {
            KindRequest::LayoutKind { layout } => Req::LayoutKind(layout),
        }
    }
}

/// What is answered with a node.
pub enum NodeRequest {
    /// The root of `layout`.
    Root { layout: LayoutId },
    /// The selected node of `layout`.
    Selection { layout: LayoutId },
    /// Adds `wid` behind `node`. The answer is its new node.
    AddWindowAfter { layout: LayoutId, node: NodeId, wid: WindowId },
}

impl View for NodeRequest {
    type V = Req;

    open spec fn view(&self) -> Req {
        match *self {
            NodeRequest::Root { layout } => Req::Root(layout),
            NodeRequest::Selection { layout } => Req::Selection(layout),
            NodeRequest::AddWindowAfter { layout, node, wid } => {
                Req::AddWindowAfter(layout, node, wid)
            },
        }
    }
}

/// What is answered with a node, or with none.
pub enum NodeSearch {
    /// The container that holds `node`.
    Parent { node: NodeId },
    /// The node of `layout` that stands for `wid`.
    WindowNode { layout: LayoutId, wid: WindowId },
    /// The node next to `node` in a direction.
    Traverse { node: NodeId, direction: Direction },
    /// The node next to `node` in a scroll layout whose ends meet.
    TraverseScrollWrapping { layout: LayoutId, node: NodeId, direction: Direction },
    /// The window node after `node`.
    FocusNext { layout: LayoutId, node: NodeId },
    /// The window node before `node`.
    FocusPrev { layout: LayoutId, node: NodeId },
    /// The column of `layout` that holds `node`.
    ColumnOf { layout: LayoutId, node: NodeId },
}

impl View for NodeSearch {
    type V = Req;

    open spec fn view(&self) -> Req {
        match *self {
            NodeSearch::Parent { node } => Req::Parent(node),
            NodeSearch::WindowNode { layout, wid } => Req::WindowNode(layout, wid),
            NodeSearch::Traverse { node, direction } => Req::Traverse(node, direction),
            NodeSearch::TraverseScrollWrapping { layout, node, direction } => {
                Req::TraverseScrollWrapping(layout, node, direction)
            },
            NodeSearch::FocusNext { layout, node } => Req::FocusNext(layout, node),
            NodeSearch::FocusPrev { layout, node } => Req::FocusPrev(layout, node),
            NodeSearch::ColumnOf { layout, node } => Req::ColumnOf(layout, node),
        }
    }
}

/// What is answered with a window, or with none.
pub enum WindowSearch {
    /// The window that `node` stands for, if it stands for one.
    WindowAt { node: NodeId },
}

impl View for WindowSearch {
    type V = Req;

    open spec fn view(&self) -> Req {
        match *self {
            WindowSearch::WindowAt { node } => Req::WindowAt(node),
        }
    }
}

/// What is answered with nodes.
pub enum NodesRequest {
    /// `node` and the nodes under it, children before their containers.
    TraversePostorder { node: NodeId },
    /// `node` and the nodes under it, containers before their children.
    TraversePreorder { node: NodeId },
    /// The columns of `layout`.
    Columns { layout: LayoutId },
}

impl View for NodesRequest {
    type V = Req;

    open spec fn view(&self) -> Req {
        match *self {
            NodesRequest::TraversePostorder { node } => Req::TraversePostorder(node),
            NodesRequest::TraversePreorder { node } => Req::TraversePreorder(node),
            NodesRequest::Columns { layout } => Req::Columns(layout),
        }
    }
}

/// What is answered with windows.
pub enum WindowsRequest {
    /// The windows under `node` that its containers show.
    VisibleWindowsUnder { node: NodeId },
    /// Selects `node`. The answer is the windows that this brings to the surface.
    SelectReturningSurfacedWindows { node: NodeId },
}

impl View for WindowsRequest {
    type V = Req;

    open spec fn view(&self) -> Req {
        match *self {
            WindowsRequest::VisibleWindowsUnder { node } => Req::VisibleWindowsUnder(node),
            WindowsRequest::SelectReturningSurfacedWindows { node } => {
                Req::SelectReturningSurfacedWindows(node)
            },
        }
    }
}

/// What is answered with the kind of a container.
pub enum ContainerRequest {
    /// How `node` arranges its children.
    ContainerKind { node: NodeId },
    /// How `node` arranged its children before they were grouped.
    LastUngroupedContainerKind { node: NodeId },
    /// The kind of a container that splits along `orientation`.
    SplitKind { orientation: Orientation },
    /// The kind of a container that groups along `orientation`.
    GroupKind { orientation: Orientation },
}

impl View for ContainerRequest {
    type V = Req;

    open spec fn view(&self) -> Req {
        match *self {
            ContainerRequest::ContainerKind { node } => Req::ContainerKind(node),
            ContainerRequest::LastUngroupedContainerKind { node } => {
                Req::LastUngroupedContainerKind(node)
            },
            ContainerRequest::SplitKind { orientation } => Req::SplitKind(orientation),
            ContainerRequest::GroupKind { orientation } => Req::GroupKind(orientation),
        }
    }
}

/// What is answered with a number, or with none.
pub enum NumberSearch {
    /// The share of its container that `node` takes.
    Proportion { node: NodeId },
}

impl View for NumberSearch {
    type V = Req;

    open spec fn view(&self) -> Req {
        match *self {
            NumberSearch::Proportion { node } => Req::Proportion(node),
        }
    }
}

/// What is answered with the frames of windows.
pub enum FramesRequest<'a> {
    /// The frame that `layout` gives to each window on `screen`.
    CalculateLayout { layout: LayoutId, screen: Frame, config: ConfigId },
    /// The frames as seen through the viewport.
    ApplyViewport { layout: LayoutId, screen: Frame, frames: &'a Vec<(WindowId, Frame)> },
}

impl<'a> View for FramesRequest<'a> {
    type V = Req;

    open spec fn view(&self) -> Req {
        match *self {
            FramesRequest::CalculateLayout { layout, screen, config } => {
                Req::CalculateLayout(layout, screen, config)
            },
            FramesRequest::ApplyViewport { layout, screen, frames } => {
                Req::ApplyViewport(layout, screen, frames@)
            },
        }
    }
}

/// What is answered with the frames of windows and the bars of groups.
pub enum GroupsRequest {
    /// The frames of the windows, and the bars of the groups.
    CalculateLayoutAndGroups { layout: LayoutId, screen: Frame, config: ConfigId },
}

impl View for GroupsRequest {
    type V = Req;

    open spec fn view(&self) -> Req {
        match *self {
            GroupsRequest::CalculateLayoutAndGroups { layout, screen, config } => {
                Req::CalculateLayoutAndGroups(layout, screen, config)
            },
        }
    }
}

/// What the layout tree and the viewports are told to do.
pub enum TreeOrder<'a> {
    /// Selects `node`.
    Select { node: NodeId },
    /// Selects the container of the selected node.
    AscendSelection { layout: LayoutId },
    /// Selects within the selected container.
    DescendSelection { layout: LayoutId },
    /// Adds `wid` to a scroll layout.
    AddWindowToScrollColumn {
        layout: LayoutId,
        wid: WindowId,
        new_column: bool,
        visible_columns: u32,
    },
    /// Takes `wid` out of every layout.
    RemoveWindow { wid: WindowId },
    /// Makes `wids` the windows that the application has in `layout`.
    SetWindowsForApp { layout: LayoutId, pid: i32, wids: &'a Vec<WindowId> },
    /// Takes out the windows of all applications but these.
    RetainApps { pids: &'a Vec<i32> },
    /// Takes out the windows of an application.
    RemoveWindowsForApp { pid: i32 },
    /// Moves `node` behind `target`.
    MoveNodeAfter { target: NodeId, node: NodeId },
    /// Puts `node` into a container of its own.
    NestInContainer { layout: LayoutId, node: NodeId, kind: ContainerKind },
    /// Changes how `node` arranges its children.
    SetContainerKind { node: NodeId, kind: ContainerKind },
    /// Makes `node` fill its screen, or not.
    SetFullscreen { node: NodeId, fullscreen: bool },
    /// Fits the layout to a resize that the user made.
    SetFrameFromResize { node: NodeId, old_frame: Frame, new_frame: Frame, screen: Frame },
    /// Lets two nodes trade their windows.
    SwapWindows { a: NodeId, b: NodeId },
    /// Makes a viewport for `layout`.
    OpenViewport { layout: LayoutId, width: Real },
    /// Forgets the viewport of `layout`.
    CloseViewport { layout: LayoutId },
    /// Notes that the user is not scrolling the viewport.
    StopUserScrolling { layout: LayoutId },
    /// Tells the viewport how wide its screen is.
    SetScreenWidth { layout: LayoutId, width: Real },
    /// Scrolls until a column is in view.
    EnsureColumnVisible {
        layout: LayoutId,
        column: usize,
        x: Real,
        width: Real,
        center: CenterMode,
        gap: Real,
    },
    /// Moves the viewport on.
    Tick { layout: LayoutId },
}

impl<'a> View for TreeOrder<'a> {
    type V = Req;

    open spec fn view(&self) -> Req {
        match *self {
            TreeOrder::Select { node } => Req::Select(node),
            TreeOrder::AscendSelection { layout } => Req::AscendSelection(layout),
            TreeOrder::DescendSelection { layout } => Req::DescendSelection(layout),
            TreeOrder::AddWindowToScrollColumn { layout, wid, new_column, visible_columns } => {
                Req::AddWindowToScrollColumn(layout, wid, new_column, visible_columns)
            },
            TreeOrder::RemoveWindow { wid } => Req::RemoveWindow(wid),
            TreeOrder::SetWindowsForApp { layout, pid, wids } => {
                Req::SetWindowsForApp(layout, pid, wids@)
            },
            TreeOrder::RetainApps { pids } => Req::RetainApps(pids@),
            TreeOrder::RemoveWindowsForApp { pid } => Req::RemoveWindowsForApp(pid),
            TreeOrder::MoveNodeAfter { target, node } => Req::MoveNodeAfter(target, node),
            TreeOrder::NestInContainer { layout, node, kind } => {
                Req::NestInContainer(layout, node, kind)
            },
            TreeOrder::SetContainerKind { node, kind } => Req::SetContainerKind(node, kind),
            TreeOrder::SetFullscreen { node, fullscreen } => Req::SetFullscreen(node, fullscreen),
            TreeOrder::SetFrameFromResize { node, old_frame, new_frame, screen } => {
                Req::SetFrameFromResize(node, old_frame, new_frame, screen)
            },
            TreeOrder::SwapWindows { a, b } => Req::SwapWindows(a, b),
            TreeOrder::OpenViewport { layout, width } => Req::OpenViewport(layout, width),
            TreeOrder::CloseViewport { layout } => Req::CloseViewport(layout),
            TreeOrder::StopUserScrolling { layout } => Req::StopUserScrolling(layout),
            TreeOrder::SetScreenWidth { layout, width } => Req::SetScreenWidth(layout, width),
            TreeOrder::EnsureColumnVisible { layout, column, x, width, center, gap } => {
                Req::EnsureColumnVisible(layout, column, x, width, center, gap)
            },
            TreeOrder::Tick { layout } => Req::Tick(layout),
        }
    }
}

/// What is answered with steps, or with none.
pub enum StepsRequest {
    /// Adds to what was scrolled. The answer is the whole steps that came of it, if any did.
    AccumulateScroll { layout: LayoutId, delta: Real, threshold: Real },
}

impl View for StepsRequest {
    type V = Req;

    open spec fn view(&self) -> Req {
        match *self {
            StepsRequest::AccumulateScroll { layout, delta, threshold } => {
                Req::AccumulateScroll(layout, delta, threshold)
            },
        }
    }
}

/// What is answered with a frame.
pub enum FrameRequest {
    /// A frame as seen through the viewport.
    OffsetRect { layout: LayoutId, frame: Frame },
}

impl View for FrameRequest {
    type V = Req;

    open spec fn view(&self) -> Req {
        match *self {
            FrameRequest::OffsetRect { layout, frame } => Req::OffsetRect(layout, frame),
        }
    }
}

/// What is answered with a number.
pub enum NumberRequest {
    /// A number computed from two others.
    Binary { op: Binary, a: Real, b: Real },
    /// A number computed from another.
    Unary { function: Unary, a: Real },
}

impl View for NumberRequest {
    type V = Req;

    open spec fn view(&self) -> Req {
        match *self {
            NumberRequest::Binary { op, a, b } => Req::Binary(op, a, b),
            NumberRequest::Unary { function, a } => Req::Unary(function, a),
        }
    }
}

/// What else the reactor has answered with yes or no.
pub enum CheckRequest<'a> {
    /// Whether two sizes are equal.
    SameSize { size: Size, other: Size },
    /// Whether two frames cannot be told apart on a screen.
    LooksSame { a: Frame, b: Frame },
    /// Hands new frames to the animation manager. The answer is whether it took them.
    Animate { mode: AnimationMode, moves: &'a Vec<WindowMove> },
    /// Saves what is to be kept, the layouts included. The answer is whether that worked.
    SaveLayouts { saved: &'a SavedLayout },
}

impl<'a> View for CheckRequest<'a> {
    type V = Req;

    open spec fn view(&self) -> Req {
        match *self {
            CheckRequest::SameSize { size, other } => Req::SameSize(size, other),
            CheckRequest::LooksSame { a, b } => Req::LooksSame(a, b),
            CheckRequest::Animate { mode, moves } => Req::Animate(mode, moves@),
            CheckRequest::SaveLayouts { saved } => Req::SaveLayouts(saved@),
        }
    }
}

/// What else the reactor has answered with a frame.
pub enum ShapeRequest {
    /// What two frames share.
    Intersection { a: Frame, b: Frame },
    /// A frame moved to whole pixels.
    RoundToPhysical { frame: Frame, scale: Real },
}

impl View for ShapeRequest {
    type V = Req;

    open spec fn view(&self) -> Req {
        match *self {
            ShapeRequest::Intersection { a, b } => Req::Intersection(a, b),
            ShapeRequest::RoundToPhysical { frame, scale } => Req::RoundToPhysical(frame, scale),
        }
    }
}

/// What is answered with an area.
pub enum AreaRequest {
    /// The area that two frames share, in whole points.
    OverlapArea { a: Frame, b: Frame },
}

impl View for AreaRequest {
    type V = Req;

    open spec fn view(&self) -> Req {
        match *self {
            AreaRequest::OverlapArea { a, b } => Req::OverlapArea(a, b),
        }
    }
}

/// What is answered with a point.
pub enum PlaceRequest {
    /// The middle of a frame.
    Middle { frame: Frame },
}

impl View for PlaceRequest {
    type V = Req;

    open spec fn view(&self) -> Req {
        match *self {
            PlaceRequest::Middle { frame } => Req::Middle(frame),
        }
    }
}

/// What the other actors are told.
pub enum Message<'a> {
    /// Tells an application thread to end.
    TerminateApp { handle: AppHandle },
    /// Asks an application thread for its visible windows.
    GetVisibleWindows { handle: AppHandle },
    /// Asks for windows to be raised and one to be focused.
    Raise { request: &'a RaiseRequest },
    /// Passes on that a raise is done.
    RaiseCompleted { wid: WindowId, sequence_id: u64 },
    /// Passes on that a raise took too long.
    RaiseTimedOut { sequence_id: u64 },
    /// Passes the spaces of the screens on to the group bars.
    ScreenParametersChanged { spaces: &'a Vec<Option<SpaceId>>, converter: Converter },
    /// Passes the groups of a space on to the group bars.
    GroupsUpdated { space: SpaceId, groups: &'a Vec<GroupBar> },
    /// Tells the status display that another screen is active.
    FocusedScreenChanged,
    /// Gives the windows their new frames at once.
    JumpToEnd { moves: &'a Vec<WindowMove> },
    /// Runs a command of the log.
    RunMetricsCommand { command: u32 },
    /// Shows the layout of a space.
    ShowLayout { shown: &'a Shown },
    /// Prints all that would be saved, the layouts included.
    PrintLayouts { saved: &'a SavedLayout },
    /// Ends the program.
    Exit { status: i32 },
}

impl<'a> View for Message<'a> {
    type V = Req;

    open spec fn view(&self) -> Req {
        match *self {
            Message::TerminateApp { handle } => Req::TerminateApp(handle),
            Message::GetVisibleWindows { handle } => Req::GetVisibleWindows(handle),
            Message::Raise { request } => Req::Raise(request@),
            Message::RaiseCompleted { wid, sequence_id } => Req::RaiseCompleted(wid, sequence_id),
            Message::RaiseTimedOut { sequence_id } => Req::RaiseTimedOut(sequence_id),
            Message::ScreenParametersChanged { spaces, converter } => {
                Req::ScreenParametersChanged(spaces@, converter)
            },
            Message::GroupsUpdated { space, groups } => Req::GroupsUpdated(space, groups@),
            Message::FocusedScreenChanged => Req::FocusedScreenChanged,
            Message::JumpToEnd { moves } => Req::JumpToEnd(moves@),
            Message::RunMetricsCommand { command } => Req::RunMetricsCommand(command),
            Message::ShowLayout { shown } => Req::ShowLayout(shown@),
            Message::PrintLayouts { saved } => Req::PrintLayouts(saved@),
            Message::Exit { status } => Req::Exit(status),
        }
    }
}

} // verus!
