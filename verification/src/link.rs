//! The line to what lies outside: every request that is made over it, and every
//! answer, is on record.

use vstd::prelude::*;

use crate::ids::{
    CenterMode, ConfigId, ContainerKind, Direction, Frame, GroupBar, LayoutId, LayoutKind, NodeId,
    Orientation, Point, Real, Size, SpaceId, WindowId,
};
use crate::layout::saved::{SavedLayout, SavedView, Shown, ShownView};
use crate::messages::{
    AnimationMode, AppHandle, Converter, RaiseRequest, RaiseRequestView, WindowMove,
};
use crate::requests::{
    AreaRequest, CheckRequest, ContainerRequest, FlagRequest, FrameRequest, FramesRequest,
    GroupsRequest, IndexRequest, KindRequest, LayoutRequest, LayoutsRequest, Message, NodeRequest,
    NodeSearch, NodesRequest, NumberRequest, NumberSearch, PlaceRequest, ShapeRequest, StepsRequest,
    TreeOrder, WindowSearch, WindowsRequest,
};

verus! {

/// What two numbers can be made into.
#[derive(Clone, Copy, Debug, PartialEq, Eq, Structural)]
pub enum Binary {
    Add,
    Subtract,
    Multiply,
    Divide,
    Max,
}

/// What one number can be made into.
#[derive(Clone, Copy, Debug, PartialEq, Eq, Structural)]
pub enum Unary {
    Negate,
    Abs,
    Signum,
    Fract,
    Sqrt,
}

/// What the layout manager works with: the layout tree and the viewports, which
/// keep their own state, and arithmetic on numbers that are carried as bit patterns.
///
/// Nothing is known of the answers. What is proved of the layout manager holds
/// whatever they are.
pub trait LayoutHost {
    /// Answers with a layout.
    fn layout(&mut self, request: LayoutRequest) -> LayoutId;

    /// Answers with layouts.
    fn layouts(&mut self, request: LayoutsRequest) -> Vec<LayoutId>;

    /// Answers with a place in a list.
    fn index(&mut self, request: IndexRequest) -> u16;

    /// Answers with yes or no.
    fn flag(&mut self, request: FlagRequest) -> bool;

    /// Answers with the kind of a layout.
    fn kind(&mut self, request: KindRequest) -> LayoutKind;

    /// Answers with a node.
    fn node(&mut self, request: NodeRequest) -> NodeId;

    /// Answers with a node, or with none.
    fn find_node(&mut self, request: NodeSearch) -> Option<NodeId>;

    /// Answers with a window, or with none.
    fn find_window(&mut self, request: WindowSearch) -> Option<WindowId>;

    /// Answers with nodes.
    fn nodes(&mut self, request: NodesRequest) -> Vec<NodeId>;

    /// Answers with windows.
    fn windows(&mut self, request: WindowsRequest) -> Vec<WindowId>;

    /// Answers with the kind of a container.
    fn container(&mut self, request: ContainerRequest) -> ContainerKind;

    /// Answers with a number, or with none.
    fn find_number(&mut self, request: NumberSearch) -> Option<Real>;

    /// Answers with the frames of windows.
    fn frames(&mut self, request: FramesRequest<'_>) -> Vec<(WindowId, Frame)>;

    /// Answers with the frames of windows and the bars of groups.
    fn frames_and_groups(
        &mut self,
        request: GroupsRequest,
    ) -> (Vec<(WindowId, Frame)>, Vec<GroupBar>);

    /// Changes the layout tree or a viewport.
    fn carry_out(&mut self, order: TreeOrder<'_>);

    /// Answers with steps, or with none.
    fn steps(&mut self, request: StepsRequest) -> Option<i32>;

    /// Answers with a frame.
    fn frame(&mut self, request: FrameRequest) -> Frame;

    /// Answers with a number.
    fn number(&mut self, request: NumberRequest) -> Real;
}

/// What the reactor works with besides: geometry, and the other actors.
pub trait ReactorHost: LayoutHost {
    /// Answers with yes or no.
    fn check(&mut self, request: CheckRequest<'_>) -> bool;

    /// Answers with a frame.
    fn shape(&mut self, request: ShapeRequest) -> Frame;

    /// Answers with an area.
    fn area(&mut self, request: AreaRequest) -> i64;

    /// Answers with a point.
    fn place(&mut self, request: PlaceRequest) -> Point;

    /// Passes a message on.
    fn send(&mut self, message: Message<'_>);
}

/// A request to a host.
pub enum Req {
    OpenSpace(SpaceId, Size, LayoutKind),
    ActivateSize(SpaceId, Size),
    PrepareModify(SpaceId),
    ReplaceActiveLayout(SpaceId, LayoutId),
    SelectLayout(SpaceId, LayoutId),
    Layouts(SpaceId),
    ActiveLayoutIndex(SpaceId),
    IsScrollLayout(LayoutId),
    LayoutKind(LayoutId),
    Root(LayoutId),
    Selection(LayoutId),
    Parent(NodeId),
    WindowAt(NodeId),
    WindowNode(LayoutId, WindowId),
    TraversePostorder(NodeId),
    TraversePreorder(NodeId),
    VisibleWindowsUnder(NodeId),
    IsVisible(NodeId),
    IsFullscreen(NodeId),
    ContainerKind(NodeId),
    LastUngroupedContainerKind(NodeId),
    IsGroupKind(ContainerKind),
    SplitKind(Orientation),
    GroupKind(Orientation),
    Traverse(NodeId, Direction),
    TraverseScrollWrapping(LayoutId, NodeId, Direction),
    FocusNext(LayoutId, NodeId),
    FocusPrev(LayoutId, NodeId),
    ColumnOf(LayoutId, NodeId),
    Columns(LayoutId),
    Proportion(NodeId),
    CalculateLayout(LayoutId, Frame, ConfigId),
    CalculateLayoutAndGroups(LayoutId, Frame, ConfigId),
    CreateLayout,
    CreateScrollLayout,
    Select(NodeId),
    SelectReturningSurfacedWindows(NodeId),
    AscendSelection(LayoutId),
    DescendSelection(LayoutId),
    AddWindowAfter(LayoutId, NodeId, WindowId),
    AddWindowToScrollColumn(LayoutId, WindowId, bool, u32),
    RemoveWindow(WindowId),
    SetWindowsForApp(LayoutId, i32, Seq<WindowId>),
    RetainApps(Seq<i32>),
    RemoveWindowsForApp(i32),
    MoveNode(LayoutId, NodeId, Direction),
    MoveNodeAfter(NodeId, NodeId),
    NestInContainer(LayoutId, NodeId, ContainerKind),
    SetContainerKind(NodeId, ContainerKind),
    SetFullscreen(NodeId, bool),
    ToggleFullscreen(NodeId),
    Resize(NodeId, Real, Direction),
    SetFrameFromResize(NodeId, Frame, Frame, Frame),
    SwapWindows(NodeId, NodeId),
    OpenViewport(LayoutId, Real),
    CloseViewport(LayoutId),
    IsUserScrolling(LayoutId),
    StopUserScrolling(LayoutId),
    SetScreenWidth(LayoutId, Real),
    EnsureColumnVisible(LayoutId, usize, Real, Real, CenterMode, Real),
    AccumulateScroll(LayoutId, Real, Real),
    IsAnimating(LayoutId),
    Tick(LayoutId),
    ApplyViewport(LayoutId, Frame, Seq<(WindowId, Frame)>),
    OffsetRect(LayoutId, Frame),
    IsInView(LayoutId, Frame),
    ContainsSize(Size, Size),
    ContainsPoint(Frame, Point),
    SameFrame(Frame, Frame),
    Binary(Binary, Real, Real),
    Unary(Unary, Real),
    Less(Real, Real),
    Equal(Real, Real),
    SameSize(Size, Size),
    LooksSame(Frame, Frame),
    Intersection(Frame, Frame),
    OverlapArea(Frame, Frame),
    Middle(Frame),
    RoundToPhysical(Frame, Real),
    TerminateApp(AppHandle),
    GetVisibleWindows(AppHandle),
    Raise(RaiseRequestView),
    RaiseCompleted(WindowId, u64),
    RaiseTimedOut(u64),
    ScreenParametersChanged(Seq<Option<SpaceId>>, Converter),
    GroupsUpdated(SpaceId, Seq<GroupBar>),
    FocusedScreenChanged,
    Animate(AnimationMode, Seq<WindowMove>),
    JumpToEnd(Seq<WindowMove>),
    RunMetricsCommand(u32),
    ShowLayout(ShownView),
    PrintLayouts(SavedView),
    SaveLayouts(SavedView),
    Exit(i32),
}

/// An answer of a host.
pub enum Rep {
    Unit,
    Flag(bool),
    MaybeNode(Option<NodeId>),
    Node(NodeId),
    Layout(LayoutId),
    Kind(LayoutKind),
    MaybeWindow(Option<WindowId>),
    Windows(Seq<WindowId>),
    Layouts(Seq<LayoutId>),
    Nodes(Seq<NodeId>),
    Index(u16),
    Container(ContainerKind),
    Frames(Seq<(WindowId, Frame)>),
    Groups(Seq<(WindowId, Frame)>, Seq<GroupBar>),
    Number(Real),
    MaybeNumber(Option<Real>),
    Steps(Option<i32>),
    Rect(Frame),
    Place(Point),
    Area(i64),
}

/// A request and the answer to it.
pub struct Call {
    pub req: Req,
    pub rep: Rep,
}

/// The record of what was asked and answered, in order.
pub type Log = Seq<Call>;

/// `log` with one request more, whose answer is the one that `whole` holds at its place.
///
/// What an actor does is stated as the requests that it makes, in order, where
/// each request may depend on the answers before it: `whole` is then equal to the
/// log that results.
pub open spec fn ask(log: Log, whole: Log, req: Req) -> Log {
    log.push(Call { req, rep: whole[log.len() as int].rep })
}

/// `log` with several requests more, answered as in `whole`.
pub open spec fn ask_each(log: Log, whole: Log, reqs: Seq<Req>) -> Log {
    log + Seq::new(
        reqs.len(),
        |i: int| Call { req: reqs[i], rep: whole[log.len() + i].rep },
    )
}

/// The requests `reqs` are made in turn until one is answered as `wanted`, the one
/// at `found`; all are made, and `found` is none, where no answer is that.
pub open spec fn asked_until(
    log: Log,
    reqs: Seq<Req>,
    wanted: bool,
    whole: Log,
    found: Option<int>,
) -> bool {
    let made: int = match found {
        Some(i) => i + 1,
        None => reqs.len() as int,
    };
    &&& found is Some ==> 0 <= found->0 < reqs.len()
    &&& whole == ask_each(log, whole, reqs.take(made))
    &&& forall|i: int|
        #![trigger reqs[i]]
        0 <= i < made ==> ((whole[log.len() + i].rep->Flag_0 == wanted) <==> found == Some(i))
}

/// All of the first `n` requests were made, and none was answered as `wanted`.
pub open spec fn asked_in_vain(log: Log, reqs: Seq<Req>, wanted: bool, n: int, whole: Log) -> bool {
    &&& 0 <= n <= reqs.len()
    &&& whole == ask_each(log, whole, reqs.take(n))
    &&& forall|i: int|
        #![trigger reqs[i]]
        0 <= i < n ==> whole[log.len() + i].rep->Flag_0 != wanted
}

/// Before the first request, none was made in vain.
pub proof fn lemma_asked_none(log: Log, reqs: Seq<Req>, wanted: bool)
    ensures
        asked_in_vain(log, reqs, wanted, 0, log),
{
    assert(log =~= ask_each(log, log, reqs.take(0)));
}

/// One request more: the search is over, or goes on.
pub proof fn lemma_asked_on(log: Log, reqs: Seq<Req>, wanted: bool, n: int, whole: Log, rep: Rep)
    requires
        asked_in_vain(log, reqs, wanted, n, whole),
        n < reqs.len(),
    ensures
        rep->Flag_0 == wanted ==> asked_until(
            log,
            reqs,
            wanted,
            whole.push(Call { req: reqs[n], rep }),
            Some(n),
        ),
        rep->Flag_0 != wanted ==> asked_in_vain(
            log,
            reqs,
            wanted,
            n + 1,
            whole.push(Call { req: reqs[n], rep }),
        ),
{
    let next = whole.push(Call { req: reqs[n], rep });
    assert(whole.len() == log.len() + n);
    assert(next =~= ask_each(log, next, reqs.take(n + 1)));
    assert forall|i: int|
        #![trigger reqs[i]]
        0 <= i < n implies next[log.len() + i].rep->Flag_0 != wanted by {}
}

/// Once all requests were made in vain, nothing is found.
pub proof fn lemma_asked_all(log: Log, reqs: Seq<Req>, wanted: bool, whole: Log)
    requires
        asked_in_vain(log, reqs, wanted, reqs.len() as int, whole),
    ensures
        asked_until(log, reqs, wanted, whole, None),
{
}

/// `whole` goes on where `log` ends.
pub open spec fn grew(log: Log, whole: Log) -> bool {
    &&& log.len() <= whole.len()
    &&& forall|i: int| 0 <= i < log.len() ==> #[trigger] whole[i] == log[i]
}

/// The last answer of `log`.
pub open spec fn answer(log: Log) -> Rep {
    log.last().rep
}

/// From place `from` on, a request is answered as `reply` says, whenever it is made.
pub open spec fn answered_by(reply: spec_fn(Req) -> Rep, log: Log, from: int) -> bool {
    forall|i: int| from <= i < log.len() ==> (#[trigger] log[i]).rep == reply(log[i].req)
}

/// From place `from` on, a request is answered as `host` says that it is after all
/// that was asked before.
pub open spec fn answered_in_turn(host: spec_fn(Log, Req) -> Rep, log: Log, from: int) -> bool {
    forall|i: int|
        from <= i < log.len() ==> (#[trigger] log[i]).rep == host(log.take(i), log[i].req)
}

/// Whether a request is a sum: numbers alone decide the answer.
pub open spec fn is_sum(req: Req) -> bool {
    req is Binary || req is Unary || req is Less || req is Equal
}

/// From place `from` on, sums come out as `sums` says.
pub open spec fn sums_answered_by(sums: spec_fn(Req) -> Rep, log: Log, from: int) -> bool {
    forall|i: int|
        from <= i < log.len() && is_sum((#[trigger] log[i]).req) ==> log[i].rep == sums(log[i].req)
}

/// A host, with the record of what passed between it and the actors.
pub struct Link<H> {
    host: H,
    past: Ghost<Log>,
}

impl<H> Link<H> {
    pub closed spec fn log(&self) -> Log {
        self.past@
    }

    pub fn new(host: H) -> (link: Self)
        ensures
            link.log() == Log::empty(),
    {
        Link { host, past: Ghost(Log::empty()) }
    }
}

// What is recorded is the very request that the host is given.

impl<H: LayoutHost> Link<H> {
    fn ask_layout(&mut self, request: LayoutRequest) -> (r: LayoutId)
        ensures
            final(self).log() == old(self).log().push(Call { req: request@, rep: Rep::Layout(r) }),
    {
        let ghost req = request@;
        let r = self.host.layout(request);
        self.past = Ghost(self.past@.push(Call { req, rep: Rep::Layout(r) }));
        r
    }

    fn ask_layouts(&mut self, request: LayoutsRequest) -> (r: Vec<LayoutId>)
        ensures
            final(self).log() == old(self).log().push(
                Call { req: request@, rep: Rep::Layouts(r@) },
            ),
    {
        let ghost req = request@;
        let r = self.host.layouts(request);
        self.past = Ghost(self.past@.push(Call { req, rep: Rep::Layouts(r@) }));
        r
    }

    fn ask_index(&mut self, request: IndexRequest) -> (r: u16)
        ensures
            final(self).log() == old(self).log().push(Call { req: request@, rep: Rep::Index(r) }),
    {
        let ghost req = request@;
        let r = self.host.index(request);
        self.past = Ghost(self.past@.push(Call { req, rep: Rep::Index(r) }));
        r
    }

    fn ask_flag(&mut self, request: FlagRequest) -> (r: bool)
        ensures
            final(self).log() == old(self).log().push(Call { req: request@, rep: Rep::Flag(r) }),
    {
        let ghost req = request@;
        let r = self.host.flag(request);
        self.past = Ghost(self.past@.push(Call { req, rep: Rep::Flag(r) }));
        r
    }

    fn ask_kind(&mut self, request: KindRequest) -> (r: LayoutKind)
        ensures
            final(self).log() == old(self).log().push(Call { req: request@, rep: Rep::Kind(r) }),
    {
        let ghost req = request@;
        let r = self.host.kind(request);
        self.past = Ghost(self.past@.push(Call { req, rep: Rep::Kind(r) }));
        r
    }

    fn ask_node(&mut self, request: NodeRequest) -> (r: NodeId)
        ensures
            final(self).log() == old(self).log().push(Call { req: request@, rep: Rep::Node(r) }),
    {
        let ghost req = request@;
        let r = self.host.node(request);
        self.past = Ghost(self.past@.push(Call { req, rep: Rep::Node(r) }));
        r
    }

    fn ask_find_node(&mut self, request: NodeSearch) -> (r: Option<NodeId>)
        ensures
            final(self).log() == old(self).log().push(
                Call { req: request@, rep: Rep::MaybeNode(r) },
            ),
    {
        let ghost req = request@;
        let r = self.host.find_node(request);
        self.past = Ghost(self.past@.push(Call { req, rep: Rep::MaybeNode(r) }));
        r
    }

    fn ask_find_window(&mut self, request: WindowSearch) -> (r: Option<WindowId>)
        ensures
            final(self).log() == old(self).log().push(
                Call { req: request@, rep: Rep::MaybeWindow(r) },
            ),
    {
        let ghost req = request@;
        let r = self.host.find_window(request);
        self.past = Ghost(self.past@.push(Call { req, rep: Rep::MaybeWindow(r) }));
        r
    }

    fn ask_nodes(&mut self, request: NodesRequest) -> (r: Vec<NodeId>)
        ensures
            final(self).log() == old(self).log().push(Call { req: request@, rep: Rep::Nodes(r@) }),
    {
        let ghost req = request@;
        let r = self.host.nodes(request);
        self.past = Ghost(self.past@.push(Call { req, rep: Rep::Nodes(r@) }));
        r
    }

    fn ask_windows(&mut self, request: WindowsRequest) -> (r: Vec<WindowId>)
        ensures
            final(self).log() == old(self).log().push(
                Call { req: request@, rep: Rep::Windows(r@) },
            ),
    {
        let ghost req = request@;
        let r = self.host.windows(request);
        self.past = Ghost(self.past@.push(Call { req, rep: Rep::Windows(r@) }));
        r
    }

    fn ask_container(&mut self, request: ContainerRequest) -> (r: ContainerKind)
        ensures
            final(self).log() == old(self).log().push(
                Call { req: request@, rep: Rep::Container(r) },
            ),
    {
        let ghost req = request@;
        let r = self.host.container(request);
        self.past = Ghost(self.past@.push(Call { req, rep: Rep::Container(r) }));
        r
    }

    fn ask_find_number(&mut self, request: NumberSearch) -> (r: Option<Real>)
        ensures
            final(self).log() == old(self).log().push(
                Call { req: request@, rep: Rep::MaybeNumber(r) },
            ),
    {
        let ghost req = request@;
        let r = self.host.find_number(request);
        self.past = Ghost(self.past@.push(Call { req, rep: Rep::MaybeNumber(r) }));
        r
    }

    fn ask_frames(&mut self, request: FramesRequest<'_>) -> (r: Vec<(WindowId, Frame)>)
        ensures
            final(self).log() == old(self).log().push(Call { req: request@, rep: Rep::Frames(r@) }),
    {
        let ghost req = request@;
        let r = self.host.frames(request);
        self.past = Ghost(self.past@.push(Call { req, rep: Rep::Frames(r@) }));
        r
    }

    fn ask_frames_and_groups(
        &mut self,
        request: GroupsRequest,
    ) -> (r: (Vec<(WindowId, Frame)>, Vec<GroupBar>))
        ensures
            final(self).log() == old(self).log().push(
                Call { req: request@, rep: Rep::Groups(r.0@, r.1@) },
            ),
    {
        let ghost req = request@;
        let r = self.host.frames_and_groups(request);
        self.past = Ghost(self.past@.push(Call { req, rep: Rep::Groups(r.0@, r.1@) }));
        r
    }

    fn ask_to_carry_out(&mut self, order: TreeOrder<'_>)
        ensures
            final(self).log() == old(self).log().push(Call { req: order@, rep: Rep::Unit }),
    {
        let ghost req = order@;
        self.host.carry_out(order);
        self.past = Ghost(self.past@.push(Call { req, rep: Rep::Unit }));
    }

    fn ask_steps(&mut self, request: StepsRequest) -> (r: Option<i32>)
        ensures
            final(self).log() == old(self).log().push(Call { req: request@, rep: Rep::Steps(r) }),
    {
        let ghost req = request@;
        let r = self.host.steps(request);
        self.past = Ghost(self.past@.push(Call { req, rep: Rep::Steps(r) }));
        r
    }

    fn ask_frame(&mut self, request: FrameRequest) -> (r: Frame)
        ensures
            final(self).log() == old(self).log().push(Call { req: request@, rep: Rep::Rect(r) }),
    {
        let ghost req = request@;
        let r = self.host.frame(request);
        self.past = Ghost(self.past@.push(Call { req, rep: Rep::Rect(r) }));
        r
    }

    fn ask_number(&mut self, request: NumberRequest) -> (r: Real)
        ensures
            final(self).log() == old(self).log().push(Call { req: request@, rep: Rep::Number(r) }),
    {
        let ghost req = request@;
        let r = self.host.number(request);
        self.past = Ghost(self.past@.push(Call { req, rep: Rep::Number(r) }));
        r
    }

    pub fn open_space(&mut self, space: SpaceId, size: Size, kind: LayoutKind) -> (r: LayoutId)
        ensures
            final(self).log() == old(self).log().push(
                Call { req: Req::OpenSpace(space, size, kind), rep: Rep::Layout(r) },
            ),
    {
        self.ask_layout(LayoutRequest::OpenSpace { space, size, kind })
    }

    pub fn activate_size(&mut self, space: SpaceId, size: Size) -> (r: LayoutId)
        ensures
            final(self).log() == old(self).log().push(
                Call { req: Req::ActivateSize(space, size), rep: Rep::Layout(r) },
            ),
    {
        self.ask_layout(LayoutRequest::ActivateSize { space, size })
    }

    pub fn prepare_modify(&mut self, space: SpaceId) -> (r: LayoutId)
        ensures
            final(self).log() == old(self).log().push(
                Call { req: Req::PrepareModify(space), rep: Rep::Layout(r) },
            ),
    {
        self.ask_layout(LayoutRequest::PrepareModify { space })
    }

    pub fn replace_active_layout(&mut self, space: SpaceId, layout: LayoutId) -> (r: LayoutId)
        ensures
            final(self).log() == old(self).log().push(
                Call { req: Req::ReplaceActiveLayout(space, layout), rep: Rep::Layout(r) },
            ),
    {
        self.ask_layout(LayoutRequest::ReplaceActiveLayout { space, layout })
    }

    pub fn select_layout(&mut self, space: SpaceId, layout: LayoutId) -> (r: LayoutId)
        ensures
            final(self).log() == old(self).log().push(
                Call { req: Req::SelectLayout(space, layout), rep: Rep::Layout(r) },
            ),
    {
        self.ask_layout(LayoutRequest::SelectLayout { space, layout })
    }

    pub fn layouts(&mut self, space: SpaceId) -> (r: Vec<LayoutId>)
        ensures
            final(self).log() == old(self).log().push(
                Call { req: Req::Layouts(space), rep: Rep::Layouts(r@) },
            ),
    {
        self.ask_layouts(LayoutsRequest::Layouts { space })
    }

    pub fn active_layout_index(&mut self, space: SpaceId) -> (r: u16)
        ensures
            final(self).log() == old(self).log().push(
                Call { req: Req::ActiveLayoutIndex(space), rep: Rep::Index(r) },
            ),
    {
        self.ask_index(IndexRequest::ActiveLayoutIndex { space })
    }

    pub fn is_scroll_layout(&mut self, layout: LayoutId) -> (r: bool)
        ensures
            final(self).log() == old(self).log().push(
                Call { req: Req::IsScrollLayout(layout), rep: Rep::Flag(r) },
            ),
    {
        self.ask_flag(FlagRequest::IsScrollLayout { layout })
    }

    pub fn layout_kind(&mut self, layout: LayoutId) -> (r: LayoutKind)
        ensures
            final(self).log() == old(self).log().push(
                Call { req: Req::LayoutKind(layout), rep: Rep::Kind(r) },
            ),
    {
        self.ask_kind(KindRequest::LayoutKind { layout })
    }

    pub fn root(&mut self, layout: LayoutId) -> (r: NodeId)
        ensures
            final(self).log() == old(self).log().push(
                Call { req: Req::Root(layout), rep: Rep::Node(r) },
            ),
    {
        self.ask_node(NodeRequest::Root { layout })
    }

    pub fn selection(&mut self, layout: LayoutId) -> (r: NodeId)
        ensures
            final(self).log() == old(self).log().push(
                Call { req: Req::Selection(layout), rep: Rep::Node(r) },
            ),
    {
        self.ask_node(NodeRequest::Selection { layout })
    }

    pub fn parent(&mut self, node: NodeId) -> (r: Option<NodeId>)
        ensures
            final(self).log() == old(self).log().push(
                Call { req: Req::Parent(node), rep: Rep::MaybeNode(r) },
            ),
    {
        self.ask_find_node(NodeSearch::Parent { node })
    }

    pub fn window_at(&mut self, node: NodeId) -> (r: Option<WindowId>)
        ensures
            final(self).log() == old(self).log().push(
                Call { req: Req::WindowAt(node), rep: Rep::MaybeWindow(r) },
            ),
    {
        self.ask_find_window(WindowSearch::WindowAt { node })
    }

    pub fn window_node(&mut self, layout: LayoutId, wid: WindowId) -> (r: Option<NodeId>)
        ensures
            final(self).log() == old(self).log().push(
                Call { req: Req::WindowNode(layout, wid), rep: Rep::MaybeNode(r) },
            ),
    {
        self.ask_find_node(NodeSearch::WindowNode { layout, wid })
    }

    pub fn traverse_postorder(&mut self, node: NodeId) -> (r: Vec<NodeId>)
        ensures
            final(self).log() == old(self).log().push(
                Call { req: Req::TraversePostorder(node), rep: Rep::Nodes(r@) },
            ),
    {
        self.ask_nodes(NodesRequest::TraversePostorder { node })
    }

    pub fn traverse_preorder(&mut self, node: NodeId) -> (r: Vec<NodeId>)
        ensures
            final(self).log() == old(self).log().push(
                Call { req: Req::TraversePreorder(node), rep: Rep::Nodes(r@) },
            ),
    {
        self.ask_nodes(NodesRequest::TraversePreorder { node })
    }

    pub fn visible_windows_under(&mut self, node: NodeId) -> (r: Vec<WindowId>)
        ensures
            final(self).log() == old(self).log().push(
                Call { req: Req::VisibleWindowsUnder(node), rep: Rep::Windows(r@) },
            ),
    {
        self.ask_windows(WindowsRequest::VisibleWindowsUnder { node })
    }

    pub fn is_visible(&mut self, node: NodeId) -> (r: bool)
        ensures
            final(self).log() == old(self).log().push(
                Call { req: Req::IsVisible(node), rep: Rep::Flag(r) },
            ),
    {
        self.ask_flag(FlagRequest::IsVisible { node })
    }

    pub fn is_fullscreen(&mut self, node: NodeId) -> (r: bool)
        ensures
            final(self).log() == old(self).log().push(
                Call { req: Req::IsFullscreen(node), rep: Rep::Flag(r) },
            ),
    {
        self.ask_flag(FlagRequest::IsFullscreen { node })
    }

    pub fn container_kind(&mut self, node: NodeId) -> (r: ContainerKind)
        ensures
            final(self).log() == old(self).log().push(
                Call { req: Req::ContainerKind(node), rep: Rep::Container(r) },
            ),
    {
        self.ask_container(ContainerRequest::ContainerKind { node })
    }

    pub fn last_ungrouped_container_kind(&mut self, node: NodeId) -> (r: ContainerKind)
        ensures
            final(self).log() == old(self).log().push(
                Call { req: Req::LastUngroupedContainerKind(node), rep: Rep::Container(r) },
            ),
    {
        self.ask_container(ContainerRequest::LastUngroupedContainerKind { node })
    }

    pub fn is_group_kind(&mut self, kind: ContainerKind) -> (r: bool)
        ensures
            final(self).log() == old(self).log().push(
                Call { req: Req::IsGroupKind(kind), rep: Rep::Flag(r) },
            ),
    {
        self.ask_flag(FlagRequest::IsGroupKind { kind })
    }

    pub fn split_kind(&mut self, orientation: Orientation) -> (r: ContainerKind)
        ensures
            final(self).log() == old(self).log().push(
                Call { req: Req::SplitKind(orientation), rep: Rep::Container(r) },
            ),
    {
        self.ask_container(ContainerRequest::SplitKind { orientation })
    }

    pub fn group_kind(&mut self, orientation: Orientation) -> (r: ContainerKind)
        ensures
            final(self).log() == old(self).log().push(
                Call { req: Req::GroupKind(orientation), rep: Rep::Container(r) },
            ),
    {
        self.ask_container(ContainerRequest::GroupKind { orientation })
    }

    pub fn traverse(&mut self, node: NodeId, direction: Direction) -> (r: Option<NodeId>)
        ensures
            final(self).log() == old(self).log().push(
                Call { req: Req::Traverse(node, direction), rep: Rep::MaybeNode(r) },
            ),
    {
        self.ask_find_node(NodeSearch::Traverse { node, direction })
    }

    pub fn traverse_scroll_wrapping(
        &mut self,
        layout: LayoutId,
        node: NodeId,
        direction: Direction,
    ) -> (r: Option<NodeId>)
        ensures
            final(self).log() == old(self).log().push(
                Call {
                    req: Req::TraverseScrollWrapping(layout, node, direction),
                    rep: Rep::MaybeNode(r),
                },
            ),
    {
        self.ask_find_node(NodeSearch::TraverseScrollWrapping { layout, node, direction })
    }

    pub fn focus_next(&mut self, layout: LayoutId, node: NodeId) -> (r: Option<NodeId>)
        ensures
            final(self).log() == old(self).log().push(
                Call { req: Req::FocusNext(layout, node), rep: Rep::MaybeNode(r) },
            ),
    {
        self.ask_find_node(NodeSearch::FocusNext { layout, node })
    }

    pub fn focus_prev(&mut self, layout: LayoutId, node: NodeId) -> (r: Option<NodeId>)
        ensures
            final(self).log() == old(self).log().push(
                Call { req: Req::FocusPrev(layout, node), rep: Rep::MaybeNode(r) },
            ),
    {
        self.ask_find_node(NodeSearch::FocusPrev { layout, node })
    }

    pub fn column_of(&mut self, layout: LayoutId, node: NodeId) -> (r: Option<NodeId>)
        ensures
            final(self).log() == old(self).log().push(
                Call { req: Req::ColumnOf(layout, node), rep: Rep::MaybeNode(r) },
            ),
    {
        self.ask_find_node(NodeSearch::ColumnOf { layout, node })
    }

    pub fn columns(&mut self, layout: LayoutId) -> (r: Vec<NodeId>)
        ensures
            final(self).log() == old(self).log().push(
                Call { req: Req::Columns(layout), rep: Rep::Nodes(r@) },
            ),
    {
        self.ask_nodes(NodesRequest::Columns { layout })
    }

    pub fn proportion(&mut self, node: NodeId) -> (r: Option<Real>)
        ensures
            final(self).log() == old(self).log().push(
                Call { req: Req::Proportion(node), rep: Rep::MaybeNumber(r) },
            ),
    {
        self.ask_find_number(NumberSearch::Proportion { node })
    }

    pub fn calculate_layout(
        &mut self,
        layout: LayoutId,
        screen: Frame,
        config: ConfigId,
    ) -> (r: Vec<(WindowId, Frame)>)
        ensures
            final(self).log() == old(self).log().push(
                Call { req: Req::CalculateLayout(layout, screen, config), rep: Rep::Frames(r@) },
            ),
    {
        self.ask_frames(FramesRequest::CalculateLayout { layout, screen, config })
    }

    pub fn calculate_layout_and_groups(
        &mut self,
        layout: LayoutId,
        screen: Frame,
        config: ConfigId,
    ) -> (r: (Vec<(WindowId, Frame)>, Vec<GroupBar>))
        ensures
            final(self).log() == old(self).log().push(
                Call {
                    req: Req::CalculateLayoutAndGroups(layout, screen, config),
                    rep: Rep::Groups(r.0@, r.1@),
                },
            ),
    {
        self.ask_frames_and_groups(
            GroupsRequest::CalculateLayoutAndGroups { layout, screen, config },
        )
    }

    pub fn create_layout(&mut self) -> (r: LayoutId)
        ensures
            final(self).log() == old(self).log().push(
                Call { req: Req::CreateLayout, rep: Rep::Layout(r) },
            ),
    {
        self.ask_layout(LayoutRequest::CreateLayout)
    }

    pub fn create_scroll_layout(&mut self) -> (r: LayoutId)
        ensures
            final(self).log() == old(self).log().push(
                Call { req: Req::CreateScrollLayout, rep: Rep::Layout(r) },
            ),
    {
        self.ask_layout(LayoutRequest::CreateScrollLayout)
    }

    pub fn select(&mut self, node: NodeId)
        ensures
            final(self).log() == old(self).log().push(
                Call { req: Req::Select(node), rep: Rep::Unit },
            ),
    {
        self.ask_to_carry_out(TreeOrder::Select { node });
    }

    pub fn select_returning_surfaced_windows(&mut self, node: NodeId) -> (r: Vec<WindowId>)
        ensures
            final(self).log() == old(self).log().push(
                Call { req: Req::SelectReturningSurfacedWindows(node), rep: Rep::Windows(r@) },
            ),
    {
        self.ask_windows(WindowsRequest::SelectReturningSurfacedWindows { node })
    }

    pub fn ascend_selection(&mut self, layout: LayoutId)
        ensures
            final(self).log() == old(self).log().push(
                Call { req: Req::AscendSelection(layout), rep: Rep::Unit },
            ),
    {
        self.ask_to_carry_out(TreeOrder::AscendSelection { layout });
    }

    pub fn descend_selection(&mut self, layout: LayoutId)
        ensures
            final(self).log() == old(self).log().push(
                Call { req: Req::DescendSelection(layout), rep: Rep::Unit },
            ),
    {
        self.ask_to_carry_out(TreeOrder::DescendSelection { layout });
    }

    pub fn add_window_after(&mut self, layout: LayoutId, node: NodeId, wid: WindowId) -> (r: NodeId)
        ensures
            final(self).log() == old(self).log().push(
                Call { req: Req::AddWindowAfter(layout, node, wid), rep: Rep::Node(r) },
            ),
    {
        self.ask_node(NodeRequest::AddWindowAfter { layout, node, wid })
    }

    pub fn add_window_to_scroll_column(
        &mut self,
        layout: LayoutId,
        wid: WindowId,
        new_column: bool,
        visible_columns: u32,
    )
        ensures
            final(self).log() == old(self).log().push(
                Call {
                    req: Req::AddWindowToScrollColumn(layout, wid, new_column, visible_columns),
                    rep: Rep::Unit,
                },
            ),
    {
        self.ask_to_carry_out(
            TreeOrder::AddWindowToScrollColumn { layout, wid, new_column, visible_columns },
        );
    }

    pub fn remove_window(&mut self, wid: WindowId)
        ensures
            final(self).log() == old(self).log().push(
                Call { req: Req::RemoveWindow(wid), rep: Rep::Unit },
            ),
    {
        self.ask_to_carry_out(TreeOrder::RemoveWindow { wid });
    }

    pub fn set_windows_for_app(&mut self, layout: LayoutId, pid: i32, wids: &Vec<WindowId>)
        ensures
            final(self).log() == old(self).log().push(
                Call { req: Req::SetWindowsForApp(layout, pid, wids@), rep: Rep::Unit },
            ),
    {
        self.ask_to_carry_out(TreeOrder::SetWindowsForApp { layout, pid, wids });
    }

    pub fn retain_apps(&mut self, pids: &Vec<i32>)
        ensures
            final(self).log() == old(self).log().push(
                Call { req: Req::RetainApps(pids@), rep: Rep::Unit },
            ),
    {
        self.ask_to_carry_out(TreeOrder::RetainApps { pids });
    }

    pub fn remove_windows_for_app(&mut self, pid: i32)
        ensures
            final(self).log() == old(self).log().push(
                Call { req: Req::RemoveWindowsForApp(pid), rep: Rep::Unit },
            ),
    {
        self.ask_to_carry_out(TreeOrder::RemoveWindowsForApp { pid });
    }

    pub fn move_node(&mut self, layout: LayoutId, node: NodeId, direction: Direction) -> (r: bool)
        ensures
            final(self).log() == old(self).log().push(
                Call { req: Req::MoveNode(layout, node, direction), rep: Rep::Flag(r) },
            ),
    {
        self.ask_flag(FlagRequest::MoveNode { layout, node, direction })
    }

    pub fn move_node_after(&mut self, target: NodeId, node: NodeId)
        ensures
            final(self).log() == old(self).log().push(
                Call { req: Req::MoveNodeAfter(target, node), rep: Rep::Unit },
            ),
    {
        self.ask_to_carry_out(TreeOrder::MoveNodeAfter { target, node });
    }

    pub fn nest_in_container(&mut self, layout: LayoutId, node: NodeId, kind: ContainerKind)
        ensures
            final(self).log() == old(self).log().push(
                Call { req: Req::NestInContainer(layout, node, kind), rep: Rep::Unit },
            ),
    {
        self.ask_to_carry_out(TreeOrder::NestInContainer { layout, node, kind });
    }

    pub fn set_container_kind(&mut self, node: NodeId, kind: ContainerKind)
        ensures
            final(self).log() == old(self).log().push(
                Call { req: Req::SetContainerKind(node, kind), rep: Rep::Unit },
            ),
    {
        self.ask_to_carry_out(TreeOrder::SetContainerKind { node, kind });
    }

    pub fn set_fullscreen(&mut self, node: NodeId, fullscreen: bool)
        ensures
            final(self).log() == old(self).log().push(
                Call { req: Req::SetFullscreen(node, fullscreen), rep: Rep::Unit },
            ),
    {
        self.ask_to_carry_out(TreeOrder::SetFullscreen { node, fullscreen });
    }

    pub fn toggle_fullscreen(&mut self, node: NodeId) -> (r: bool)
        ensures
            final(self).log() == old(self).log().push(
                Call { req: Req::ToggleFullscreen(node), rep: Rep::Flag(r) },
            ),
    {
        self.ask_flag(FlagRequest::ToggleFullscreen { node })
    }

    pub fn resize(&mut self, node: NodeId, ratio: Real, direction: Direction) -> (r: bool)
        ensures
            final(self).log() == old(self).log().push(
                Call { req: Req::Resize(node, ratio, direction), rep: Rep::Flag(r) },
            ),
    {
        self.ask_flag(FlagRequest::Resize { node, ratio, direction })
    }

    pub fn set_frame_from_resize(
        &mut self,
        node: NodeId,
        old_frame: Frame,
        new_frame: Frame,
        screen: Frame,
    )
        ensures
            final(self).log() == old(self).log().push(
                Call {
                    req: Req::SetFrameFromResize(node, old_frame, new_frame, screen),
                    rep: Rep::Unit,
                },
            ),
    {
        self.ask_to_carry_out(TreeOrder::SetFrameFromResize { node, old_frame, new_frame, screen });
    }

    pub fn swap_windows(&mut self, a: NodeId, b: NodeId)
        ensures
            final(self).log() == old(self).log().push(
                Call { req: Req::SwapWindows(a, b), rep: Rep::Unit },
            ),
    {
        self.ask_to_carry_out(TreeOrder::SwapWindows { a, b });
    }

    pub fn open_viewport(&mut self, layout: LayoutId, width: Real)
        ensures
            final(self).log() == old(self).log().push(
                Call { req: Req::OpenViewport(layout, width), rep: Rep::Unit },
            ),
    {
        self.ask_to_carry_out(TreeOrder::OpenViewport { layout, width });
    }

    pub fn close_viewport(&mut self, layout: LayoutId)
        ensures
            final(self).log() == old(self).log().push(
                Call { req: Req::CloseViewport(layout), rep: Rep::Unit },
            ),
    {
        self.ask_to_carry_out(TreeOrder::CloseViewport { layout });
    }

    pub fn is_user_scrolling(&mut self, layout: LayoutId) -> (r: bool)
        ensures
            final(self).log() == old(self).log().push(
                Call { req: Req::IsUserScrolling(layout), rep: Rep::Flag(r) },
            ),
    {
        self.ask_flag(FlagRequest::IsUserScrolling { layout })
    }

    pub fn stop_user_scrolling(&mut self, layout: LayoutId)
        ensures
            final(self).log() == old(self).log().push(
                Call { req: Req::StopUserScrolling(layout), rep: Rep::Unit },
            ),
    {
        self.ask_to_carry_out(TreeOrder::StopUserScrolling { layout });
    }

    pub fn set_screen_width(&mut self, layout: LayoutId, width: Real)
        ensures
            final(self).log() == old(self).log().push(
                Call { req: Req::SetScreenWidth(layout, width), rep: Rep::Unit },
            ),
    {
        self.ask_to_carry_out(TreeOrder::SetScreenWidth { layout, width });
    }

    pub fn ensure_column_visible(
        &mut self,
        layout: LayoutId,
        column: usize,
        x: Real,
        width: Real,
        center: CenterMode,
        gap: Real,
    )
        ensures
            final(self).log() == old(self).log().push(
                Call {
                    req: Req::EnsureColumnVisible(layout, column, x, width, center, gap),
                    rep: Rep::Unit,
                },
            ),
    {
        self.ask_to_carry_out(
            TreeOrder::EnsureColumnVisible { layout, column, x, width, center, gap },
        );
    }

    pub fn accumulate_scroll(
        &mut self,
        layout: LayoutId,
        delta: Real,
        threshold: Real,
    ) -> (r: Option<i32>)
        ensures
            final(self).log() == old(self).log().push(
                Call { req: Req::AccumulateScroll(layout, delta, threshold), rep: Rep::Steps(r) },
            ),
    {
        self.ask_steps(StepsRequest::AccumulateScroll { layout, delta, threshold })
    }

    pub fn is_animating(&mut self, layout: LayoutId) -> (r: bool)
        ensures
            final(self).log() == old(self).log().push(
                Call { req: Req::IsAnimating(layout), rep: Rep::Flag(r) },
            ),
    {
        self.ask_flag(FlagRequest::IsAnimating { layout })
    }

    pub fn tick(&mut self, layout: LayoutId)
        ensures
            final(self).log() == old(self).log().push(
                Call { req: Req::Tick(layout), rep: Rep::Unit },
            ),
    {
        self.ask_to_carry_out(TreeOrder::Tick { layout });
    }

    pub fn apply_viewport(
        &mut self,
        layout: LayoutId,
        screen: Frame,
        frames: &Vec<(WindowId, Frame)>,
    ) -> (r: Vec<(WindowId, Frame)>)
        ensures
            final(self).log() == old(self).log().push(
                Call { req: Req::ApplyViewport(layout, screen, frames@), rep: Rep::Frames(r@) },
            ),
    {
        self.ask_frames(FramesRequest::ApplyViewport { layout, screen, frames })
    }

    pub fn offset_rect(&mut self, layout: LayoutId, frame: Frame) -> (r: Frame)
        ensures
            final(self).log() == old(self).log().push(
                Call { req: Req::OffsetRect(layout, frame), rep: Rep::Rect(r) },
            ),
    {
        self.ask_frame(FrameRequest::OffsetRect { layout, frame })
    }

    pub fn is_in_view(&mut self, layout: LayoutId, frame: Frame) -> (r: bool)
        ensures
            final(self).log() == old(self).log().push(
                Call { req: Req::IsInView(layout, frame), rep: Rep::Flag(r) },
            ),
    {
        self.ask_flag(FlagRequest::IsInView { layout, frame })
    }

    pub fn contains_size(&mut self, outer: Size, inner: Size) -> (r: bool)
        ensures
            final(self).log() == old(self).log().push(
                Call { req: Req::ContainsSize(outer, inner), rep: Rep::Flag(r) },
            ),
    {
        self.ask_flag(FlagRequest::ContainsSize { outer, inner })
    }

    pub fn contains_point(&mut self, frame: Frame, point: Point) -> (r: bool)
        ensures
            final(self).log() == old(self).log().push(
                Call { req: Req::ContainsPoint(frame, point), rep: Rep::Flag(r) },
            ),
    {
        self.ask_flag(FlagRequest::ContainsPoint { frame, point })
    }

    pub fn same_frame(&mut self, a: Frame, b: Frame) -> (r: bool)
        ensures
            final(self).log() == old(self).log().push(
                Call { req: Req::SameFrame(a, b), rep: Rep::Flag(r) },
            ),
    {
        self.ask_flag(FlagRequest::SameFrame { frame: a, other: b })
    }

    pub fn binary(&mut self, op: Binary, a: Real, b: Real) -> (r: Real)
        ensures
            final(self).log() == old(self).log().push(
                Call { req: Req::Binary(op, a, b), rep: Rep::Number(r) },
            ),
    {
        self.ask_number(NumberRequest::Binary { op, a, b })
    }

    pub fn unary(&mut self, op: Unary, a: Real) -> (r: Real)
        ensures
            final(self).log() == old(self).log().push(
                Call { req: Req::Unary(op, a), rep: Rep::Number(r) },
            ),
    {
        self.ask_number(NumberRequest::Unary { function: op, a })
    }

    pub fn less(&mut self, a: Real, b: Real) -> (r: bool)
        ensures
            final(self).log() == old(self).log().push(
                Call { req: Req::Less(a, b), rep: Rep::Flag(r) },
            ),
    {
        self.ask_flag(FlagRequest::Less { a, b })
    }

    pub fn equal(&mut self, a: Real, b: Real) -> (r: bool)
        ensures
            final(self).log() == old(self).log().push(
                Call { req: Req::Equal(a, b), rep: Rep::Flag(r) },
            ),
    {
        self.ask_flag(FlagRequest::Equal { a, b })
    }
}

impl<H: ReactorHost> Link<H> {
    fn ask_check(&mut self, request: CheckRequest<'_>) -> (r: bool)
        ensures
            final(self).log() == old(self).log().push(Call { req: request@, rep: Rep::Flag(r) }),
    {
        let ghost req = request@;
        let r = self.host.check(request);
        self.past = Ghost(self.past@.push(Call { req, rep: Rep::Flag(r) }));
        r
    }

    fn ask_shape(&mut self, request: ShapeRequest) -> (r: Frame)
        ensures
            final(self).log() == old(self).log().push(Call { req: request@, rep: Rep::Rect(r) }),
    {
        let ghost req = request@;
        let r = self.host.shape(request);
        self.past = Ghost(self.past@.push(Call { req, rep: Rep::Rect(r) }));
        r
    }

    fn ask_area(&mut self, request: AreaRequest) -> (r: i64)
        ensures
            final(self).log() == old(self).log().push(Call { req: request@, rep: Rep::Area(r) }),
    {
        let ghost req = request@;
        let r = self.host.area(request);
        self.past = Ghost(self.past@.push(Call { req, rep: Rep::Area(r) }));
        r
    }

    fn ask_place(&mut self, request: PlaceRequest) -> (r: Point)
        ensures
            final(self).log() == old(self).log().push(Call { req: request@, rep: Rep::Place(r) }),
    {
        let ghost req = request@;
        let r = self.host.place(request);
        self.past = Ghost(self.past@.push(Call { req, rep: Rep::Place(r) }));
        r
    }

    fn ask_to_send(&mut self, message: Message<'_>)
        ensures
            final(self).log() == old(self).log().push(Call { req: message@, rep: Rep::Unit }),
    {
        let ghost req = message@;
        self.host.send(message);
        self.past = Ghost(self.past@.push(Call { req, rep: Rep::Unit }));
    }

    pub fn same_size(&mut self, a: Size, b: Size) -> (r: bool)
        ensures
            final(self).log() == old(self).log().push(
                Call { req: Req::SameSize(a, b), rep: Rep::Flag(r) },
            ),
    {
        self.ask_check(CheckRequest::SameSize { size: a, other: b })
    }

    pub fn looks_same(&mut self, a: Frame, b: Frame) -> (r: bool)
        ensures
            final(self).log() == old(self).log().push(
                Call { req: Req::LooksSame(a, b), rep: Rep::Flag(r) },
            ),
    {
        self.ask_check(CheckRequest::LooksSame { a, b })
    }

    pub fn intersection(&mut self, a: Frame, b: Frame) -> (r: Frame)
        ensures
            final(self).log() == old(self).log().push(
                Call { req: Req::Intersection(a, b), rep: Rep::Rect(r) },
            ),
    {
        self.ask_shape(ShapeRequest::Intersection { a, b })
    }

    pub fn overlap_area(&mut self, a: Frame, b: Frame) -> (r: i64)
        ensures
            final(self).log() == old(self).log().push(
                Call { req: Req::OverlapArea(a, b), rep: Rep::Area(r) },
            ),
    {
        self.ask_area(AreaRequest::OverlapArea { a, b })
    }

    pub fn middle(&mut self, frame: Frame) -> (r: Point)
        ensures
            final(self).log() == old(self).log().push(
                Call { req: Req::Middle(frame), rep: Rep::Place(r) },
            ),
    {
        self.ask_place(PlaceRequest::Middle { frame })
    }

    pub fn round_to_physical(&mut self, frame: Frame, scale: Real) -> (r: Frame)
        ensures
            final(self).log() == old(self).log().push(
                Call { req: Req::RoundToPhysical(frame, scale), rep: Rep::Rect(r) },
            ),
    {
        self.ask_shape(ShapeRequest::RoundToPhysical { frame, scale })
    }

    pub fn terminate_app(&mut self, handle: AppHandle)
        ensures
            final(self).log() == old(self).log().push(
                Call { req: Req::TerminateApp(handle), rep: Rep::Unit },
            ),
    {
        self.ask_to_send(Message::TerminateApp { handle });
    }

    pub fn get_visible_windows(&mut self, handle: AppHandle)
        ensures
            final(self).log() == old(self).log().push(
                Call { req: Req::GetVisibleWindows(handle), rep: Rep::Unit },
            ),
    {
        self.ask_to_send(Message::GetVisibleWindows { handle });
    }

    pub fn raise(&mut self, request: &RaiseRequest)
        ensures
            final(self).log() == old(self).log().push(
                Call { req: Req::Raise(request@), rep: Rep::Unit },
            ),
    {
        self.ask_to_send(Message::Raise { request });
    }

    pub fn raise_completed(&mut self, wid: WindowId, sequence_id: u64)
        ensures
            final(self).log() == old(self).log().push(
                Call { req: Req::RaiseCompleted(wid, sequence_id), rep: Rep::Unit },
            ),
    {
        self.ask_to_send(Message::RaiseCompleted { wid, sequence_id });
    }

    pub fn raise_timed_out(&mut self, sequence_id: u64)
        ensures
            final(self).log() == old(self).log().push(
                Call { req: Req::RaiseTimedOut(sequence_id), rep: Rep::Unit },
            ),
    {
        self.ask_to_send(Message::RaiseTimedOut { sequence_id });
    }

    pub fn screen_parameters_changed(&mut self, spaces: &Vec<Option<SpaceId>>, converter: Converter)
        ensures
            final(self).log() == old(self).log().push(
                Call { req: Req::ScreenParametersChanged(spaces@, converter), rep: Rep::Unit },
            ),
    {
        self.ask_to_send(Message::ScreenParametersChanged { spaces, converter });
    }

    pub fn groups_updated(&mut self, space: SpaceId, groups: &Vec<GroupBar>)
        ensures
            final(self).log() == old(self).log().push(
                Call { req: Req::GroupsUpdated(space, groups@), rep: Rep::Unit },
            ),
    {
        self.ask_to_send(Message::GroupsUpdated { space, groups });
    }

    pub fn focused_screen_changed(&mut self)
        ensures
            final(self).log() == old(self).log().push(
                Call { req: Req::FocusedScreenChanged, rep: Rep::Unit },
            ),
    {
        self.ask_to_send(Message::FocusedScreenChanged);
    }

    pub fn animate(&mut self, mode: AnimationMode, moves: &Vec<WindowMove>) -> (r: bool)
        ensures
            final(self).log() == old(self).log().push(
                Call { req: Req::Animate(mode, moves@), rep: Rep::Flag(r) },
            ),
    {
        self.ask_check(CheckRequest::Animate { mode, moves })
    }

    pub fn jump_to_end(&mut self, moves: &Vec<WindowMove>)
        ensures
            final(self).log() == old(self).log().push(
                Call { req: Req::JumpToEnd(moves@), rep: Rep::Unit },
            ),
    {
        self.ask_to_send(Message::JumpToEnd { moves });
    }

    pub fn run_metrics_command(&mut self, command: u32)
        ensures
            final(self).log() == old(self).log().push(
                Call { req: Req::RunMetricsCommand(command), rep: Rep::Unit },
            ),
    {
        self.ask_to_send(Message::RunMetricsCommand { command });
    }

    pub fn show_layout(&mut self, shown: &Shown)
        ensures
            final(self).log() == old(self).log().push(
                Call { req: Req::ShowLayout(shown@), rep: Rep::Unit },
            ),
    {
        self.ask_to_send(Message::ShowLayout { shown });
    }

    pub fn print_layouts(&mut self, saved: &SavedLayout)
        ensures
            final(self).log() == old(self).log().push(
                Call { req: Req::PrintLayouts(saved@), rep: Rep::Unit },
            ),
    {
        self.ask_to_send(Message::PrintLayouts { saved });
    }

    pub fn save_layouts(&mut self, saved: &SavedLayout) -> (r: bool)
        ensures
            final(self).log() == old(self).log().push(
                Call { req: Req::SaveLayouts(saved@), rep: Rep::Flag(r) },
            ),
    {
        self.ask_check(CheckRequest::SaveLayouts { saved })
    }

    pub fn exit(&mut self, status: i32)
        ensures
            final(self).log() == old(self).log().push(
                Call { req: Req::Exit(status), rep: Rep::Unit },
            ),
    {
        self.ask_to_send(Message::Exit { status });
    }
}

} // verus!
