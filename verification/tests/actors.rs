//! The layout manager and the reactor at work, on a small layout tree.

use std::cell::RefCell;
use std::collections::{BTreeMap, HashSet};
use std::rc::Rc;

use glide::collections::VecSet;
use glide::config::{Config, NewWindowPlacement, ScrollConfig};
use glide::edges::ResizeEdge;
use glide::ids::{
    CenterMode, ConfigId, ContainerKind, Direction, Frame, GroupBar, LayoutId, LayoutKind, NodeId,
    Orientation, Point, Real, Size, SpaceId, WindowId, WindowServerId,
};
use glide::layout::commands::LayoutCommand;
use glide::layout::commands::LayoutCommand::{
    Ascend, ChangeLayoutKind, CycleColumnWidth, Descend, FocusNext, FocusPrev, Group, MoveFocus,
    MoveNode, NextLayout, PrevLayout, Resize, Split, ToggleColumnTabbed, ToggleFocusFloating,
    ToggleFullscreen, ToggleWindowFloating, Ungroup,
};
use glide::layout::events::LayoutEvent;
use glide::layout::events::LayoutEvent::{
    AppClosed, AppsRunningUpdated, MouseMovedOverWindow, SpaceExposed, WindowAdded, WindowFocused,
    WindowRemoved, WindowResized, WindowSpaceChanged, WindowsOnScreenUpdated,
};
use glide::layout::interactive::detect_edges;
use glide::layout::saved::{SavedLayout, Shown};
use glide::layout::state::LayoutManager;
use glide::link::{Binary, LayoutHost, Link, ReactorHost, Unary};
use glide::messages::{
    AnimationMode, AppContact, AppHandle, Converter, RaiseRequest, TransactionId, WindowMove,
};
use glide::reactor::event::{
    AppInfo, Command, Event, MetricsCommand, MouseState, Quiet, ReactorCommand, Requested,
    WindowInfo, WindowServerInfo, WindowsOnScreen,
};
use glide::reactor::state::{Reactor, Screen, WindowState};
use glide::requests::{
    AreaRequest, CheckRequest, ContainerRequest, FlagRequest, FrameRequest, FramesRequest,
    GroupsRequest, IndexRequest, KindRequest, LayoutRequest, LayoutsRequest, Message, NodeRequest,
    NodeSearch, NodesRequest, NumberRequest, NumberSearch, PlaceRequest, ShapeRequest, StepsRequest,
    TreeOrder, WindowSearch, WindowsRequest,
};
use glide::response::EventResponse;
use glide::window_class::LayoutWindowInfo;
use redact::Secret;

type Shared = Rc<RefCell<World>>;

#[derive(Clone, Copy, Debug, PartialEq)]
enum Shape {
    Row,
    Column,
    Tabs,
    Stack,
}

#[derive(Clone, Debug)]
struct Node {
    layout: u64,
    parent: Option<u64>,
    children: Vec<u64>,
    shape: Shape,
    ungrouped: Shape,
    weight: f64,
    selected: Option<u64>,
    window: Option<WindowId>,
    fullscreen: bool,
}

#[derive(Clone, Debug)]
struct Sheet {
    root: u64,
    selection: u64,
    scroll: bool,
}

#[derive(Clone, Debug)]
struct Desk {
    size: (u64, u64),
    active: u64,
    kept: Vec<((u64, u64), u64)>,
    layouts: Vec<u64>,
}

#[derive(Clone, Debug)]
struct View {
    user_scrolling: bool,
    width: f64,
    offset: f64,
    gathered: f64,
    moving: bool,
}

#[derive(Clone, Debug, PartialEq)]
enum Request {
    SetFrame(WindowId, Frame, TransactionId),
    GetVisibleWindows(i32),
    Terminate(i32),
}

/// A layout tree, viewports and the other actors, for tests.
#[derive(Clone, Debug, Default)]
struct World {
    next: u64,
    nodes: BTreeMap<u64, Node>,
    sheets: BTreeMap<u64, Sheet>,
    desks: BTreeMap<u64, Desk>,
    views: BTreeMap<u64, View>,
    asked: Vec<String>,
    requests: Vec<Request>,
    raises: Vec<(Vec<Vec<WindowId>>, Option<(WindowId, Option<Point>)>, Vec<AppContact>)>,
    animates: bool,
    animations: Vec<(AnimationMode, Vec<WindowMove>)>,
    screen_changes: u32,
    bar_updates: Vec<(SpaceId, Vec<GroupBar>)>,
    shown: Vec<(SpaceId, Option<LayoutId>, Vec<WindowId>, bool)>,
    finished: Vec<(WindowId, u64)>,
    timeouts: Vec<u64>,
    metrics: Vec<u32>,
    printed: Vec<(Vec<(SpaceId, LayoutId)>, Vec<WindowId>)>,
    saved: Vec<(Vec<(SpaceId, LayoutId)>, Vec<WindowId>)>,
    saves: bool,
    exits: Vec<i32>,
    converters: Vec<(Vec<Option<SpaceId>>, Converter)>,
    configs: Vec<ConfigId>,
}

struct Host(Shared);

fn to_real(x: f64) -> Real {
    Real(x.to_bits())
}

fn num(r: Real) -> f64 {
    f64::from_bits(r.0)
}

fn rect_f(x: f64, y: f64, w: f64, h: f64) -> Frame {
    Frame {
        origin: Point { x: to_real(x), y: to_real(y) },
        size: Size { width: to_real(w), height: to_real(h) },
    }
}

fn rect(x: i32, y: i32, w: i32, h: i32) -> Frame {
    rect_f(x as f64, y as f64, w as f64, h as f64)
}

fn point(x: f64, y: f64) -> Point {
    Point { x: to_real(x), y: to_real(y) }
}

fn is_forward(direction: Direction) -> bool {
    direction == Direction::Right || direction == Direction::Down
}

fn runs_along(shape: Shape, direction: Direction) -> bool {
    match direction {
        Direction::Left | Direction::Right => shape == Shape::Row || shape == Shape::Tabs,
        Direction::Up | Direction::Down => shape == Shape::Column || shape == Shape::Stack,
    }
}

fn shape_of(kind: ContainerKind) -> Shape {
    match kind {
        ContainerKind::Vertical => Shape::Column,
        ContainerKind::Tabbed => Shape::Tabs,
        ContainerKind::Other(0) => Shape::Row,
        ContainerKind::Other(_) => Shape::Stack,
    }
}

fn kind_of(shape: Shape) -> ContainerKind {
    match shape {
        Shape::Row => ContainerKind::Other(0),
        Shape::Column => ContainerKind::Vertical,
        Shape::Tabs => ContainerKind::Tabbed,
        Shape::Stack => ContainerKind::Other(1),
    }
}

impl World {
    fn shared() -> Shared {
        Rc::new(RefCell::new(World::default()))
    }

    fn new_node(&mut self, layout: u64, shape: Shape, window: Option<WindowId>) -> u64 {
        self.next += 1;
        self.nodes.insert(
            self.next,
            Node {
                layout,
                parent: None,
                children: vec![],
                shape,
                ungrouped: shape,
                weight: 1.0,
                selected: None,
                window,
                fullscreen: false,
            },
        );
        self.next
    }

    fn new_sheet(&mut self, scroll: bool) -> u64 {
        self.next += 1;
        let id = self.next;
        let root = self.new_node(id, Shape::Row, None);
        self.sheets.insert(id, Sheet { root, selection: root, scroll });
        id
    }

    fn copy_node(&mut self, node: u64, layout: u64, names: &mut BTreeMap<u64, u64>) -> u64 {
        let mut copy = self.nodes[&node].clone();
        self.next += 1;
        let id = self.next;
        names.insert(node, id);
        copy.layout = layout;
        let children = copy.children.clone();
        copy.children = vec![];
        self.nodes.insert(id, copy);
        for child in children {
            let c = self.copy_node(child, layout, names);
            self.nodes.get_mut(&c).unwrap().parent = Some(id);
            self.nodes.get_mut(&id).unwrap().children.push(c);
        }
        let selected = self.nodes[&id].selected.and_then(|s| names.get(&s).copied());
        self.nodes.get_mut(&id).unwrap().selected = selected;
        id
    }

    fn copy_sheet(&mut self, layout: u64) -> u64 {
        let old = self.sheets[&layout].clone();
        self.next += 1;
        let id = self.next;
        let mut names = BTreeMap::new();
        let root = self.copy_node(old.root, id, &mut names);
        self.sheets.insert(
            id,
            Sheet { root, selection: names[&old.selection], scroll: old.scroll },
        );
        id
    }

    fn leaves(&self, node: u64, out: &mut Vec<u64>) {
        if self.nodes[&node].window.is_some() {
            out.push(node);
        }
        for &child in &self.nodes[&node].children {
            self.leaves(child, out);
        }
    }

    fn nodes_under(&self, node: u64, first: bool, out: &mut Vec<NodeId>) {
        if first {
            out.push(NodeId(node));
        }
        for child in &self.nodes[&node].children {
            self.nodes_under(*child, first, out);
        }
        if !first {
            out.push(NodeId(node));
        }
    }

    fn windows(&self, node: u64) -> Vec<WindowId> {
        let mut out = vec![];
        self.leaves(node, &mut out);
        out.iter().map(|n| self.nodes[n].window.unwrap()).collect()
    }

    fn visible(&self, node: u64, out: &mut Vec<WindowId>) {
        let n = &self.nodes[&node];
        out.extend(n.window);
        let chosen = n.selected.or(n.children.first().copied());
        if n.shape == Shape::Tabs || n.shape == Shape::Stack {
            if let Some(child) = chosen {
                self.visible(child, out);
            }
            return;
        }
        for &child in n.children.iter().filter(|c| Some(**c) != n.selected) {
            self.visible(child, out);
        }
        if let Some(child) = n.selected {
            self.visible(child, out);
        }
    }

    fn node_of(&self, layout: u64, wid: WindowId) -> Option<u64> {
        let root = self.sheets.get(&layout)?.root;
        let mut out = vec![];
        self.leaves(root, &mut out);
        out.into_iter().find(|n| self.nodes[n].window == Some(wid))
    }

    fn do_select(&mut self, node: u64) {
        let layout = self.nodes[&node].layout;
        self.sheets.get_mut(&layout).unwrap().selection = node;
        let mut at = node;
        while let Some(parent) = self.nodes[&at].parent {
            self.nodes.get_mut(&parent).unwrap().selected = Some(at);
            at = parent;
        }
    }

    fn holds(&self, outer: u64, inner: u64) -> bool {
        let mut at = Some(inner);
        while let Some(node) = at {
            if node == outer {
                return true;
            }
            at = self.nodes[&node].parent;
        }
        false
    }

    /// Takes a node out of its container and drops containers that this empties.
    fn detach(&mut self, node: u64) {
        let Some(parent) = self.nodes[&node].parent else { return };
        let at = self.nodes[&parent].children.iter().position(|c| *c == node).unwrap();
        let p = self.nodes.get_mut(&parent).unwrap();
        p.children.remove(at);
        let next = p.children.get(at).or(p.children.last()).copied();
        if p.selected == Some(node) {
            p.selected = next;
        }
        self.nodes.get_mut(&node).unwrap().parent = None;
        let layout = self.nodes[&parent].layout;
        if self.holds(node, self.sheets[&layout].selection) {
            let mut at = next.unwrap_or(parent);
            while let Some(child) = self.nodes[&at].selected.or(self.nodes[&at].children.first().copied()) {
                at = child;
            }
            self.sheets.get_mut(&layout).unwrap().selection = at;
        }
        if self.nodes[&parent].children.is_empty() && self.nodes[&parent].parent.is_some() {
            self.detach(parent);
            self.nodes.remove(&parent);
        }
    }

    fn set_layout(&mut self, node: u64, layout: u64) {
        self.nodes.get_mut(&node).unwrap().layout = layout;
        for child in self.nodes[&node].children.clone() {
            self.set_layout(child, layout);
        }
    }

    fn attach(&mut self, node: u64, parent: u64, at: usize) {
        let layout = self.nodes[&parent].layout;
        self.nodes.get_mut(&parent).unwrap().children.insert(at, node);
        let n = self.nodes.get_mut(&node).unwrap();
        n.parent = Some(parent);
        n.weight = 1.0;
        self.set_layout(node, layout);
    }

    fn place_of(&self, node: u64) -> usize {
        let parent = self.nodes[&node].parent.unwrap();
        self.nodes[&parent].children.iter().position(|c| *c == node).unwrap()
    }

    fn put_after(&mut self, target: u64, node: u64) {
        match self.nodes[&target].parent {
            Some(parent) => {
                let at = self.place_of(target) + 1;
                self.attach(node, parent, at);
            }
            None => {
                let at = self.nodes[&target].children.len();
                self.attach(node, target, at);
            }
        }
    }

    fn sibling(&self, node: u64, direction: Direction) -> Option<u64> {
        let parent = self.nodes[&node].parent?;
        if !runs_along(self.nodes[&parent].shape, direction) {
            return None;
        }
        let at = self.place_of(node);
        if is_forward(direction) {
            self.nodes[&parent].children.get(at + 1).copied()
        } else if at > 0 {
            Some(self.nodes[&parent].children[at - 1])
        } else {
            None
        }
    }

    fn walk(&self, node: u64, direction: Direction) -> Option<u64> {
        let mut at = node;
        loop {
            if let Some(mut found) = self.sibling(at, direction) {
                while let Some(child) =
                    self.nodes[&found].selected.or(self.nodes[&found].children.first().copied())
                {
                    found = child;
                }
                return Some(found);
            }
            at = self.nodes[&at].parent?;
        }
    }

    fn do_move(&mut self, layout: u64, node: u64, direction: Direction) -> bool {
        let forward = is_forward(direction);
        if let Some(target) = self.walk(node, direction) {
            let same = self.nodes[&target].parent == self.nodes[&node].parent;
            self.detach(node);
            let parent = self.nodes[&target].parent.unwrap();
            let at = self.place_of(target);
            self.attach(node, parent, if same == forward { at + 1 } else { at });
            self.do_select(node);
            return true;
        }
        // Out of the container, within one further up.
        let mut at = node;
        while let Some(parent) = self.nodes[&at].parent {
            if at != node && runs_along(self.nodes[&parent].shape, direction) {
                self.detach(node);
                let place = self.place_of(at);
                self.attach(node, parent, if forward { place + 1 } else { place });
                self.do_select(node);
                return true;
            }
            at = parent;
        }
        let root = self.sheets[&layout].root;
        if root == node || runs_along(self.nodes[&root].shape, direction) {
            return false;
        }
        let shape = match direction {
            Direction::Left | Direction::Right => Shape::Row,
            Direction::Up | Direction::Down => Shape::Column,
        };
        self.detach(node);
        let top = self.new_node(layout, shape, None);
        self.sheets.get_mut(&layout).unwrap().root = top;
        self.attach(node, top, 0);
        if self.nodes[&root].children.is_empty() {
            self.nodes.remove(&root);
        } else {
            self.attach(root, top, if forward { 0 } else { 1 });
        }
        self.do_select(node);
        true
    }

    fn frames(&self, node: u64, frame: Frame, screen: Frame, out: &mut Vec<(WindowId, Frame)>) {
        let n = &self.nodes[&node];
        let frame = if n.fullscreen { screen } else { frame };
        if let Some(wid) = n.window {
            out.push((wid, frame));
        }
        let total: f64 = n.children.iter().map(|c| self.nodes[c].weight).sum();
        let (x, y) = (num(frame.origin.x), num(frame.origin.y));
        let (w, h) = (num(frame.size.width), num(frame.size.height));
        let tidy = |v: f64| (v * 1e6).round() / 1e6;
        let mut done = 0.0;
        for child in &n.children {
            let weight = self.nodes[child].weight;
            let part = match n.shape {
                Shape::Row => {
                    rect_f(tidy(x + w * done / total), y, tidy(w * weight / total), h)
                }
                Shape::Column => {
                    rect_f(x, tidy(y + h * done / total), w, tidy(h * weight / total))
                }
                Shape::Tabs | Shape::Stack => frame,
            };
            done += weight;
            self.frames(*child, part, screen, out);
        }
    }

    fn column_frames(&self, layout: u64, screen: Frame) -> Vec<(WindowId, Frame)> {
        let root = self.sheets[&layout].root;
        let mut out = vec![];
        if !self.sheets[&layout].scroll {
            self.frames(root, screen, screen, &mut out);
            return out;
        }
        let (x, y) = (num(screen.origin.x), num(screen.origin.y));
        let (w, h) = (num(screen.size.width), num(screen.size.height));
        let mut left = x;
        for column in &self.nodes[&root].children {
            let wide = w * self.nodes[column].weight;
            self.frames(*column, rect_f(left, y, wide, h), screen, &mut out);
            left += wide;
        }
        out
    }

    fn group_bars(&self, node: u64, out: &mut Vec<GroupBar>) {
        let n = &self.nodes[&node];
        if n.shape == Shape::Tabs || n.shape == Shape::Stack {
            out.push(GroupBar { bar: node, is_on_top: true, indicator_frame: rect(1, 2, 3, 4) });
        }
        for child in &n.children {
            self.group_bars(*child, out);
        }
    }

    fn do_resize(&mut self, node: u64, ratio: f64, direction: Direction) -> bool {
        let mut at = node;
        loop {
            if let Some(other) = self.sibling(at, direction) {
                let parent = self.nodes[&at].parent.unwrap();
                let total: f64 =
                    self.nodes[&parent].children.iter().map(|c| self.nodes[c].weight).sum();
                let delta = ratio * total;
                self.nodes.get_mut(&at).unwrap().weight += delta;
                self.nodes.get_mut(&other).unwrap().weight -= delta;
                return true;
            }
            match self.nodes[&at].parent {
                Some(parent) => at = parent,
                None => {
                    let scroll = self.sheets[&self.nodes[&node].layout].scroll;
                    if scroll && self.nodes[&node].parent == Some(at) {
                        self.nodes.get_mut(&node).unwrap().weight += ratio;
                        return true;
                    }
                    return false;
                }
            }
        }
    }
}

fn inside(frame: Frame, p: Point) -> bool {
    let (x, y) = (num(p.x), num(p.y));
    let (fx, fy) = (num(frame.origin.x), num(frame.origin.y));
    x >= fx && x < fx + num(frame.size.width) && y >= fy && y < fy + num(frame.size.height)
}

fn shared_part(a: Frame, b: Frame) -> Frame {
    let left = num(a.origin.x).max(num(b.origin.x));
    let top = num(a.origin.y).max(num(b.origin.y));
    let right = (num(a.origin.x) + num(a.size.width)).min(num(b.origin.x) + num(b.size.width));
    let bottom = (num(a.origin.y) + num(a.size.height)).min(num(b.origin.y) + num(b.size.height));
    rect_f(left, top, (right - left).max(0.0), (bottom - top).max(0.0))
}

impl Host {
    fn open_space(&mut self, space: SpaceId, size: Size, kind: LayoutKind) -> LayoutId {
        let mut w = self.0.borrow_mut();
        let id = w.new_sheet(kind == LayoutKind::Scroll);
        let size = (size.width.0, size.height.0);
        w.desks.insert(space.0, Desk { size, active: id, kept: vec![], layouts: vec![id] });
        LayoutId(id)
    }

    fn activate_size(&mut self, space: SpaceId, size: Size) -> LayoutId {
        let mut w = self.0.borrow_mut();
        let desk = w.desks.get_mut(&space.0).unwrap();
        desk.size = (size.width.0, size.height.0);
        if let Some((_, layout)) = desk.kept.iter().find(|k| k.0 == desk.size) {
            desk.active = *layout;
        }
        LayoutId(desk.active)
    }

    fn prepare_modify(&mut self, space: SpaceId) -> LayoutId {
        let mut w = self.0.borrow_mut();
        let desk = w.desks[&space.0].clone();
        if desk.kept.contains(&(desk.size, desk.active)) {
            return LayoutId(desk.active);
        }
        let mut active = desk.active;
        if desk.kept.iter().any(|k| k.1 == active) {
            active = w.copy_sheet(active);
        }
        let desk = w.desks.get_mut(&space.0).unwrap();
        if !desk.layouts.contains(&active) {
            desk.layouts.push(active);
        }
        desk.active = active;
        let size = desk.size;
        desk.kept.retain(|k| k.0 != size);
        desk.kept.push((size, active));
        LayoutId(active)
    }

    fn replace_active_layout(&mut self, space: SpaceId, layout: LayoutId) -> LayoutId {
        let mut w = self.0.borrow_mut();
        let desk = w.desks.get_mut(&space.0).unwrap();
        let old = desk.active;
        for id in desk.layouts.iter_mut().filter(|id| **id == old) {
            *id = layout.0;
        }
        for kept in desk.kept.iter_mut().filter(|k| k.1 == old) {
            kept.1 = layout.0;
        }
        desk.active = layout.0;
        layout
    }

    fn select_layout(&mut self, space: SpaceId, layout: LayoutId) -> LayoutId {
        self.0.borrow_mut().desks.get_mut(&space.0).unwrap().active = layout.0;
        layout
    }

    fn layouts(&mut self, space: SpaceId) -> Vec<LayoutId> {
        self.0.borrow().desks[&space.0].layouts.iter().map(|id| LayoutId(*id)).collect()
    }

    fn active_layout_index(&mut self, space: SpaceId) -> u16 {
        let w = self.0.borrow();
        let desk = &w.desks[&space.0];
        desk.layouts.iter().position(|id| *id == desk.active).unwrap_or(0) as u16
    }

    fn is_scroll_layout(&mut self, layout: LayoutId) -> bool {
        self.0.borrow().sheets[&layout.0].scroll
    }

    fn layout_kind(&mut self, layout: LayoutId) -> LayoutKind {
        if self.0.borrow().sheets[&layout.0].scroll {
            LayoutKind::Scroll
        } else {
            LayoutKind::Tree
        }
    }

    fn root(&mut self, layout: LayoutId) -> NodeId {
        NodeId(self.0.borrow().sheets[&layout.0].root)
    }

    fn selection(&mut self, layout: LayoutId) -> NodeId {
        NodeId(self.0.borrow().sheets[&layout.0].selection)
    }

    fn parent(&mut self, node: NodeId) -> Option<NodeId> {
        self.0.borrow().nodes[&node.0].parent.map(NodeId)
    }

    fn window_at(&mut self, node: NodeId) -> Option<WindowId> {
        self.0.borrow().nodes[&node.0].window
    }

    fn window_node(&mut self, layout: LayoutId, wid: WindowId) -> Option<NodeId> {
        self.0.borrow().node_of(layout.0, wid).map(NodeId)
    }

    fn traverse_postorder(&mut self, node: NodeId) -> Vec<NodeId> {
        let mut out = vec![];
        self.0.borrow().nodes_under(node.0, false, &mut out);
        out
    }

    fn traverse_preorder(&mut self, node: NodeId) -> Vec<NodeId> {
        let mut out = vec![];
        self.0.borrow().nodes_under(node.0, true, &mut out);
        out
    }

    fn visible_windows_under(&mut self, node: NodeId) -> Vec<WindowId> {
        let mut out = vec![];
        self.0.borrow().visible(node.0, &mut out);
        out
    }

    fn is_visible(&mut self, node: NodeId) -> bool {
        let w = self.0.borrow();
        let root = w.sheets[&w.nodes[&node.0].layout].root;
        let mut out = vec![];
        w.visible(root, &mut out);
        w.nodes[&node.0].window.is_some_and(|wid| out.contains(&wid))
    }

    fn is_fullscreen(&mut self, node: NodeId) -> bool {
        self.0.borrow().nodes[&node.0].fullscreen
    }

    fn container_kind(&mut self, node: NodeId) -> ContainerKind {
        kind_of(self.0.borrow().nodes[&node.0].shape)
    }

    fn last_ungrouped_container_kind(&mut self, node: NodeId) -> ContainerKind {
        kind_of(self.0.borrow().nodes[&node.0].ungrouped)
    }

    fn is_group_kind(&mut self, kind: ContainerKind) -> bool {
        matches!(shape_of(kind), Shape::Tabs | Shape::Stack)
    }

    fn split_kind(&mut self, orientation: Orientation) -> ContainerKind {
        match orientation {
            Orientation::Horizontal => kind_of(Shape::Row),
            Orientation::Vertical => kind_of(Shape::Column),
        }
    }

    fn group_kind(&mut self, orientation: Orientation) -> ContainerKind {
        match orientation {
            Orientation::Horizontal => kind_of(Shape::Tabs),
            Orientation::Vertical => kind_of(Shape::Stack),
        }
    }

    fn traverse(&mut self, node: NodeId, direction: Direction) -> Option<NodeId> {
        self.0.borrow().walk(node.0, direction).map(NodeId)
    }

    fn traverse_scroll_wrapping(
        &mut self,
        layout: LayoutId,
        node: NodeId,
        direction: Direction,
    ) -> Option<NodeId> {
        let w = self.0.borrow();
        if let Some(found) = w.walk(node.0, direction) {
            return Some(NodeId(found));
        }
        let mut out = vec![];
        w.leaves(w.sheets[&layout.0].root, &mut out);
        if is_forward(direction) { out.first() } else { out.last() }.map(|n| NodeId(*n))
    }

    fn focus_next(&mut self, layout: LayoutId, node: NodeId) -> Option<NodeId> {
        let w = self.0.borrow();
        let mut out = vec![];
        w.leaves(w.sheets[&layout.0].root, &mut out);
        let at = out.iter().position(|n| *n == node.0)?;
        Some(NodeId(out[(at + 1) % out.len()]))
    }

    fn focus_prev(&mut self, layout: LayoutId, node: NodeId) -> Option<NodeId> {
        let w = self.0.borrow();
        let mut out = vec![];
        w.leaves(w.sheets[&layout.0].root, &mut out);
        let at = out.iter().position(|n| *n == node.0)?;
        Some(NodeId(out[(at + out.len() - 1) % out.len()]))
    }

    fn column_of(&mut self, layout: LayoutId, node: NodeId) -> Option<NodeId> {
        let w = self.0.borrow();
        let root = w.sheets[&layout.0].root;
        w.nodes[&root].children.iter().find(|c| w.holds(**c, node.0)).map(|c| NodeId(*c))
    }

    fn columns(&mut self, layout: LayoutId) -> Vec<NodeId> {
        let w = self.0.borrow();
        let root = w.sheets[&layout.0].root;
        w.nodes[&root].children.iter().map(|c| NodeId(*c)).collect()
    }

    fn proportion(&mut self, node: NodeId) -> Option<Real> {
        Some(to_real(self.0.borrow().nodes[&node.0].weight))
    }

    fn calculate_layout(
        &mut self,
        layout: LayoutId,
        screen: Frame,
        config: ConfigId,
    ) -> Vec<(WindowId, Frame)> {
        self.0.borrow_mut().configs.push(config);
        self.0.borrow().column_frames(layout.0, screen)
    }

    fn calculate_layout_and_groups(
        &mut self,
        layout: LayoutId,
        screen: Frame,
        config: ConfigId,
    ) -> (Vec<(WindowId, Frame)>, Vec<GroupBar>) {
        self.0.borrow_mut().configs.push(config);
        let w = self.0.borrow();
        let mut bars = vec![];
        w.group_bars(w.sheets[&layout.0].root, &mut bars);
        (w.column_frames(layout.0, screen), bars)
    }

    fn create_layout(&mut self) -> LayoutId {
        LayoutId(self.0.borrow_mut().new_sheet(false))
    }

    fn create_scroll_layout(&mut self) -> LayoutId {
        LayoutId(self.0.borrow_mut().new_sheet(true))
    }

    fn select(&mut self, node: NodeId) {
        self.0.borrow_mut().do_select(node.0);
    }

    fn select_returning_surfaced_windows(&mut self, node: NodeId) -> Vec<WindowId> {
        let mut w = self.0.borrow_mut();
        let parent = w.nodes[&node.0].parent;
        let hidden = parent.is_some_and(|p| {
            matches!(w.nodes[&p].shape, Shape::Tabs | Shape::Stack)
                && w.nodes[&p].selected != Some(node.0)
        });
        w.do_select(node.0);
        if hidden { w.windows(node.0) } else { vec![] }
    }

    fn ascend_selection(&mut self, layout: LayoutId) {
        let mut w = self.0.borrow_mut();
        let at = w.sheets[&layout.0].selection;
        if let Some(parent) = w.nodes[&at].parent {
            w.sheets.get_mut(&layout.0).unwrap().selection = parent;
        }
    }

    fn descend_selection(&mut self, layout: LayoutId) {
        let mut w = self.0.borrow_mut();
        let at = w.sheets[&layout.0].selection;
        if let Some(child) = w.nodes[&at].selected {
            w.sheets.get_mut(&layout.0).unwrap().selection = child;
        }
    }

    fn add_window_after(&mut self, layout: LayoutId, node: NodeId, wid: WindowId) -> NodeId {
        let mut w = self.0.borrow_mut();
        let new = w.new_node(layout.0, Shape::Row, Some(wid));
        w.put_after(node.0, new);
        NodeId(new)
    }

    fn add_window_to_scroll_column(
        &mut self,
        layout: LayoutId,
        wid: WindowId,
        new_column: bool,
        visible_columns: u32,
    ) {
        let mut w = self.0.borrow_mut();
        let root = w.sheets[&layout.0].root;
        let last = w.nodes[&root].children.last().copied();
        let column = match last {
            Some(column) if !new_column => column,
            _ => {
                let column = w.new_node(layout.0, Shape::Column, None);
                let at = w.nodes[&root].children.len();
                w.attach(column, root, at);
                w.nodes.get_mut(&column).unwrap().weight = 1.0 / visible_columns.max(1) as f64;
                column
            }
        };
        let new = w.new_node(layout.0, Shape::Row, Some(wid));
        let at = w.nodes[&column].children.len();
        w.attach(new, column, at);
    }

    fn remove_window(&mut self, wid: WindowId) {
        let mut w = self.0.borrow_mut();
        let ids: Vec<u64> = w.nodes.keys().copied().collect();
        for id in ids {
            if w.nodes.get(&id).is_some_and(|n| n.window == Some(wid)) {
                w.detach(id);
                w.nodes.remove(&id);
            }
        }
    }

    fn set_windows_for_app(&mut self, layout: LayoutId, pid: i32, wids: &Vec<WindowId>) {
        let mut w = self.0.borrow_mut();
        let root = w.sheets[&layout.0].root;
        let mut out = vec![];
        w.leaves(root, &mut out);
        for node in out {
            let wid = w.nodes[&node].window.unwrap();
            if wid.pid == pid && !wids.contains(&wid) {
                w.detach(node);
                w.nodes.remove(&node);
            }
        }
        for wid in wids {
            if w.node_of(layout.0, *wid).is_none() {
                let new = w.new_node(layout.0, Shape::Row, Some(*wid));
                let at = w.nodes[&root].children.len();
                w.attach(new, root, at);
            }
        }
    }

    fn retain_apps(&mut self, pids: &Vec<i32>) {
        let mut w = self.0.borrow_mut();
        let ids: Vec<u64> = w.nodes.keys().copied().collect();
        for id in ids {
            if w.nodes.get(&id).and_then(|n| n.window).is_some_and(|wid| !pids.contains(&wid.pid)) {
                w.detach(id);
                w.nodes.remove(&id);
            }
        }
    }

    fn remove_windows_for_app(&mut self, pid: i32) {
        let mut w = self.0.borrow_mut();
        let ids: Vec<u64> = w.nodes.keys().copied().collect();
        for id in ids {
            if w.nodes.get(&id).and_then(|n| n.window).is_some_and(|wid| wid.pid == pid) {
                w.detach(id);
                w.nodes.remove(&id);
            }
        }
    }

    fn move_node(&mut self, layout: LayoutId, node: NodeId, direction: Direction) -> bool {
        self.0.borrow_mut().do_move(layout.0, node.0, direction)
    }

    fn move_node_after(&mut self, target: NodeId, node: NodeId) {
        let mut w = self.0.borrow_mut();
        let layout = w.nodes[&node.0].layout;
        let selected = w.sheets[&layout].selection == node.0;
        w.detach(node.0);
        w.put_after(target.0, node.0);
        if selected {
            w.do_select(node.0);
        }
    }

    fn nest_in_container(&mut self, layout: LayoutId, node: NodeId, kind: ContainerKind) {
        let mut w = self.0.borrow_mut();
        let new = w.new_node(layout.0, shape_of(kind), None);
        match w.nodes[&node.0].parent {
            Some(parent) => {
                let at = w.place_of(node.0);
                let weight = w.nodes[&node.0].weight;
                w.nodes.get_mut(&parent).unwrap().children[at] = new;
                let n = w.nodes.get_mut(&new).unwrap();
                n.parent = Some(parent);
                n.weight = weight;
            }
            None => w.sheets.get_mut(&layout.0).unwrap().root = new,
        }
        w.attach(node.0, new, 0);
        w.do_select(node.0);
    }

    fn set_container_kind(&mut self, node: NodeId, kind: ContainerKind) {
        let mut w = self.0.borrow_mut();
        let n = w.nodes.get_mut(&node.0).unwrap();
        n.shape = shape_of(kind);
        if matches!(n.shape, Shape::Row | Shape::Column) {
            n.ungrouped = n.shape;
        }
    }

    fn set_fullscreen(&mut self, node: NodeId, fullscreen: bool) {
        self.0.borrow_mut().nodes.get_mut(&node.0).unwrap().fullscreen = fullscreen;
    }

    fn toggle_fullscreen(&mut self, node: NodeId) -> bool {
        let mut w = self.0.borrow_mut();
        let n = w.nodes.get_mut(&node.0).unwrap();
        n.fullscreen = !n.fullscreen;
        n.fullscreen
    }

    fn resize(&mut self, node: NodeId, ratio: Real, direction: Direction) -> bool {
        let mut w = self.0.borrow_mut();
        w.asked.push(format!("resize {} {:?}", num(ratio), direction));
        w.do_resize(node.0, num(ratio), direction)
    }

    fn set_frame_from_resize(&mut self, node: NodeId, old: Frame, new: Frame, screen: Frame) {
        let left = num(old.origin.x) - num(new.origin.x);
        let top = num(old.origin.y) - num(new.origin.y);
        let right = num(new.size.width) - num(old.size.width) - left;
        let bottom = num(new.size.height) - num(old.size.height) - top;
        let mut w = self.0.borrow_mut();
        let (width, height) = (num(screen.size.width), num(screen.size.height));
        for (by, of, direction) in [
            (left, width, Direction::Left),
            (right, width, Direction::Right),
            (top, height, Direction::Up),
            (bottom, height, Direction::Down),
        ] {
            if by != 0.0 {
                w.do_resize(node.0, by / of, direction);
            }
        }
    }

    fn swap_windows(&mut self, a: NodeId, b: NodeId) {
        let mut w = self.0.borrow_mut();
        let (wa, wb) = (w.nodes[&a.0].window, w.nodes[&b.0].window);
        w.nodes.get_mut(&a.0).unwrap().window = wb;
        w.nodes.get_mut(&b.0).unwrap().window = wa;
    }

    fn open_viewport(&mut self, layout: LayoutId, width: Real) {
        self.0.borrow_mut().views.insert(
            layout.0,
            View {
                user_scrolling: false,
                width: num(width),
                offset: 0.0,
                gathered: 0.0,
                moving: false,
            },
        );
    }

    fn close_viewport(&mut self, layout: LayoutId) {
        self.0.borrow_mut().views.remove(&layout.0);
    }

    fn is_user_scrolling(&mut self, layout: LayoutId) -> bool {
        self.0.borrow().views[&layout.0].user_scrolling
    }

    fn stop_user_scrolling(&mut self, layout: LayoutId) {
        self.0.borrow_mut().views.get_mut(&layout.0).unwrap().user_scrolling = false;
    }

    fn set_screen_width(&mut self, layout: LayoutId, width: Real) {
        self.0.borrow_mut().views.get_mut(&layout.0).unwrap().width = num(width);
    }

    fn ensure_column_visible(
        &mut self,
        layout: LayoutId,
        column: usize,
        x: Real,
        width: Real,
        _center: CenterMode,
        _gap: Real,
    ) {
        let mut w = self.0.borrow_mut();
        w.asked.push(format!("column {column} at {} of {}", num(x), num(width)));
        let view = w.views.get_mut(&layout.0).unwrap();
        let end = num(x) + num(width);
        let target = if num(x) < view.offset {
            num(x)
        } else if end > view.offset + view.width {
            end - view.width
        } else {
            view.offset
        };
        view.moving = target != view.offset;
        view.offset = target;
    }

    fn accumulate_scroll(&mut self, layout: LayoutId, delta: Real, threshold: Real) -> Option<i32> {
        let mut w = self.0.borrow_mut();
        let view = w.views.get_mut(&layout.0).unwrap();
        view.user_scrolling = true;
        view.gathered += num(delta);
        let steps = (view.gathered / num(threshold)) as i32;
        view.gathered -= steps as f64 * num(threshold);
        if steps == 0 { None } else { Some(steps) }
    }

    fn is_animating(&mut self, layout: LayoutId) -> bool {
        self.0.borrow().views[&layout.0].moving
    }

    fn tick(&mut self, layout: LayoutId) {
        self.0.borrow_mut().views.get_mut(&layout.0).unwrap().moving = false;
    }

    fn apply_viewport(
        &mut self,
        layout: LayoutId,
        _screen: Frame,
        frames: &Vec<(WindowId, Frame)>,
    ) -> Vec<(WindowId, Frame)> {
        frames.iter().map(|(wid, frame)| (*wid, self.offset_rect(layout, *frame))).collect()
    }

    fn offset_rect(&mut self, layout: LayoutId, frame: Frame) -> Frame {
        let by = self.0.borrow().views[&layout.0].offset;
        let mut moved = frame;
        moved.origin.x = to_real(num(frame.origin.x) - by);
        moved
    }

    fn is_in_view(&mut self, layout: LayoutId, frame: Frame) -> bool {
        let w = self.0.borrow();
        let view = &w.views[&layout.0];
        let x = num(frame.origin.x) - view.offset;
        x + num(frame.size.width) > 0.0 && x < view.width
    }

    fn contains_size(&mut self, outer: Size, inner: Size) -> bool {
        num(inner.width) <= num(outer.width) && num(inner.height) <= num(outer.height)
    }

    fn contains_point(&mut self, frame: Frame, point: Point) -> bool {
        inside(frame, point)
    }

    fn same_frame(&mut self, a: Frame, b: Frame) -> bool {
        num(a.origin.x) == num(b.origin.x)
            && num(a.origin.y) == num(b.origin.y)
            && self.same_size(a.size, b.size)
    }

    fn binary(&mut self, op: Binary, a: Real, b: Real) -> Real {
        let (a, b) = (num(a), num(b));
        to_real(match op {
            Binary::Add => a + b,
            Binary::Subtract => a - b,
            Binary::Multiply => a * b,
            Binary::Divide => a / b,
            Binary::Max => a.max(b),
        })
    }

    fn unary(&mut self, op: Unary, a: Real) -> Real {
        let a = num(a);
        to_real(match op {
            Unary::Negate => -a,
            Unary::Abs => a.abs(),
            Unary::Signum => a.signum(),
            Unary::Fract => a.fract(),
            Unary::Sqrt => a.sqrt(),
        })
    }

    fn less(&mut self, a: Real, b: Real) -> bool {
        num(a) < num(b)
    }

    fn equal(&mut self, a: Real, b: Real) -> bool {
        num(a) == num(b)
    }
}

impl Host {
    fn same_size(&mut self, a: Size, b: Size) -> bool {
        num(a.width) == num(b.width) && num(a.height) == num(b.height)
    }

    fn looks_same(&mut self, a: Frame, b: Frame) -> bool {
        let near = |a: Real, b: Real| (num(a) - num(b)).abs() < 0.1;
        near(a.origin.x, b.origin.x)
            && near(a.origin.y, b.origin.y)
            && near(a.size.width, b.size.width)
            && near(a.size.height, b.size.height)
    }

    fn intersection(&mut self, a: Frame, b: Frame) -> Frame {
        shared_part(a, b)
    }

    fn overlap_area(&mut self, a: Frame, b: Frame) -> i64 {
        let part = shared_part(a, b);
        (num(part.size.width) * num(part.size.height)) as i64
    }

    fn middle(&mut self, frame: Frame) -> Point {
        point(
            num(frame.origin.x) + num(frame.size.width) / 2.0,
            num(frame.origin.y) + num(frame.size.height) / 2.0,
        )
    }

    fn round_to_physical(&mut self, frame: Frame, scale: Real) -> Frame {
        let s = num(scale);
        let round = |x: f64| (x * s).round() / s;
        let (x, y) = (num(frame.origin.x), num(frame.origin.y));
        let (left, top) = (round(x), round(y));
        let right = round(x + num(frame.size.width));
        let bottom = round(y + num(frame.size.height));
        rect_f(left, top, right - left, bottom - top)
    }

    fn terminate_app(&mut self, handle: AppHandle) {
        self.0.borrow_mut().requests.push(Request::Terminate(handle.0 as i32));
    }

    fn get_visible_windows(&mut self, handle: AppHandle) {
        self.0.borrow_mut().requests.push(Request::GetVisibleWindows(handle.0 as i32));
    }

    fn raise(&mut self, request: &RaiseRequest) {
        self.0.borrow_mut().raises.push((
            request.raise_windows.clone(),
            request.focus_window,
            request.app_handles.clone(),
        ));
    }

    fn raise_completed(&mut self, wid: WindowId, sequence_id: u64) {
        self.0.borrow_mut().finished.push((wid, sequence_id));
    }

    fn raise_timed_out(&mut self, sequence_id: u64) {
        self.0.borrow_mut().timeouts.push(sequence_id);
    }

    fn screen_parameters_changed(&mut self, spaces: &Vec<Option<SpaceId>>, converter: Converter) {
        self.0.borrow_mut().converters.push((spaces.clone(), converter));
    }

    fn groups_updated(&mut self, space: SpaceId, groups: &Vec<GroupBar>) {
        self.0.borrow_mut().bar_updates.push((space, groups.clone()));
    }

    fn focused_screen_changed(&mut self) {
        self.0.borrow_mut().screen_changes += 1;
    }

    fn animate(&mut self, mode: AnimationMode, moves: &Vec<WindowMove>) -> bool {
        let mut w = self.0.borrow_mut();
        if w.animates {
            w.animations.push((mode, moves.clone()));
        }
        w.animates
    }

    fn jump_to_end(&mut self, moves: &Vec<WindowMove>) {
        let mut w = self.0.borrow_mut();
        for m in moves {
            w.requests.push(Request::SetFrame(m.wid, m.to, m.txid));
        }
    }

    fn run_metrics_command(&mut self, command: u32) {
        self.0.borrow_mut().metrics.push(command);
    }

    fn show_layout(&mut self, shown: &Shown) {
        self.0.borrow_mut().shown.push((
            shown.space,
            shown.layout,
            shown.floating.clone(),
            shown.print,
        ));
    }

    fn print_layouts(&mut self, saved: &SavedLayout) {
        self.0.borrow_mut().printed.push((saved.spaces.clone(), saved.floating_windows.clone()));
    }

    fn save_layouts(&mut self, saved: &SavedLayout) -> bool {
        let mut w = self.0.borrow_mut();
        w.saved.push((saved.spaces.clone(), saved.floating_windows.clone()));
        w.saves
    }

    fn exit(&mut self, status: i32) {
        self.0.borrow_mut().exits.push(status);
    }
}

impl LayoutHost for Host {
    fn layout(&mut self, request: LayoutRequest) -> LayoutId {
        match request {
            LayoutRequest::OpenSpace { space, size, kind } => self.open_space(space, size, kind),
            LayoutRequest::ActivateSize { space, size } => self.activate_size(space, size),
            LayoutRequest::PrepareModify { space } => self.prepare_modify(space),
            LayoutRequest::ReplaceActiveLayout { space, layout } => {
                self.replace_active_layout(space, layout)
            }
            LayoutRequest::SelectLayout { space, layout } => self.select_layout(space, layout),
            LayoutRequest::CreateLayout => self.create_layout(),
            LayoutRequest::CreateScrollLayout => self.create_scroll_layout(),
        }
    }

    fn layouts(&mut self, request: LayoutsRequest) -> Vec<LayoutId> {
        match request {
            LayoutsRequest::Layouts { space } => self.layouts(space),
        }
    }

    fn index(&mut self, request: IndexRequest) -> u16 {
        match request {
            IndexRequest::ActiveLayoutIndex { space } => self.active_layout_index(space),
        }
    }

    fn flag(&mut self, request: FlagRequest) -> bool {
        match request {
            FlagRequest::IsScrollLayout { layout } => self.is_scroll_layout(layout),
            FlagRequest::IsVisible { node } => self.is_visible(node),
            FlagRequest::IsFullscreen { node } => self.is_fullscreen(node),
            FlagRequest::IsGroupKind { kind } => self.is_group_kind(kind),
            FlagRequest::MoveNode { layout, node, direction } => {
                self.move_node(layout, node, direction)
            }
            FlagRequest::ToggleFullscreen { node } => self.toggle_fullscreen(node),
            FlagRequest::Resize { node, ratio, direction } => self.resize(node, ratio, direction),
            FlagRequest::IsUserScrolling { layout } => self.is_user_scrolling(layout),
            FlagRequest::IsAnimating { layout } => self.is_animating(layout),
            FlagRequest::IsInView { layout, frame } => self.is_in_view(layout, frame),
            FlagRequest::ContainsSize { outer, inner } => self.contains_size(outer, inner),
            FlagRequest::ContainsPoint { frame, point } => self.contains_point(frame, point),
            FlagRequest::SameFrame { frame, other } => self.same_frame(frame, other),
            FlagRequest::Less { a, b } => self.less(a, b),
            FlagRequest::Equal { a, b } => self.equal(a, b),
        }
    }

    fn kind(&mut self, request: KindRequest) -> LayoutKind {
        match request {
            KindRequest::LayoutKind { layout } => self.layout_kind(layout),
        }
    }

    fn node(&mut self, request: NodeRequest) -> NodeId {
        match request {
            NodeRequest::Root { layout } => self.root(layout),
            NodeRequest::Selection { layout } => self.selection(layout),
            NodeRequest::AddWindowAfter { layout, node, wid } => {
                self.add_window_after(layout, node, wid)
            }
        }
    }

    fn find_node(&mut self, request: NodeSearch) -> Option<NodeId> {
        match request {
            NodeSearch::Parent { node } => self.parent(node),
            NodeSearch::WindowNode { layout, wid } => self.window_node(layout, wid),
            NodeSearch::Traverse { node, direction } => self.traverse(node, direction),
            NodeSearch::TraverseScrollWrapping { layout, node, direction } => {
                self.traverse_scroll_wrapping(layout, node, direction)
            }
            NodeSearch::FocusNext { layout, node } => self.focus_next(layout, node),
            NodeSearch::FocusPrev { layout, node } => self.focus_prev(layout, node),
            NodeSearch::ColumnOf { layout, node } => self.column_of(layout, node),
        }
    }

    fn find_window(&mut self, request: WindowSearch) -> Option<WindowId> {
        match request {
            WindowSearch::WindowAt { node } => self.window_at(node),
        }
    }

    fn nodes(&mut self, request: NodesRequest) -> Vec<NodeId> {
        match request {
            NodesRequest::TraversePostorder { node } => self.traverse_postorder(node),
            NodesRequest::TraversePreorder { node } => self.traverse_preorder(node),
            NodesRequest::Columns { layout } => self.columns(layout),
        }
    }

    fn windows(&mut self, request: WindowsRequest) -> Vec<WindowId> {
        match request {
            WindowsRequest::VisibleWindowsUnder { node } => self.visible_windows_under(node),
            WindowsRequest::SelectReturningSurfacedWindows { node } => {
                self.select_returning_surfaced_windows(node)
            }
        }
    }

    fn container(&mut self, request: ContainerRequest) -> ContainerKind {
        match request {
            ContainerRequest::ContainerKind { node } => self.container_kind(node),
            ContainerRequest::LastUngroupedContainerKind { node } => {
                self.last_ungrouped_container_kind(node)
            }
            ContainerRequest::SplitKind { orientation } => self.split_kind(orientation),
            ContainerRequest::GroupKind { orientation } => self.group_kind(orientation),
        }
    }

    fn find_number(&mut self, request: NumberSearch) -> Option<Real> {
        match request {
            NumberSearch::Proportion { node } => self.proportion(node),
        }
    }

    fn frames(&mut self, request: FramesRequest<'_>) -> Vec<(WindowId, Frame)> {
        match request {
            FramesRequest::CalculateLayout { layout, screen, config } => {
                self.calculate_layout(layout, screen, config)
            }
            FramesRequest::ApplyViewport { layout, screen, frames } => {
                self.apply_viewport(layout, screen, frames)
            }
        }
    }

    fn frames_and_groups(&mut self, request: GroupsRequest) -> (Vec<(WindowId, Frame)>, Vec<GroupBar>) {
        match request {
            GroupsRequest::CalculateLayoutAndGroups { layout, screen, config } => {
                self.calculate_layout_and_groups(layout, screen, config)
            }
        }
    }

    fn carry_out(&mut self, order: TreeOrder<'_>) {
        match order {
            TreeOrder::Select { node } => self.select(node),
            TreeOrder::AscendSelection { layout } => self.ascend_selection(layout),
            TreeOrder::DescendSelection { layout } => self.descend_selection(layout),
            TreeOrder::AddWindowToScrollColumn { layout, wid, new_column, visible_columns } => {
                self.add_window_to_scroll_column(layout, wid, new_column, visible_columns)
            }
            TreeOrder::RemoveWindow { wid } => self.remove_window(wid),
            TreeOrder::SetWindowsForApp { layout, pid, wids } => {
                self.set_windows_for_app(layout, pid, wids)
            }
            TreeOrder::RetainApps { pids } => self.retain_apps(pids),
            TreeOrder::RemoveWindowsForApp { pid } => self.remove_windows_for_app(pid),
            TreeOrder::MoveNodeAfter { target, node } => self.move_node_after(target, node),
            TreeOrder::NestInContainer { layout, node, kind } => {
                self.nest_in_container(layout, node, kind)
            }
            TreeOrder::SetContainerKind { node, kind } => self.set_container_kind(node, kind),
            TreeOrder::SetFullscreen { node, fullscreen } => self.set_fullscreen(node, fullscreen),
            TreeOrder::SetFrameFromResize { node, old_frame, new_frame, screen } => {
                self.set_frame_from_resize(node, old_frame, new_frame, screen)
            }
            TreeOrder::SwapWindows { a, b } => self.swap_windows(a, b),
            TreeOrder::OpenViewport { layout, width } => self.open_viewport(layout, width),
            TreeOrder::CloseViewport { layout } => self.close_viewport(layout),
            TreeOrder::StopUserScrolling { layout } => self.stop_user_scrolling(layout),
            TreeOrder::SetScreenWidth { layout, width } => self.set_screen_width(layout, width),
            TreeOrder::EnsureColumnVisible { layout, column, x, width, center, gap } => {
                self.ensure_column_visible(layout, column, x, width, center, gap)
            }
            TreeOrder::Tick { layout } => self.tick(layout),
        }
    }

    fn steps(&mut self, request: StepsRequest) -> Option<i32> {
        match request {
            StepsRequest::AccumulateScroll { layout, delta, threshold } => {
                self.accumulate_scroll(layout, delta, threshold)
            }
        }
    }

    fn frame(&mut self, request: FrameRequest) -> Frame {
        match request {
            FrameRequest::OffsetRect { layout, frame } => self.offset_rect(layout, frame),
        }
    }

    fn number(&mut self, request: NumberRequest) -> Real {
        match request {
            NumberRequest::Binary { op, a, b } => self.binary(op, a, b),
            NumberRequest::Unary { function, a } => self.unary(function, a),
        }
    }
}

impl ReactorHost for Host {
    fn check(&mut self, request: CheckRequest<'_>) -> bool {
        match request {
            CheckRequest::SameSize { size, other } => self.same_size(size, other),
            CheckRequest::LooksSame { a, b } => self.looks_same(a, b),
            CheckRequest::Animate { mode, moves } => self.animate(mode, moves),
            CheckRequest::SaveLayouts { saved } => self.save_layouts(saved),
        }
    }

    fn shape(&mut self, request: ShapeRequest) -> Frame {
        match request {
            ShapeRequest::Intersection { a, b } => self.intersection(a, b),
            ShapeRequest::RoundToPhysical { frame, scale } => self.round_to_physical(frame, scale),
        }
    }

    fn area(&mut self, request: AreaRequest) -> i64 {
        match request {
            AreaRequest::OverlapArea { a, b } => self.overlap_area(a, b),
        }
    }

    fn place(&mut self, request: PlaceRequest) -> Point {
        match request {
            PlaceRequest::Middle { frame } => self.middle(frame),
        }
    }

    fn send(&mut self, message: Message<'_>) {
        match message {
            Message::TerminateApp { handle } => self.terminate_app(handle),
            Message::GetVisibleWindows { handle } => self.get_visible_windows(handle),
            Message::Raise { request } => self.raise(request),
            Message::RaiseCompleted { wid, sequence_id } => self.raise_completed(wid, sequence_id),
            Message::RaiseTimedOut { sequence_id } => self.raise_timed_out(sequence_id),
            Message::ScreenParametersChanged { spaces, converter } => {
                self.screen_parameters_changed(spaces, converter)
            }
            Message::GroupsUpdated { space, groups } => self.groups_updated(space, groups),
            Message::FocusedScreenChanged => self.focused_screen_changed(),
            Message::JumpToEnd { moves } => self.jump_to_end(moves),
            Message::RunMetricsCommand { command } => self.run_metrics_command(command),
            Message::ShowLayout { shown } => self.show_layout(shown),
            Message::PrintLayouts { saved } => self.print_layouts(saved),
            Message::Exit { status } => self.exit(status),
        }
    }
}

// The layout manager.

fn scroll_config(enable: bool) -> ScrollConfig {
    ScrollConfig {
        enable,
        visible_columns: 2,
        new_window_in_column: NewWindowPlacement::NewColumn,
        infinite_loop: false,
        column_width_presets: vec![to_real(0.25), to_real(0.5), to_real(0.75)],
        center_focused_column: CenterMode(0),
        invert_scroll_direction: false,
        scroll_sensitivity: to_real(1.0),
    }
}

fn config_with_scroll(enable: bool, default_layout_kind: LayoutKind) -> Config {
    Config {
        id: ConfigId(7),
        scroll: scroll_config(enable),
        valid_scroll: scroll_config(enable),
        default_layout_kind,
        inner_gap: to_real(0.0),
        mouse_follows_focus: false,
        animate: false,
    }
}

fn default_config() -> Config {
    config_with_scroll(false, LayoutKind::Tree)
}

struct Manager {
    mgr: LayoutManager,
    link: Link<Host>,
    world: Shared,
}

impl Manager {
    fn new() -> Manager {
        let world = World::shared();
        Manager {
            mgr: LayoutManager::new(scroll_config(false)),
            link: Link::new(Host(world.clone())),
            world,
        }
    }

    fn set_config(&mut self, config: &Config) {
        self.mgr.set_config(&mut self.link, config);
    }

    fn handle_event(&mut self, event: LayoutEvent) -> EventResponse {
        self.mgr.handle_event(&mut self.link, event)
    }

    fn handle_command(
        &mut self,
        space: Option<SpaceId>,
        visible: &[SpaceId],
        command: LayoutCommand,
    ) -> EventResponse {
        self.mgr.handle_command(&mut self.link, space, visible, command)
    }

    fn calculate_layout(&mut self, space: SpaceId, screen: Frame) -> Vec<(WindowId, Frame)> {
        self.mgr.calculate_layout(&mut self.link, space, screen, &default_config())
    }

    fn layout_sorted(&mut self, space: SpaceId, screen: Frame) -> Vec<(WindowId, Frame)> {
        let mut layout = self.calculate_layout(space, screen);
        layout.sort_by_key(|(wid, _)| *wid);
        layout
    }

    fn active_layout_kind(&mut self, space: SpaceId) -> LayoutKind {
        self.mgr.active_layout_kind(&mut self.link, space)
    }

    fn selected_window(&mut self, space: SpaceId) -> Option<WindowId> {
        self.mgr.selected_window(&mut self.link, space)
    }
}

fn win_info() -> LayoutWindowInfo {
    LayoutWindowInfo {
        bundle_id: None,
        title: None,
        layer: Some(0),
        is_standard: true,
        is_resizable: true,
    }
}

fn layout_windows(pid: i32, num: u32) -> Vec<(WindowId, LayoutWindowInfo)> {
    (1..=num).map(|idx| (WindowId::new(pid, idx), win_info())).collect()
}

#[test]
fn it_maintains_separate_layouts_for_each_screen_size() {
    let mut mgr = Manager::new();
    let space = SpaceId::new(1);
    let pid = 1;

    // Set up the starting layout.
    let screen1 = rect(0, 0, 120, 120);
    _ = mgr.handle_event(SpaceExposed(space, screen1.size));
    _ = mgr.handle_event(WindowsOnScreenUpdated(space, pid, layout_windows(pid, 3)));
    _ = mgr.handle_event(WindowFocused(vec![space], WindowId::new(pid, 1)));
    _ = mgr.handle_command(Some(space), &[space], MoveNode(Direction::Up));
    assert_eq!(
        vec![
            (WindowId::new(pid, 1), rect(0, 0, 120, 60)),
            (WindowId::new(pid, 2), rect(0, 60, 60, 60)),
            (WindowId::new(pid, 3), rect(60, 60, 60, 60)),
        ],
        mgr.layout_sorted(space, screen1),
    );

    // Introduce new screen size.
    let screen2 = rect(0, 0, 1200, 1200);
    _ = mgr.handle_event(SpaceExposed(space, screen2.size));
    _ = mgr.handle_event(WindowsOnScreenUpdated(space, pid, layout_windows(pid, 3)));
    assert_eq!(
        vec![
            (WindowId::new(pid, 1), rect(0, 0, 1200, 600)),
            (WindowId::new(pid, 2), rect(0, 600, 600, 600)),
            (WindowId::new(pid, 3), rect(600, 600, 600, 600)),
        ],
        mgr.layout_sorted(space, screen2),
        "layout was not correctly scaled to new screen size"
    );

    // Change the layout for the second screen size.
    _ = mgr.handle_command(Some(space), &[space], MoveNode(Direction::Down));
    assert_eq!(
        vec![
            (WindowId::new(pid, 1), rect(0, 0, 400, 1200)),
            (WindowId::new(pid, 2), rect(400, 0, 400, 1200)),
            (WindowId::new(pid, 3), rect(800, 0, 400, 1200)),
        ],
        mgr.layout_sorted(space, screen2),
    );

    // Switch back to the first size; the layout should be the same as before.
    _ = mgr.handle_event(SpaceExposed(space, screen1.size));
    _ = mgr.handle_event(WindowsOnScreenUpdated(space, pid, layout_windows(pid, 3)));
    assert_eq!(
        vec![
            (WindowId::new(pid, 1), rect(0, 0, 120, 60)),
            (WindowId::new(pid, 2), rect(0, 60, 60, 60)),
            (WindowId::new(pid, 3), rect(60, 60, 60, 60)),
        ],
        mgr.layout_sorted(space, screen1),
    );

    // Switch back to the second size.
    _ = mgr.handle_event(SpaceExposed(space, screen2.size));
    _ = mgr.handle_event(WindowsOnScreenUpdated(space, pid, layout_windows(pid, 3)));
    assert_eq!(
        vec![
            (WindowId::new(pid, 1), rect(0, 0, 400, 1200)),
            (WindowId::new(pid, 2), rect(400, 0, 400, 1200)),
            (WindowId::new(pid, 3), rect(800, 0, 400, 1200)),
        ],
        mgr.layout_sorted(space, screen2),
    );
}

#[test]
fn it_culls_unmodified_layouts() {
    let mut mgr = Manager::new();
    let space = SpaceId::new(1);
    let pid = 1;

    // Set up the starting layout but do not modify it.
    let screen1 = rect(0, 0, 120, 120);
    _ = mgr.handle_event(SpaceExposed(space, screen1.size));
    _ = mgr.handle_event(WindowsOnScreenUpdated(space, pid, layout_windows(pid, 3)));
    _ = mgr.handle_event(WindowFocused(vec![space], WindowId::new(pid, 1)));
    assert_eq!(
        vec![
            (WindowId::new(pid, 1), rect(0, 0, 40, 120)),
            (WindowId::new(pid, 2), rect(40, 0, 40, 120)),
            (WindowId::new(pid, 3), rect(80, 0, 40, 120)),
        ],
        mgr.layout_sorted(space, screen1),
    );

    // Introduce new screen size.
    let screen2 = rect(0, 0, 1200, 1200);
    _ = mgr.handle_event(SpaceExposed(space, screen2.size));
    _ = mgr.handle_event(WindowsOnScreenUpdated(space, pid, layout_windows(pid, 3)));
    _ = mgr.handle_event(WindowFocused(vec![space], WindowId::new(pid, 1)));
    assert_eq!(
        vec![
            (WindowId::new(pid, 1), rect(0, 0, 400, 1200)),
            (WindowId::new(pid, 2), rect(400, 0, 400, 1200)),
            (WindowId::new(pid, 3), rect(800, 0, 400, 1200)),
        ],
        mgr.layout_sorted(space, screen2),
        "layout was not correctly scaled to new screen size"
    );

    // Change the layout for the second screen size.
    _ = mgr.handle_command(Some(space), &[space], MoveNode(Direction::Up));
    assert_eq!(
        vec![
            (WindowId::new(pid, 1), rect(0, 0, 1200, 600)),
            (WindowId::new(pid, 2), rect(0, 600, 600, 600)),
            (WindowId::new(pid, 3), rect(600, 600, 600, 600)),
        ],
        mgr.layout_sorted(space, screen2),
    );

    // Switch back to the first size. We should see a downscaled
    // version of the modified layout.
    _ = mgr.handle_event(SpaceExposed(space, screen1.size));
    _ = mgr.handle_event(WindowsOnScreenUpdated(space, pid, layout_windows(pid, 3)));
    assert_eq!(
        vec![
            (WindowId::new(pid, 1), rect(0, 0, 120, 60)),
            (WindowId::new(pid, 2), rect(0, 60, 60, 60)),
            (WindowId::new(pid, 3), rect(60, 60, 60, 60)),
        ],
        mgr.layout_sorted(space, screen1),
    );

    // Switch to a third size. We should see a scaled version of the same.
    let screen3 = rect(0, 0, 12, 12);
    _ = mgr.handle_event(SpaceExposed(space, screen3.size));
    _ = mgr.handle_event(WindowsOnScreenUpdated(space, pid, layout_windows(pid, 3)));
    assert_eq!(
        vec![
            (WindowId::new(pid, 1), rect(0, 0, 12, 6)),
            (WindowId::new(pid, 2), rect(0, 6, 6, 6)),
            (WindowId::new(pid, 3), rect(6, 6, 6, 6)),
        ],
        mgr.layout_sorted(space, screen3),
    );

    // Modify the layout.
    _ = mgr.handle_command(Some(space), &[space], MoveNode(Direction::Left));
    assert_eq!(
        vec![
            (WindowId::new(pid, 1), rect(0, 0, 6, 12)),
            (WindowId::new(pid, 2), rect(6, 0, 3, 12)),
            (WindowId::new(pid, 3), rect(9, 0, 3, 12)),
        ],
        mgr.layout_sorted(space, screen3),
    );

    // Switch back to the first size. We should see a scaled
    // version of the newly modified layout.
    _ = mgr.handle_event(SpaceExposed(space, screen1.size));
    _ = mgr.handle_event(WindowsOnScreenUpdated(space, pid, layout_windows(pid, 3)));
    assert_eq!(
        vec![
            (WindowId::new(pid, 1), rect(0, 0, 60, 120)),
            (WindowId::new(pid, 2), rect(60, 0, 30, 120)),
            (WindowId::new(pid, 3), rect(90, 0, 30, 120)),
        ],
        mgr.layout_sorted(space, screen1),
    );

    // Modify the layout in the first size.
    _ = mgr.handle_command(Some(space), &[space], MoveNode(Direction::Right));

    // Switch back to the second screen size, then the first, then the
    // second again. Since the layout was modified in the second size, the
    // windows should go back to the way they were laid out then.
    _ = mgr.handle_event(SpaceExposed(space, screen2.size));
    _ = mgr.handle_event(SpaceExposed(space, screen1.size));
    _ = mgr.handle_event(SpaceExposed(space, screen2.size));
    _ = mgr.handle_event(WindowsOnScreenUpdated(space, pid, layout_windows(pid, 3)));
    assert_eq!(
        vec![
            (WindowId::new(pid, 1), rect(0, 0, 1200, 600)),
            (WindowId::new(pid, 2), rect(0, 600, 600, 600)),
            (WindowId::new(pid, 3), rect(600, 600, 600, 600)),
        ],
        mgr.layout_sorted(space, screen2),
    );
}

fn frame_in(sizes: &[(WindowId, Frame)], wid: WindowId) -> Frame {
    sizes.iter().find(|(w, _)| *w == wid).unwrap().1
}

#[test]
fn floating_windows() {
    let mut mgr = Manager::new();
    let space = SpaceId::new(1);
    let pid = 1;

    let screen1 = rect(0, 0, 120, 120);
    _ = mgr.handle_event(SpaceExposed(space, screen1.size));
    _ = mgr.handle_event(WindowsOnScreenUpdated(space, pid, layout_windows(pid, 3)));

    _ = mgr.handle_event(WindowFocused(vec![space], WindowId::new(pid, 2)));
    _ = mgr.handle_event(WindowFocused(vec![space], WindowId::new(pid, 1)));

    // Make the first window float.
    _ = mgr.handle_command(Some(space), &[space], ToggleWindowFloating);
    let sizes = mgr.calculate_layout(space, screen1);
    assert_eq!(frame_in(&sizes, WindowId::new(pid, 2)), rect(0, 0, 60, 120));
    assert_eq!(frame_in(&sizes, WindowId::new(pid, 3)), rect(60, 0, 60, 120));

    // Toggle back to the tiled windows.
    let response = mgr.handle_command(Some(space), &[space], ToggleFocusFloating);
    assert_eq!(
        vec![WindowId::new(pid, 3), WindowId::new(pid, 2)],
        response.raise_windows
    );
    assert_eq!(Some(WindowId::new(pid, 2)), response.focus_window);
    if let Some(focus) = response.focus_window {
        _ = mgr.handle_event(WindowFocused(vec![space], focus));
    }

    // Make the second window float.
    _ = mgr.handle_command(Some(space), &[space], ToggleWindowFloating);
    let sizes = mgr.calculate_layout(space, screen1);
    assert_eq!(frame_in(&sizes, WindowId::new(pid, 3)), rect(0, 0, 120, 120));

    // Toggle back to tiled.
    let response = mgr.handle_command(Some(space), &[space], ToggleFocusFloating);
    assert_eq!(vec![WindowId::new(pid, 3)], response.raise_windows);
    assert_eq!(Some(WindowId::new(pid, 3)), response.focus_window);
    if let Some(focus) = response.focus_window {
        _ = mgr.handle_event(WindowFocused(vec![space], focus));
    }

    // Toggle back to floating.
    let response = mgr.handle_command(Some(space), &[space], ToggleFocusFloating);
    assert_eq!(vec![WindowId::new(pid, 1)], response.raise_windows);
    assert_eq!(Some(WindowId::new(pid, 2)), response.focus_window);
    if let Some(focus) = response.focus_window {
        _ = mgr.handle_event(WindowFocused(vec![space], focus));
    }
}

#[test]
fn floating_windows_space_disabled() {
    let mut mgr = Manager::new();
    let space = SpaceId::new(1);
    let pid = 1;

    _ = mgr.handle_event(WindowFocused(vec![], WindowId::new(pid, 1)));

    // Make the first window float.
    _ = mgr.handle_command(None, &[], ToggleWindowFloating);

    // Enable the space.
    let screen1 = rect(0, 0, 120, 120);
    _ = mgr.handle_event(SpaceExposed(space, screen1.size));
    _ = mgr.handle_event(WindowsOnScreenUpdated(space, pid, layout_windows(pid, 3)));

    let sizes = mgr.calculate_layout(space, screen1);
    assert_eq!(frame_in(&sizes, WindowId::new(pid, 2)), rect(0, 0, 60, 120));
    assert_eq!(frame_in(&sizes, WindowId::new(pid, 3)), rect(60, 0, 60, 120));

    // Toggle back to the tiled windows.
    let response = mgr.handle_command(Some(space), &[space], ToggleFocusFloating);
    let mut raised_windows = response.raise_windows;
    raised_windows.extend(response.focus_window);
    raised_windows.sort();
    assert_eq!(
        vec![WindowId::new(pid, 2), WindowId::new(pid, 3)],
        raised_windows
    );
    if let Some(focus) = response.focus_window {
        _ = mgr.handle_event(WindowFocused(vec![space], focus));
    }

    // Toggle back to floating.
    let response = mgr.handle_command(Some(space), &[space], ToggleFocusFloating);
    assert!(response.raise_windows.is_empty());
    assert_eq!(Some(WindowId::new(pid, 1)), response.focus_window);
    if let Some(focus) = response.focus_window {
        _ = mgr.handle_event(WindowFocused(vec![space], focus));
    }
}

#[test]
fn it_adds_new_windows_behind_selection() {
    let mut mgr = Manager::new();
    let space = SpaceId::new(1);
    let pid = 1;

    let screen1 = rect(0, 0, 300, 30);
    _ = mgr.handle_event(SpaceExposed(space, screen1.size));
    _ = mgr.handle_event(WindowsOnScreenUpdated(space, pid, layout_windows(pid, 5)));
    _ = mgr.handle_event(WindowFocused(vec![space], WindowId::new(pid, 5)));
    _ = mgr.handle_command(Some(space), &[space], ToggleWindowFloating);
    _ = mgr.handle_command(Some(space), &[space], ToggleFocusFloating);
    _ = mgr.handle_event(WindowFocused(vec![space], WindowId::new(pid, 2)));
    _ = mgr.handle_command(Some(space), &[space], Split(Orientation::Vertical));
    _ = mgr.handle_event(WindowFocused(vec![space], WindowId::new(pid, 3)));
    _ = mgr.handle_command(Some(space), &[space], MoveNode(Direction::Left));

    assert_eq!(
        vec![
            (WindowId::new(pid, 1), rect(0, 0, 100, 30)),
            (WindowId::new(pid, 2), rect(100, 0, 100, 15)),
            (WindowId::new(pid, 3), rect(100, 15, 100, 15)),
            (WindowId::new(pid, 4), rect(200, 0, 100, 30)),
        ],
        mgr.layout_sorted(space, screen1),
    );

    // Add a new window when the left window is selected.
    _ = mgr.handle_event(WindowFocused(vec![space], WindowId::new(pid, 1)));
    _ = mgr.handle_event(WindowAdded(space, WindowId::new(pid, 6), win_info()));
    assert_eq!(
        vec![
            (WindowId::new(pid, 1), rect(0, 0, 75, 30)),
            (WindowId::new(pid, 2), rect(150, 0, 75, 15)),
            (WindowId::new(pid, 3), rect(150, 15, 75, 15)),
            (WindowId::new(pid, 4), rect(225, 0, 75, 30)),
            (WindowId::new(pid, 6), rect(75, 0, 75, 30)),
        ],
        mgr.layout_sorted(space, screen1),
    );
    _ = mgr.handle_event(WindowRemoved(WindowId::new(pid, 6)));

    // Add a new window when the top middle is selected.
    _ = mgr.handle_event(WindowFocused(vec![space], WindowId::new(pid, 2)));
    _ = mgr.handle_event(WindowAdded(space, WindowId::new(pid, 6), win_info()));
    let thirds = mgr.layout_sorted(space, screen1);
    assert_eq!(
        vec![
            (WindowId::new(pid, 1), rect(0, 0, 100, 30)),
            (WindowId::new(pid, 2), rect(100, 0, 100, 10)),
            (WindowId::new(pid, 3), rect(100, 20, 100, 10)),
            (WindowId::new(pid, 4), rect(200, 0, 100, 30)),
            (WindowId::new(pid, 6), rect(100, 10, 100, 10)),
        ],
        thirds,
    );
    _ = mgr.handle_event(WindowRemoved(WindowId::new(pid, 6)));

    // Same thing, but unfloat an existing window instead of making a new one.
    _ = mgr.handle_event(WindowFocused(vec![space], WindowId::new(pid, 2)));
    _ = mgr.handle_event(WindowFocused(vec![space], WindowId::new(pid, 5)));
    _ = mgr.handle_command(Some(space), &[space], ToggleWindowFloating);
    assert_eq!(
        vec![
            (WindowId::new(pid, 1), rect(0, 0, 100, 30)),
            (WindowId::new(pid, 2), rect(100, 0, 100, 10)),
            (WindowId::new(pid, 3), rect(100, 20, 100, 10)),
            (WindowId::new(pid, 4), rect(200, 0, 100, 30)),
            (WindowId::new(pid, 5), rect(100, 10, 100, 10)),
        ],
        mgr.layout_sorted(space, screen1),
    );
    _ = mgr.handle_command(Some(space), &[space], ToggleWindowFloating);

    // Add a new window when the bottom middle is selected.
    _ = mgr.handle_event(WindowFocused(vec![space], WindowId::new(pid, 3)));
    _ = mgr.handle_event(WindowAdded(space, WindowId::new(pid, 6), win_info()));
    assert_eq!(
        vec![
            (WindowId::new(pid, 1), rect(0, 0, 100, 30)),
            (WindowId::new(pid, 2), rect(100, 0, 100, 10)),
            (WindowId::new(pid, 3), rect(100, 10, 100, 10)),
            (WindowId::new(pid, 4), rect(200, 0, 100, 30)),
            (WindowId::new(pid, 6), rect(100, 20, 100, 10)),
        ],
        mgr.layout_sorted(space, screen1),
    );
    _ = mgr.handle_event(WindowRemoved(WindowId::new(pid, 6)));

    // Add a new window when the right window is selected.
    _ = mgr.handle_event(WindowFocused(vec![space], WindowId::new(pid, 4)));
    _ = mgr.handle_event(WindowAdded(space, WindowId::new(pid, 6), win_info()));
    assert_eq!(
        vec![
            (WindowId::new(pid, 1), rect(0, 0, 75, 30)),
            (WindowId::new(pid, 2), rect(75, 0, 75, 15)),
            (WindowId::new(pid, 3), rect(75, 15, 75, 15)),
            (WindowId::new(pid, 4), rect(150, 0, 75, 30)),
            (WindowId::new(pid, 6), rect(225, 0, 75, 30)),
        ],
        mgr.layout_sorted(space, screen1),
    );
    _ = mgr.handle_event(WindowRemoved(WindowId::new(pid, 6)));
}

#[test]
fn add_remove_add() {
    let mut mgr = Manager::new();
    let space = SpaceId::new(1);
    let pid = 1;

    let screen1 = rect(0, 0, 300, 30);
    _ = mgr.handle_event(SpaceExposed(space, screen1.size));
    _ = mgr.handle_event(WindowsOnScreenUpdated(space, pid, vec![]));
    _ = mgr.handle_event(WindowAdded(space, WindowId::new(pid, 1), win_info()));
    _ = mgr.handle_event(WindowAdded(space, WindowId::new(pid, 2), win_info()));
    _ = mgr.handle_event(WindowAdded(space, WindowId::new(pid, 3), win_info()));

    assert_eq!(
        vec![
            (WindowId::new(pid, 1), rect(0, 0, 100, 30)),
            (WindowId::new(pid, 2), rect(100, 0, 100, 30)),
            (WindowId::new(pid, 3), rect(200, 0, 100, 30)),
        ],
        mgr.layout_sorted(space, screen1),
    );

    _ = mgr.handle_event(WindowRemoved(WindowId::new(pid, 3)));
    _ = mgr.handle_event(WindowRemoved(WindowId::new(pid, 1)));
    _ = mgr.handle_event(WindowRemoved(WindowId::new(pid, 2)));
    _ = mgr.handle_event(WindowAdded(space, WindowId::new(pid, 1), win_info()));
    _ = mgr.handle_event(WindowAdded(space, WindowId::new(pid, 2), win_info()));
    _ = mgr.handle_event(WindowAdded(space, WindowId::new(pid, 3), win_info()));

    assert_eq!(
        vec![
            (WindowId::new(pid, 1), rect(0, 0, 100, 30)),
            (WindowId::new(pid, 2), rect(100, 0, 100, 30)),
            (WindowId::new(pid, 3), rect(200, 0, 100, 30)),
        ],
        mgr.layout_sorted(space, screen1),
    );
}

#[test]
fn resize_to_full_screen_and_back_preserves_layout() {
    let mut mgr = Manager::new();
    let space = SpaceId::new(1);
    let pid = 1;

    let screen1 = rect(0, 0, 300, 30);
    _ = mgr.handle_event(SpaceExposed(space, screen1.size));
    _ = mgr.handle_event(WindowsOnScreenUpdated(space, pid, vec![]));
    _ = mgr.handle_event(WindowAdded(space, WindowId::new(pid, 1), win_info()));
    _ = mgr.handle_event(WindowAdded(space, WindowId::new(pid, 2), win_info()));
    _ = mgr.handle_event(WindowAdded(space, WindowId::new(pid, 3), win_info()));

    assert_eq!(
        vec![
            (WindowId::new(pid, 1), rect(0, 0, 100, 30)),
            (WindowId::new(pid, 2), rect(100, 0, 100, 30)),
            (WindowId::new(pid, 3), rect(200, 0, 100, 30)),
        ],
        mgr.layout_sorted(space, screen1),
    );

    _ = mgr.handle_event(WindowResized {
        wid: WindowId::new(pid, 2),
        old_frame: rect(100, 0, 100, 30),
        new_frame: screen1,
        screens: vec![(space, screen1)],
    });

    // Check that the other windows aren't resized (especially to zero);
    // otherwise, we will lose the layout state as we receive nonconforming
    // frame changed events.
    assert_eq!(
        vec![
            (WindowId::new(pid, 1), rect(0, 0, 100, 30)),
            (WindowId::new(pid, 2), screen1),
            (WindowId::new(pid, 3), rect(200, 0, 100, 30)),
        ],
        mgr.layout_sorted(space, screen1),
    );

    _ = mgr.handle_event(WindowResized {
        wid: WindowId::new(pid, 2),
        old_frame: screen1,
        new_frame: rect(100, 0, 100, 30),
        screens: vec![(space, screen1)],
    });

    assert_eq!(
        vec![
            (WindowId::new(pid, 1), rect(0, 0, 100, 30)),
            (WindowId::new(pid, 2), rect(100, 0, 100, 30)),
            (WindowId::new(pid, 3), rect(200, 0, 100, 30)),
        ],
        mgr.layout_sorted(space, screen1),
    );
}

#[test]
fn resize_to_system_full_screen_and_back_preserves_layout() {
    let mut mgr = Manager::new();
    let space = SpaceId::new(1);
    let pid = 1;

    let screen1 = rect(0, 10, 300, 20);
    let screen1_full = rect(0, 0, 300, 30);
    _ = mgr.handle_event(SpaceExposed(space, screen1.size));
    _ = mgr.handle_event(WindowsOnScreenUpdated(space, pid, vec![]));
    _ = mgr.handle_event(WindowAdded(space, WindowId::new(pid, 1), win_info()));
    _ = mgr.handle_event(WindowAdded(space, WindowId::new(pid, 2), win_info()));
    _ = mgr.handle_event(WindowAdded(space, WindowId::new(pid, 3), win_info()));

    let orig = vec![
        (WindowId::new(pid, 1), rect(0, 10, 100, 20)),
        (WindowId::new(pid, 2), rect(100, 10, 100, 20)),
        (WindowId::new(pid, 3), rect(200, 10, 100, 20)),
    ];
    assert_eq!(orig, mgr.layout_sorted(space, screen1));

    // Simulate a window going fullscreen on the current space.
    //
    // The leftmost window is better for testing because it passes the
    // "only resize in 2 directions" requirement.
    _ = mgr.handle_event(WindowResized {
        wid: WindowId::new(pid, 1),
        old_frame: rect(0, 10, 100, 20),
        new_frame: screen1_full,
        screens: vec![(space, screen1)],
    });

    _ = mgr.handle_event(WindowResized {
        wid: WindowId::new(pid, 1),
        old_frame: screen1_full,
        new_frame: rect(0, 10, 100, 20),
        screens: vec![(space, screen1)],
    });

    assert_eq!(orig, mgr.layout_sorted(space, screen1));
}

#[test]
fn flip_between_screens() {
    let mut mgr = Manager::new();
    let space1 = SpaceId::new(1);
    let space2 = SpaceId::new(2);
    let pid = 1;

    let screen1 = rect(0, 0, 300, 30);
    let screen2 = rect(300, 0, 300, 30);
    _ = mgr.handle_event(SpaceExposed(space1, screen1.size));
    _ = mgr.handle_event(SpaceExposed(space2, screen2.size));
    _ = mgr.handle_event(WindowsOnScreenUpdated(
        space1,
        pid,
        vec![
            (WindowId::new(pid, 1), win_info()),
            (WindowId::new(pid, 2), win_info()),
        ],
    ));
    _ = mgr.handle_event(WindowsOnScreenUpdated(
        space2,
        pid,
        vec![
            (WindowId::new(pid, 3), win_info()),
            (WindowId::new(pid, 4), win_info()),
        ],
    ));
    _ = mgr.handle_event(WindowFocused(vec![space1, space2], WindowId::new(pid, 3)));
    _ = mgr.handle_event(WindowFocused(vec![space1, space2], WindowId::new(pid, 1)));

    // Test moving focus between screens.
    assert_eq!(
        mgr.handle_command(Some(space1), &[space1, space2], MoveFocus(Direction::Right))
            .focus_window,
        Some(WindowId::new(pid, 2))
    );
    _ = mgr.handle_event(WindowFocused(vec![space1, space2], WindowId::new(pid, 2)));
    assert_eq!(
        mgr.handle_command(Some(space1), &[space1, space2], MoveFocus(Direction::Right))
            .focus_window,
        Some(WindowId::new(pid, 3))
    );
    _ = mgr.handle_event(WindowFocused(vec![space1, space2], WindowId::new(pid, 3)));
    assert_eq!(
        mgr.handle_command(Some(space2), &[space1, space2], MoveFocus(Direction::Left))
            .focus_window,
        Some(WindowId::new(pid, 2))
    );
    _ = mgr.handle_event(WindowFocused(vec![space1, space2], WindowId::new(pid, 3)));

    // Test moving a node between screens.
    _ = mgr.handle_command(Some(space1), &[space1, space2], MoveNode(Direction::Right));
    _ = mgr.mgr.debug_tree(space2);
    assert_eq!(
        vec![(WindowId::new(pid, 1), rect(0, 0, 300, 30)),],
        mgr.layout_sorted(space1, screen1),
    );
    assert_eq!(
        vec![
            // Note that 2 is moved to the right of 3.
            (WindowId::new(pid, 2), rect(400, 0, 100, 30)),
            (WindowId::new(pid, 3), rect(300, 0, 100, 30)),
            (WindowId::new(pid, 4), rect(500, 0, 100, 30)),
        ],
        mgr.layout_sorted(space2, screen2),
    );
    assert_eq!(Some(WindowId::new(pid, 2)), mgr.selected_window(space2));

    // Finally, test moving focus after moving the node.
    assert_eq!(
        mgr.handle_command(Some(space2), &[space1, space2], MoveFocus(Direction::Right))
            .focus_window,
        Some(WindowId::new(pid, 4))
    );
}

#[test]
fn focus_next_prev() {
    let mut mgr = Manager::new();
    let space = SpaceId::new(1);
    let pid = 1;

    let screen = rect(0, 0, 1000, 1000);
    _ = mgr.handle_event(SpaceExposed(space, screen.size));
    _ = mgr.handle_event(WindowsOnScreenUpdated(
        space,
        pid,
        vec![
            (WindowId::new(pid, 1), win_info()),
            (WindowId::new(pid, 2), win_info()),
            (WindowId::new(pid, 3), win_info()),
        ],
    ));
    _ = mgr.handle_event(WindowFocused(vec![space], WindowId::new(pid, 1)));

    // Test FocusNext
    assert_eq!(
        mgr.handle_command(Some(space), &[space], FocusNext).focus_window,
        Some(WindowId::new(pid, 2))
    );
    _ = mgr.handle_event(WindowFocused(vec![space], WindowId::new(pid, 2)));

    assert_eq!(
        mgr.handle_command(Some(space), &[space], FocusNext).focus_window,
        Some(WindowId::new(pid, 3))
    );
    _ = mgr.handle_event(WindowFocused(vec![space], WindowId::new(pid, 3)));

    assert_eq!(
        mgr.handle_command(Some(space), &[space], FocusNext).focus_window,
        Some(WindowId::new(pid, 1))
    ); // wraparound
    _ = mgr.handle_event(WindowFocused(vec![space], WindowId::new(pid, 1)));

    // Test FocusPrev
    assert_eq!(
        mgr.handle_command(Some(space), &[space], FocusPrev).focus_window,
        Some(WindowId::new(pid, 3))
    ); // wraparound
}

#[test]
fn it_resizes_windows_with_resize_command() {
    let mut mgr = Manager::new();
    let space = SpaceId::new(1);
    let pid = 1;

    let screen = rect(0, 0, 100, 100);
    _ = mgr.handle_event(SpaceExposed(space, screen.size));
    _ = mgr.handle_event(WindowsOnScreenUpdated(space, pid, layout_windows(pid, 2)));
    _ = mgr.handle_event(WindowFocused(vec![space], WindowId::new(pid, 1)));

    assert_eq!(
        vec![
            (WindowId::new(pid, 1), rect(0, 0, 50, 100)),
            (WindowId::new(pid, 2), rect(50, 0, 50, 100)),
        ],
        mgr.layout_sorted(space, screen),
    );

    _ = mgr.handle_command(
        Some(space),
        &[space],
        Resize { direction: Direction::Right, percent: to_real(10.0) },
    );
    assert_eq!(
        vec![
            (WindowId::new(pid, 1), rect(0, 0, 60, 100)),
            (WindowId::new(pid, 2), rect(60, 0, 40, 100)),
        ],
        mgr.layout_sorted(space, screen),
    );

    _ = mgr.handle_command(Some(space), &[space], MoveFocus(Direction::Right));
    _ = mgr.handle_command(
        Some(space),
        &[space],
        Resize { direction: Direction::Left, percent: to_real(10.0) },
    );
    assert_eq!(
        vec![
            (WindowId::new(pid, 1), rect(0, 0, 50, 100)),
            (WindowId::new(pid, 2), rect(50, 0, 50, 100)),
        ],
        mgr.layout_sorted(space, screen),
    );
}

#[test]
fn space_exposed_forces_tree_when_scroll_gate_disabled() {
    let mut mgr = Manager::new();
    let config = config_with_scroll(false, LayoutKind::Scroll);
    mgr.set_config(&config);

    let space = SpaceId::new(1);
    _ = mgr.handle_event(SpaceExposed(space, rect(0, 0, 300, 200).size));

    assert_eq!(mgr.active_layout_kind(space), LayoutKind::Tree);
}

#[test]
fn change_layout_kind_noops_when_scroll_gate_disabled() {
    let mut mgr = Manager::new();
    let config = config_with_scroll(false, LayoutKind::Tree);
    mgr.set_config(&config);

    let space = SpaceId::new(1);
    let pid = 1;
    _ = mgr.handle_event(SpaceExposed(space, rect(0, 0, 400, 200).size));
    _ = mgr.handle_event(WindowsOnScreenUpdated(space, pid, layout_windows(pid, 2)));
    _ = mgr.handle_command(Some(space), &[space], ChangeLayoutKind);

    assert_eq!(mgr.active_layout_kind(space), LayoutKind::Tree);
}

#[test]
fn active_scroll_layout_converts_to_tree_when_gate_disabled() {
    let mut mgr = Manager::new();
    let config_on = config_with_scroll(true, LayoutKind::Scroll);
    mgr.set_config(&config_on);

    let space = SpaceId::new(1);
    let pid = 1;
    _ = mgr.handle_event(SpaceExposed(space, rect(0, 0, 500, 300).size));
    _ = mgr.handle_event(WindowsOnScreenUpdated(space, pid, layout_windows(pid, 3)));
    assert_eq!(mgr.active_layout_kind(space), LayoutKind::Scroll);

    let config_off = config_with_scroll(false, LayoutKind::Tree);
    mgr.set_config(&config_off);

    assert_eq!(mgr.active_layout_kind(space), LayoutKind::Tree);
}

#[test]
fn next_layout_skips_scroll_when_gate_disabled() {
    let mut mgr = Manager::new();
    let config_on = config_with_scroll(true, LayoutKind::Scroll);
    mgr.set_config(&config_on);

    let space = SpaceId::new(1);
    let pid = 1;
    _ = mgr.handle_event(SpaceExposed(space, rect(0, 0, 500, 300).size));
    _ = mgr.handle_event(WindowsOnScreenUpdated(space, pid, layout_windows(pid, 3)));
    assert_eq!(mgr.active_layout_kind(space), LayoutKind::Scroll);

    _ = mgr.handle_command(Some(space), &[space], ChangeLayoutKind);
    assert_eq!(mgr.active_layout_kind(space), LayoutKind::Tree);

    let config_off = config_with_scroll(false, LayoutKind::Tree);
    mgr.set_config(&config_off);
    _ = mgr.handle_command(Some(space), &[space], NextLayout);

    assert_eq!(mgr.active_layout_kind(space), LayoutKind::Tree);
}

#[test]
fn scroll_wheel_is_ignored_when_scroll_gate_disabled() {
    let mut mgr = Manager::new();
    let config_on = config_with_scroll(true, LayoutKind::Scroll);
    mgr.set_config(&config_on);

    let space = SpaceId::new(1);
    let screen = rect(0, 0, 900, 600);
    let pid = 1;
    _ = mgr.handle_event(SpaceExposed(space, screen.size));
    _ = mgr.handle_event(WindowsOnScreenUpdated(space, pid, layout_windows(pid, 3)));
    _ = mgr.handle_event(WindowFocused(vec![space], WindowId::new(pid, 1)));
    assert_eq!(mgr.active_layout_kind(space), LayoutKind::Scroll);

    let config_off = config_with_scroll(false, LayoutKind::Tree);
    mgr.set_config(&config_off);
    let response = mgr.mgr.handle_scroll_wheel(
        &mut mgr.link,
        space,
        to_real(-1.0),
        &screen,
        &config_off.scroll,
    );
    assert!(response.raise_windows.is_empty());
    assert!(response.focus_window.is_none());
}

#[test]
fn scroll_only_commands_noop_when_gate_disabled() {
    let mut mgr = Manager::new();
    let config_on = config_with_scroll(true, LayoutKind::Scroll);
    mgr.set_config(&config_on);

    let space = SpaceId::new(1);
    let screen = rect(0, 0, 1000, 600);
    let pid = 1;
    _ = mgr.handle_event(SpaceExposed(space, screen.size));
    _ = mgr.handle_event(WindowsOnScreenUpdated(space, pid, layout_windows(pid, 3)));
    assert_eq!(mgr.active_layout_kind(space), LayoutKind::Scroll);

    let config_off = config_with_scroll(false, LayoutKind::Tree);
    mgr.set_config(&config_off);
    assert_eq!(mgr.active_layout_kind(space), LayoutKind::Tree);

    let before = mgr.layout_sorted(space, screen);
    _ = mgr.handle_command(Some(space), &[space], CycleColumnWidth);
    _ = mgr.handle_command(Some(space), &[space], ToggleColumnTabbed);
    assert_eq!(mgr.active_layout_kind(space), LayoutKind::Tree);
    assert_eq!(mgr.layout_sorted(space, screen), before);
}

#[test]
fn event_response_coalesce_downgrades_extra_focus_to_raise() {
    let response = EventResponse {
        raise_windows: vec![WindowId::new(1, 1)],
        focus_window: Some(WindowId::new(1, 2)),
    }
    .coalesce(EventResponse {
        raise_windows: vec![WindowId::new(1, 3)],
        focus_window: Some(WindowId::new(1, 4)),
    });

    assert_eq!(
        response.raise_windows,
        vec![
            WindowId::new(1, 1),
            WindowId::new(1, 3),
            WindowId::new(1, 4)
        ]
    );
    assert_eq!(response.focus_window, Some(WindowId::new(1, 2)));
}

// The reactor.

#[derive(Default)]
struct Watched {
    is_frontmost: bool,
    main_window: Option<WindowId>,
}

/// Which window is the main one.
#[derive(Default)]
struct Tracker {
    apps: BTreeMap<i32, Watched>,
    frontmost: Option<i32>,
}

impl Tracker {
    fn handle_event(&mut self, event: &Event) -> Option<WindowId> {
        let (pid, quiet) = match event {
            Event::ApplicationLaunched { pid, is_frontmost, main_window, .. } => {
                self.apps.insert(
                    *pid,
                    Watched { is_frontmost: *is_frontmost, main_window: *main_window },
                );
                (*pid, false)
            }
            Event::ApplicationThreadTerminated(pid) => {
                self.apps.remove(pid);
                return None;
            }
            Event::ApplicationActivated(pid, quiet) => {
                self.apps.entry(*pid).or_default().is_frontmost = true;
                (*pid, *quiet == Quiet::Yes)
            }
            Event::ApplicationDeactivated(pid) => {
                self.apps.entry(*pid).or_default().is_frontmost = false;
                return None;
            }
            Event::ApplicationGloballyActivated(pid) => {
                self.frontmost = Some(*pid);
                (*pid, false)
            }
            Event::ApplicationGloballyDeactivated(pid) => {
                if self.frontmost == Some(*pid) {
                    self.frontmost = None;
                }
                return None;
            }
            Event::ApplicationMainWindowChanged(pid, wid, quiet) => {
                self.apps.entry(*pid).or_default().main_window = *wid;
                (*pid, *quiet == Quiet::Yes)
            }
            _ => return None,
        };
        if quiet || self.frontmost != Some(pid) {
            return None;
        }
        self.main_window()
    }

    fn main_window(&self) -> Option<WindowId> {
        let app = self.apps.get(&self.frontmost?)?;
        if app.is_frontmost { app.main_window } else { None }
    }
}

struct Rig {
    reactor: Reactor,
    link: Link<Host>,
    world: Shared,
    tracker: Tracker,
    config: Config,
}

impl Rig {
    fn with(world: Shared, layout: LayoutManager, animate: bool) -> Rig {
        let config = || Config { animate, ..default_config() };
        let mut link = Link::new(Host(world.clone()));
        let reactor = Reactor::new(&mut link, config(), layout);
        Rig { reactor, link, world, tracker: Tracker::default(), config: config() }
    }

    fn new() -> Rig {
        Rig::with(World::shared(), LayoutManager::new(scroll_config(false)), false)
    }

    fn handle_event(&mut self, event: Event) {
        let raised = self.tracker.handle_event(&event);
        let main = self.tracker.main_window();
        self.reactor.handle_event(&mut self.link, event, raised, main);
    }

    fn handle_events(&mut self, events: Vec<Event>) {
        for event in events {
            self.handle_event(event);
        }
    }

    fn requests(&mut self) -> Vec<Request> {
        std::mem::take(&mut self.world.borrow_mut().requests)
    }

    fn calculate_layout(&mut self, space: SpaceId, screen: Frame) -> Vec<(WindowId, Frame)> {
        self.reactor.layout.calculate_layout(&mut self.link, space, screen, &self.config)
    }

    fn windows_in(&mut self, space: SpaceId, screen: Frame) -> Vec<WindowId> {
        self.calculate_layout(space, screen).into_iter().map(|(wid, _)| wid).collect()
    }

    fn expose(&mut self, space: SpaceId, size: Size) -> Vec<WindowId> {
        self.reactor
            .layout
            .handle_event(&mut self.link, LayoutEvent::SpaceExposed(space, size))
            .raise_windows
    }

    fn server_info(&self, wid: &WindowId) -> WindowServerInfo {
        let window = self.reactor.windows.get(*wid).unwrap();
        WindowServerInfo {
            id: window.window_server_id.unwrap(),
            pid: wid.pid,
            layer: 0,
            frame: window.frame_monotonic,
        }
    }

    fn raises(&mut self) -> Vec<(Vec<Vec<WindowId>>, Option<(WindowId, Option<Point>)>, Vec<AppContact>)> {
        std::mem::take(&mut self.world.borrow_mut().raises)
    }
}

fn screens_event(frames: Vec<Frame>, spaces: Vec<Option<SpaceId>>) -> Event {
    Event::ScreenParametersChanged {
        scale_factors: frames.iter().map(|_| to_real(2.0)).collect(),
        frames,
        spaces,
        converter: Converter(0),
    }
}

fn on_screen(info: Vec<WindowServerInfo>) -> WindowsOnScreen {
    WindowsOnScreen { visible: info.iter().map(|i| i.id).collect(), info }
}

#[derive(Clone, Debug, PartialEq)]
struct SimWindow {
    frame: Frame,
    last_seen_txid: TransactionId,
    wsid: WindowServerId,
}

/// The applications, as far as their windows go.
#[derive(Default)]
struct Apps {
    windows: BTreeMap<WindowId, SimWindow>,
}

fn make_window(idx: u32) -> WindowInfo {
    WindowInfo {
        title: Secret::new(format!("Window{idx}")),
        frame: rect_f(100.0 * idx as f64, 100.0, 50.0, 50.0),
        is_standard: true,
        is_resizable: true,
        sys_id: Some(WindowServerId::new(idx)),
    }
}

fn make_windows(count: u32) -> Vec<WindowInfo> {
    (1..=count).map(make_window).collect()
}

impl Apps {
    fn new() -> Apps {
        Apps::default()
    }

    fn make_app(&mut self, pid: i32, windows: Vec<WindowInfo>) -> Vec<Event> {
        self.make_app_with_opts(pid, windows, None, false)
    }

    fn make_app_with_opts(
        &mut self,
        pid: i32,
        windows: Vec<WindowInfo>,
        main_window: Option<WindowId>,
        is_frontmost: bool,
    ) -> Vec<Event> {
        let launch = self.make_app_without_ws_info(pid, windows, main_window, is_frontmost);
        let info = self
            .windows
            .iter()
            .map(|(wid, w)| WindowServerInfo { id: w.wsid, pid: wid.pid, layer: 0, frame: w.frame })
            .collect();
        let mut events =
            vec![Event::WindowsOnScreenUpdated { pid: Some(pid), on_screen: on_screen(info) }];
        events.extend(launch);
        events
    }

    fn make_app_without_ws_info(
        &mut self,
        pid: i32,
        windows: Vec<WindowInfo>,
        main_window: Option<WindowId>,
        is_frontmost: bool,
    ) -> Vec<Event> {
        let mut visible_windows = vec![];
        for (i, mut info) in windows.into_iter().enumerate() {
            let idx = i as u32 + 1;
            let wsid = WindowServerId::new((pid as u32 - 1) * 10000 + idx);
            info.sys_id = Some(wsid);
            let wid = WindowId::new(pid, idx);
            self.windows.insert(
                wid,
                SimWindow { frame: info.frame, last_seen_txid: TransactionId(0), wsid },
            );
            visible_windows.push((wid, info));
        }
        vec![Event::ApplicationLaunched {
            pid,
            info: AppInfo { bundle_id: None },
            handle: AppHandle(pid as u64),
            is_frontmost,
            main_window,
            visible_windows,
        }]
    }

    fn simulate_events_for_requests(&mut self, requests: Vec<Request>) -> Vec<Event> {
        let mut events = vec![];
        for request in requests {
            match request {
                Request::SetFrame(wid, frame, txid) => {
                    let window = self.windows.get_mut(&wid).unwrap();
                    window.frame = frame;
                    window.last_seen_txid = txid;
                    events.push(Event::WindowFrameChanged(wid, frame, txid, Requested(true), None));
                }
                Request::GetVisibleWindows(pid) => events.push(Event::WindowsDiscovered {
                    pid,
                    new: vec![],
                    known_visible: self.windows.keys().copied().filter(|w| w.pid == pid).collect(),
                }),
                Request::Terminate(pid) => events.push(Event::ApplicationThreadTerminated(pid)),
            }
        }
        events
    }

    fn simulate_events(&mut self, rig: &mut Rig) -> Vec<Event> {
        let requests = rig.requests();
        self.simulate_events_for_requests(requests)
    }

    fn simulate_until_quiet(&mut self, rig: &mut Rig) {
        loop {
            let requests = rig.requests();
            if requests.is_empty() {
                return;
            }
            let events = self.simulate_events_for_requests(requests);
            rig.handle_events(events);
        }
    }
}

#[test]
fn it_ignores_stale_resize_events() {
    let mut apps = Apps::new();
    let mut reactor = Rig::new();
    reactor.handle_event(screens_event(vec![rect(0, 0, 1000, 1000)], vec![Some(SpaceId::new(1))]));

    reactor.handle_events(apps.make_app(1, make_windows(2)));
    reactor.handle_event(Event::StartupComplete);
    let requests = reactor.requests();
    assert!(!requests.is_empty());
    let events_1 = apps.simulate_events_for_requests(requests);

    reactor.handle_events(apps.make_app(2, make_windows(2)));
    assert!(!reactor.requests().is_empty());

    for event in events_1 {
        reactor.handle_event(event);
    }
    let requests = reactor.requests();
    assert!(
        requests.is_empty(),
        "got requests when there should have been none: {requests:?}"
    );
}

#[test]
fn it_sends_layout_animation_to_manager() {
    let mut apps = Apps::new();
    let world = World::shared();
    world.borrow_mut().animates = true;
    let mut reactor = Rig::with(world, LayoutManager::new(scroll_config(false)), true);
    reactor.handle_event(screens_event(vec![rect(0, 0, 1000, 1000)], vec![Some(SpaceId::new(1))]));

    reactor.handle_events(apps.make_app(1, make_windows(2)));
    reactor.handle_event(Event::StartupComplete);

    assert!(
        reactor.requests().is_empty(),
        "layout should be handed to the animation manager, not sent directly to app actors"
    );
    assert!(matches!(
        reactor.world.borrow().animations.first(),
        Some((AnimationMode::Replace, _))
    ));
}

#[test]
fn it_sends_writes_when_stale_read_state_looks_same_as_written_state() {
    let mut apps = Apps::new();
    let mut reactor = Rig::new();
    reactor.handle_event(screens_event(vec![rect(0, 0, 1000, 1000)], vec![Some(SpaceId::new(1))]));

    reactor.handle_events(apps.make_app(1, make_windows(2)));
    reactor.handle_event(Event::StartupComplete);
    let events_1 = apps.simulate_events(&mut reactor);
    let state_1 = apps.windows.clone();
    assert!(!state_1.is_empty());

    for event in events_1 {
        reactor.handle_event(event);
    }
    assert!(reactor.requests().is_empty());

    reactor.handle_events(apps.make_app(2, make_windows(1)));
    let _events_2 = apps.simulate_events(&mut reactor);

    reactor.handle_event(Event::WindowDestroyed(WindowId::new(2, 1)));
    let _events_3 = apps.simulate_events(&mut reactor);
    let state_3 = apps.windows;

    // These should be the same, because we should have resized the first
    // two windows both at the beginning, and at the end when the third
    // window was destroyed.
    for (wid, state) in state_1 {
        assert!(state_3.contains_key(&wid), "{wid:?} not in {state_3:#?}");
        assert_eq!(state.frame, state_3[&wid].frame);
    }
}

#[test]
fn sends_writes_same_as_last_written_state_if_changed_externally() {
    let mut apps = Apps::new();
    let mut reactor = Rig::new();
    reactor.handle_event(screens_event(vec![rect(0, 0, 1000, 1000)], vec![Some(SpaceId::new(1))]));

    reactor.handle_events(apps.make_app(1, make_windows(2)));
    reactor.handle_event(Event::StartupComplete);
    let events_1 = apps.simulate_events(&mut reactor);
    let state_1 = apps.windows.clone();
    assert!(!state_1.is_empty());

    for event in events_1 {
        reactor.handle_event(event);
    }
    assert!(reactor.requests().is_empty());

    // Move a window in an invalid way.
    let wid = WindowId::new(1, 1);
    let old_frame = state_1[&wid].frame;
    let mut moved = old_frame;
    moved.origin.y = to_real(num(old_frame.origin.y) + 10.0);
    reactor.handle_event(Event::WindowFrameChanged(
        wid,
        moved,
        state_1[&wid].last_seen_txid,
        Requested(false),
        None,
    ));

    let requests = reactor.requests();
    assert!(!requests.is_empty());
    let _events_2 = apps.simulate_events_for_requests(requests);
    assert_eq!(apps.windows[&wid].frame, old_frame);
}

#[test]
fn it_responds_to_resizes() {
    let mut apps = Apps::new();
    let mut reactor = Rig::new();
    reactor.handle_event(screens_event(vec![rect(0, 0, 1000, 1000)], vec![Some(SpaceId::new(1))]));

    reactor.handle_events(apps.make_app(1, make_windows(3)));
    reactor.handle_event(Event::StartupComplete);

    let events = apps.simulate_events(&mut reactor);
    let windows = apps.windows.clone();
    for event in events {
        reactor.handle_event(event);
    }
    assert!(
        reactor.requests().is_empty(),
        "reactor shouldn't react to unsurprising events"
    );

    // Resize the right edge of the middle window.
    let resizing = WindowId::new(1, 2);
    let window = apps.windows[&resizing].clone();
    let mut frame = window.frame;
    frame.size.width = to_real(num(window.frame.size.width) + 10.0);
    reactor.handle_event(Event::WindowFrameChanged(
        resizing,
        frame,
        window.last_seen_txid,
        Requested(false),
        None,
    ));

    // Expect the next window to be resized.
    let next = WindowId::new(1, 3);
    let old_frame = windows[&next].frame;
    let requests = reactor.requests();
    assert!(!requests.is_empty());
    let _events = apps.simulate_events_for_requests(requests);
    assert_ne!(old_frame, apps.windows[&next].frame);
}

#[test]
fn it_manages_windows_on_enabled_spaces() {
    let mut apps = Apps::new();
    let mut reactor = Rig::new();
    let full_screen = rect(0, 0, 1000, 1000);
    reactor.handle_event(screens_event(vec![full_screen], vec![Some(SpaceId::new(1))]));

    reactor.handle_events(apps.make_app(1, make_windows(1)));
    reactor.handle_event(Event::StartupComplete);

    let _events = apps.simulate_events(&mut reactor);
    assert_eq!(
        full_screen,
        apps.windows.get(&WindowId::new(1, 1)).expect("Window was not resized").frame,
    );
}

fn blank_info(ids: std::ops::RangeInclusive<u32>) -> Vec<WindowServerInfo> {
    ids.map(|id| WindowServerInfo {
        id: WindowServerId::new(id),
        pid: 1,
        layer: 0,
        frame: rect(0, 0, 0, 0),
    })
    .collect()
}

#[test]
fn it_selects_the_main_window_on_space_enable() {
    let mut apps = Apps::new();
    let mut reactor = Rig::new();
    let full_screen = rect(0, 0, 1000, 1000);
    reactor.handle_event(screens_event(vec![full_screen], vec![None]));
    reactor.handle_event(Event::WindowsOnScreenUpdated {
        pid: None,
        on_screen: on_screen(blank_info(1..=2)),
    });

    reactor.handle_events(apps.make_app_with_opts(
        1,
        make_windows(2),
        Some(WindowId::new(1, 1)),
        true,
    ));
    reactor.handle_event(Event::StartupComplete);
    reactor.handle_event(Event::ApplicationGloballyActivated(1));
    let events = apps.simulate_events(&mut reactor);
    reactor.handle_events(events);

    reactor.handle_event(Event::SpaceChanged(
        vec![Some(SpaceId::new(1))],
        on_screen(blank_info(1..=2)),
    ));
    let events = apps.simulate_events(&mut reactor);
    reactor.handle_events(events);
    assert_eq!(
        reactor.reactor.layout.selected_window(&mut reactor.link, SpaceId::new(1)),
        Some(WindowId::new(1, 1))
    );
}

#[test]
fn it_skips_surface_when_top_layer_order_matches() {
    let mut apps = Apps::new();
    let mut reactor = Rig::new();
    let space = SpaceId::new(1);
    reactor.handle_event(screens_event(vec![rect(0, 0, 1000, 1000)], vec![Some(space)]));
    reactor.handle_events(apps.make_app_with_opts(1, make_windows(2), None, false));
    let _events = apps.simulate_events(&mut reactor);
    reactor.raises();

    let desired = reactor.expose(space, rect(0, 0, 1000, 1000).size);
    let info = desired.iter().map(|wid| reactor.server_info(wid)).collect();
    reactor.handle_event(Event::SpaceChanged(vec![Some(space)], on_screen(info)));

    assert!(reactor.raises().is_empty());
}

#[test]
fn it_skips_surface_when_top_layer_windows_are_reordered() {
    let mut apps = Apps::new();
    let mut reactor = Rig::new();
    let space = SpaceId::new(1);
    reactor.handle_event(screens_event(vec![rect(0, 0, 1000, 1000)], vec![Some(space)]));
    reactor.handle_events(apps.make_app_with_opts(1, make_windows(2), None, false));
    let _events = apps.simulate_events(&mut reactor);
    reactor.raises();

    let desired = reactor.expose(space, rect(0, 0, 1000, 1000).size);
    let info = desired.iter().rev().map(|wid| reactor.server_info(wid)).collect();
    reactor.handle_event(Event::SpaceChanged(vec![Some(space)], on_screen(info)));

    assert!(reactor.raises().is_empty());
}

#[test]
fn it_surfaces_top_layer_windows_when_top_managed_set_differs() {
    let mut apps = Apps::new();
    let mut reactor = Rig::new();
    let space = SpaceId::new(1);
    reactor.handle_event(screens_event(vec![rect(0, 0, 1000, 1000)], vec![Some(space)]));
    reactor.handle_events(apps.make_app_with_opts(1, make_windows(2), None, false));
    let _events = apps.simulate_events(&mut reactor);
    reactor.raises();

    let desired = reactor.expose(space, rect(0, 0, 1000, 1000).size);
    let mut info = vec![WindowServerInfo {
        id: WindowServerId::new(90),
        pid: 9,
        layer: 0,
        frame: rect(10, 10, 100, 100),
    }];
    info.extend(desired.iter().map(|wid| reactor.server_info(wid)));
    reactor.handle_event(Event::SpaceChanged(vec![Some(space)], on_screen(info)));

    let (raise_windows, focus_window, _) =
        reactor.raises().into_iter().next().expect("Should have sent an event");
    assert_eq!(raise_windows, vec![desired]);
    assert!(focus_window.is_none());
}

fn known_window(wsid: u32, frame: Frame) -> WindowState {
    WindowState {
        title: Secret::new(String::new()),
        window_server_id: Some(WindowServerId::new(wsid)),
        frame_monotonic: frame,
        is_ax_standard: true,
        is_resizable: true,
        last_sent_txid: TransactionId(0),
    }
}

#[test]
fn filter_response_clears_matching_focus_and_raise_windows() {
    let mut rig = Rig::new();
    rig.reactor.screens = vec![Screen {
        frame: rect(0, 0, 1000, 1000),
        space: Some(SpaceId::new(1)),
        scale_factor: to_real(2.0),
    }];
    let w1 = WindowId::with_wsid(1, WindowServerId::new(1));
    let w2 = WindowId::with_wsid(1, WindowServerId::new(2));
    rig.reactor.windows.insert(w1, known_window(1, rect(0, 0, 500, 1000)));
    rig.reactor.windows.insert(w2, known_window(2, rect(500, 0, 500, 1000)));
    rig.reactor.visible_windows =
        VecSet::from_list(&vec![WindowServerId::new(1), WindowServerId::new(2)]);
    for wid in [w1, w2] {
        let info = rig.server_info(&wid);
        rig.reactor.window_server_info.insert(info.id, info);
    }

    let response = rig.reactor.filter_response(
        &mut rig.link,
        EventResponse { raise_windows: vec![w2], focus_window: Some(w1) },
        &[WindowServerId::new(1), WindowServerId::new(2)],
    );

    assert!(response.raise_windows.is_empty());
    assert!(response.focus_window.is_none());
}

#[test]
fn filter_response_keeps_response_when_focus_is_not_frontmost() {
    let mut rig = Rig::new();
    let w1 = WindowId::with_wsid(1, WindowServerId::new(1));
    let w2 = WindowId::with_wsid(1, WindowServerId::new(2));

    let response = rig.reactor.filter_response(
        &mut rig.link,
        EventResponse { raise_windows: vec![w2], focus_window: Some(w1) },
        &[WindowServerId::new(2), WindowServerId::new(1)],
    );

    assert_eq!(response.raise_windows, vec![w2]);
    assert_eq!(response.focus_window, Some(w1));
}

#[test]
fn it_ignores_unmanaged_and_nonzero_layer_windows_when_comparing_space_order() {
    let mut apps = Apps::new();
    let mut reactor = Rig::new();
    let space = SpaceId::new(1);
    reactor.handle_event(screens_event(vec![rect(0, 0, 1000, 1000)], vec![Some(space)]));
    reactor.handle_events(apps.make_app_with_opts(1, make_windows(2), None, false));
    let _events = apps.simulate_events(&mut reactor);
    reactor.raises();

    let desired = reactor.expose(space, rect(0, 0, 1000, 1000).size);
    let mut info = vec![
        WindowServerInfo {
            id: WindowServerId::new(90),
            pid: 9,
            layer: 3,
            frame: rect(10, 10, 100, 100),
        },
        WindowServerInfo {
            id: WindowServerId::new(91),
            pid: 9,
            layer: 0,
            frame: rect(2000, 10, 100, 100),
        },
    ];
    info.extend(desired.iter().map(|wid| reactor.server_info(wid)));
    reactor.handle_event(Event::SpaceChanged(vec![Some(space)], on_screen(info)));

    assert!(reactor.raises().is_empty());
}

#[test]
fn it_ignores_windows_on_disabled_spaces() {
    let mut apps = Apps::new();
    let mut reactor = Rig::new();
    reactor.handle_event(screens_event(vec![rect(0, 0, 1000, 1000)], vec![None]));

    reactor.handle_events(apps.make_app(1, make_windows(1)));

    let state_before = apps.windows.clone();
    let _events = apps.simulate_events(&mut reactor);
    assert_eq!(state_before, apps.windows, "Window should not have been moved",);

    // Make sure it doesn't choke on destroyed events for ignored windows.
    reactor.handle_event(Event::WindowDestroyed(WindowId::new(1, 1)));
    reactor.handle_event(Event::WindowCreated(
        WindowId::new(1, 2),
        make_window(2),
        MouseState::Up,
    ));
    reactor.handle_event(Event::WindowDestroyed(WindowId::new(1, 2)));
}

#[test]
fn it_keeps_discovered_windows_on_their_initial_screen() {
    let mut apps = Apps::new();
    let mut reactor = Rig::new();
    let screen1 = rect(0, 0, 1000, 1000);
    let screen2 = rect(1000, 0, 1000, 1000);
    reactor.handle_event(screens_event(
        vec![screen1, screen2],
        vec![Some(SpaceId::new(1)), Some(SpaceId::new(2))],
    ));

    let mut windows = make_windows(2);
    windows[1].frame.origin = point(1100.0, 100.0);
    reactor.handle_events(apps.make_app(1, windows));

    let _events = apps.simulate_events(&mut reactor);
    assert_eq!(
        screen1,
        apps.windows.get(&WindowId::new(1, 1)).expect("Window was not resized").frame,
    );
    assert_eq!(
        screen2,
        apps.windows.get(&WindowId::new(1, 2)).expect("Window was not resized").frame,
    );
}

#[test]
fn it_moves_windows_dragged_between_spaces() {
    let mut apps = Apps::new();
    let mut reactor = Rig::new();
    let screen1 = rect(0, 0, 1000, 1000);
    let screen2 = rect(1000, 0, 1000, 1000);
    let space1 = SpaceId::new(1);
    let space2 = SpaceId::new(2);
    reactor.handle_event(screens_event(
        vec![screen1, screen2],
        vec![Some(space1), Some(space2)],
    ));

    // Both windows start on screen1 / space1.
    reactor.handle_events(apps.make_app(1, make_windows(2)));
    reactor.handle_event(Event::StartupComplete);
    let events = apps.simulate_events(&mut reactor);
    reactor.handle_events(events);

    let dragged = WindowId::new(1, 1);
    assert!(reactor.windows_in(space1, screen1).contains(&dragged));
    assert!(reactor.calculate_layout(space2, screen2).is_empty());

    // Drag window 1 onto screen2, keeping its size the same so this is a
    // pure move (not a resize). The mouse button is still down.
    let frame = apps.windows[&dragged].frame;
    let new_frame = Frame { origin: Point { x: to_real(1100.0), y: frame.origin.y }, ..frame };
    reactor.handle_event(Event::WindowFrameChanged(
        dragged,
        new_frame,
        apps.windows[&dragged].last_seen_txid,
        Requested(false),
        Some(MouseState::Down),
    ));

    // The window now belongs to space2's layout and has left space1.
    let space1_windows = reactor.windows_in(space1, screen1);
    let space2_windows = reactor.windows_in(space2, screen2);
    assert!(!space1_windows.contains(&dragged), "{space1_windows:?}");
    assert!(space2_windows.contains(&dragged), "{space2_windows:?}");
    assert!(space1_windows.contains(&WindowId::new(1, 2)));

    // The reactor must not write any frames while the drag is in progress.
    assert!(
        reactor.requests().is_empty(),
        "reactor shouldn't move windows mid-drag"
    );

    // Releasing the mouse re-tiles the window onto screen2.
    reactor.handle_event(Event::MouseUp);
    let requests = reactor.requests();
    assert!(!requests.is_empty(), "release should re-tile the window");
    let events = apps.simulate_events_for_requests(requests);
    for event in events {
        reactor.handle_event(event);
    }
    assert_eq!(screen2, apps.windows[&dragged].frame);
}

#[test]
fn it_keeps_windows_in_space_on_intra_space_drag() {
    let mut apps = Apps::new();
    let mut reactor = Rig::new();
    let screen1 = rect(0, 0, 1000, 1000);
    let screen2 = rect(1000, 0, 1000, 1000);
    let space1 = SpaceId::new(1);
    let space2 = SpaceId::new(2);
    reactor.handle_event(screens_event(
        vec![screen1, screen2],
        vec![Some(space1), Some(space2)],
    ));

    reactor.handle_events(apps.make_app(1, make_windows(2)));
    reactor.handle_event(Event::StartupComplete);
    let events = apps.simulate_events(&mut reactor);
    reactor.handle_events(events);

    // Drag a window to a different position but still on screen1 / space1.
    let dragged = WindowId::new(1, 1);
    let frame = apps.windows[&dragged].frame;
    let new_frame = Frame {
        origin: point(num(frame.origin.x) + 20.0, num(frame.origin.y) + 20.0),
        ..frame
    };
    reactor.handle_event(Event::WindowFrameChanged(
        dragged,
        new_frame,
        apps.windows[&dragged].last_seen_txid,
        Requested(false),
        Some(MouseState::Down),
    ));

    // The window stays on space1 and space2 remains empty.
    assert!(reactor.windows_in(space1, screen1).contains(&dragged));
    assert!(reactor.calculate_layout(space2, screen2).is_empty());

    // No frames are written while the mouse button is still down.
    assert!(
        reactor.requests().is_empty(),
        "reactor shouldn't move windows mid-drag"
    );
}

#[test]
fn it_ignores_windows_on_nonzero_layers() {
    let mut apps = Apps::new();
    let mut reactor = Rig::new();
    let full_screen = rect(0, 0, 1000, 1000);
    reactor.handle_event(screens_event(vec![full_screen], vec![Some(SpaceId::new(1))]));
    reactor.handle_event(Event::WindowsOnScreenUpdated {
        pid: None,
        on_screen: on_screen(vec![WindowServerInfo {
            id: WindowServerId::new(1),
            pid: 1,
            layer: 10,
            frame: rect(0, 0, 0, 0),
        }]),
    });

    reactor.handle_events(apps.make_app_without_ws_info(1, make_windows(1), None, true));

    let state_before = apps.windows.clone();
    let _events = apps.simulate_events(&mut reactor);
    assert_eq!(state_before, apps.windows, "Window should not have been moved",);

    // Make sure it doesn't choke on destroyed events for ignored windows.
    reactor.handle_event(Event::WindowDestroyed(WindowId::new(1, 1)));
    reactor.handle_event(Event::WindowCreated(
        WindowId::new(1, 2),
        make_window(2),
        MouseState::Up,
    ));
    reactor.handle_event(Event::WindowDestroyed(WindowId::new(1, 2)));
}

#[test]
fn handle_layout_response_groups_windows_by_app_and_screen() {
    let mut apps = Apps::new();
    let mut reactor = Rig::new();

    let screen1 = rect(0, 0, 1000, 1000);
    let screen2 = rect(1000, 0, 1000, 1000);
    reactor.handle_event(screens_event(
        vec![screen1, screen2],
        vec![Some(SpaceId::new(1)), Some(SpaceId::new(2))],
    ));

    reactor.handle_events(apps.make_app(1, make_windows(2)));

    let mut windows = make_windows(2);
    windows[1].frame.origin = point(1100.0, 100.0);
    reactor.handle_events(apps.make_app(2, windows));

    let _events = apps.simulate_events(&mut reactor);
    reactor.raises();

    reactor.reactor.handle_layout_response(
        &mut reactor.link,
        EventResponse {
            raise_windows: vec![
                WindowId::new(1, 1),
                WindowId::new(1, 2),
                WindowId::new(2, 1),
                WindowId::new(2, 2),
            ],
            focus_window: None,
        },
    );
    let (raise_windows, focus_window, _) =
        reactor.raises().into_iter().next().expect("Should have sent an event");
    let raise_windows: HashSet<Vec<WindowId>> = raise_windows.into_iter().collect();
    let expected = [
        vec![WindowId::new(1, 1), WindowId::new(1, 2)],
        vec![WindowId::new(2, 1)],
        vec![WindowId::new(2, 2)],
    ]
    .into_iter()
    .collect();
    assert_eq!(raise_windows, expected);
    assert!(focus_window.is_none());
}

#[test]
fn handle_layout_response_includes_handles_for_raise_and_focus_windows() {
    let mut apps = Apps::new();
    let mut reactor = Rig::new();

    reactor.handle_events(apps.make_app(1, make_windows(1)));
    reactor.handle_events(apps.make_app(2, make_windows(1)));

    let _events = apps.simulate_events(&mut reactor);
    reactor.raises();
    reactor.reactor.handle_layout_response(
        &mut reactor.link,
        EventResponse {
            raise_windows: vec![WindowId::new(1, 1)],
            focus_window: Some(WindowId::new(2, 1)),
        },
    );
    let (_, _, app_handles) =
        reactor.raises().into_iter().next().expect("Should have sent an event");
    assert!(app_handles.iter().any(|contact| contact.pid == 1));
    assert!(app_handles.iter().any(|contact| contact.pid == 2));
}

#[test]
fn it_preserves_layout_after_login_screen() {
    let mut apps = Apps::new();
    let mut reactor = Rig::new();
    let space = SpaceId::new(1);
    let full_screen = rect(0, 0, 1000, 1000);
    reactor.handle_event(screens_event(vec![full_screen], vec![Some(space)]));

    reactor.handle_events(apps.make_app_with_opts(
        1,
        make_windows(3),
        Some(WindowId::new(1, 1)),
        true,
    ));
    reactor.handle_event(Event::StartupComplete);
    reactor.handle_event(Event::ApplicationGloballyActivated(1));
    apps.simulate_until_quiet(&mut reactor);
    let default = reactor.calculate_layout(space, full_screen);

    assert!(reactor.reactor.layout.selected_window(&mut reactor.link, space).is_some());
    reactor.handle_event(Event::Command(Command::Layout(LayoutCommand::MoveNode(
        Direction::Up,
    ))));
    apps.simulate_until_quiet(&mut reactor);
    let modified = reactor.calculate_layout(space, full_screen);
    assert_ne!(default, modified);

    reactor.handle_event(screens_event(vec![rect(0, 0, 0, 0)], vec![None]));
    reactor.handle_event(screens_event(vec![full_screen], vec![Some(space)]));
    reactor.handle_event(Event::WindowsOnScreenUpdated {
        pid: None,
        on_screen: on_screen(blank_info(1..=3)),
    });
    let requests = reactor.requests();
    for request in requests {
        match request {
            Request::GetVisibleWindows(_) => {
                // Simulate the login screen condition: No windows are
                // considered visible by the accessibility API, but they are
                // from the window server API in the event above.
                reactor.handle_event(Event::WindowsDiscovered {
                    pid: 1,
                    new: vec![],
                    known_visible: vec![],
                });
            }
            req => {
                let events = apps.simulate_events_for_requests(vec![req]);
                for event in events {
                    reactor.handle_event(event);
                }
            }
        }
    }
    apps.simulate_until_quiet(&mut reactor);

    assert_eq!(reactor.calculate_layout(space, full_screen), modified);
}

#[test]
fn it_fixes_window_sizes_after_screen_config_changes() {
    let mut apps = Apps::new();
    let mut reactor = Rig::new();
    let full_screen = rect(0, 0, 1000, 1000);
    reactor.handle_event(screens_event(vec![full_screen], vec![Some(SpaceId::new(1))]));

    reactor.handle_events(apps.make_app(1, make_windows(1)));
    reactor.handle_event(Event::StartupComplete);

    let _events = apps.simulate_events(&mut reactor);
    assert_eq!(
        full_screen,
        apps.windows.get(&WindowId::new(1, 1)).expect("Window was not resized").frame,
    );

    // Simulate the system resizing a window after it recognizes an old
    // configurations. Resize events are not sent in this case.
    reactor.handle_event(screens_event(
        vec![full_screen, rect(1000, 0, 1000, 1000)],
        vec![Some(SpaceId::new(1)), None],
    ));
    reactor.handle_event(Event::WindowsOnScreenUpdated {
        pid: None,
        on_screen: on_screen(vec![WindowServerInfo {
            id: WindowServerId::new(1),
            pid: 1,
            layer: 0,
            frame: rect(500, 0, 500, 500),
        }]),
    });

    let _events = apps.simulate_events(&mut reactor);
    assert_eq!(
        full_screen,
        apps.windows.get(&WindowId::new(1, 1)).expect("Window was not resized").frame,
    );
}

#[test]
fn it_doesnt_crash_after_main_window_closes() {
    let mut apps = Apps::new();
    let mut reactor = Rig::new();
    let space = SpaceId::new(1);
    reactor.handle_event(screens_event(vec![rect(0, 0, 0, 0)], vec![Some(space)]));
    assert_eq!(None, reactor.reactor.main_window());

    reactor.handle_event(Event::ApplicationGloballyActivated(1));
    reactor.handle_events(apps.make_app_with_opts(
        1,
        make_windows(2),
        Some(WindowId::new(1, 1)),
        true,
    ));

    reactor.handle_event(Event::WindowDestroyed(WindowId::new(1, 1)));
    reactor.handle_event(Event::Command(Command::Layout(LayoutCommand::MoveFocus(
        Direction::Left,
    ))));
}

#[test]
fn it_removes_terminated_app_windows_on_startup_complete() {
    let mut apps = Apps::new();
    let space = SpaceId::new(1);
    let full_screen = rect(0, 0, 1000, 1000);

    // First reactor: simulate the state before shutdown with three apps running
    let mut reactor1 = Rig::new();
    reactor1.handle_event(screens_event(vec![full_screen], vec![Some(space)]));
    reactor1.handle_events(apps.make_app(1, make_windows(2)));
    reactor1.handle_events(apps.make_app(2, make_windows(2)));
    reactor1.handle_events(apps.make_app(3, make_windows(1)));
    apps.simulate_until_quiet(&mut reactor1);

    // Verify all 5 windows are in the layout
    let layout_before = reactor1.calculate_layout(space, full_screen);
    assert_eq!(layout_before.len(), 5, "Expected 5 windows before shutdown");

    // Save the layout to simulate saving state before shutdown
    let saved = reactor1.reactor.layout.saved();
    let kept_world = Rc::new(RefCell::new(reactor1.world.borrow().clone()));

    // Second reactor: simulate restore after reboot, where app 2 was terminated
    // and doesn't launch again
    let restored_layout = LayoutManager::restore(saved, scroll_config(false));
    let mut apps2 = Apps::new();
    let mut reactor2 = Rig::with(kept_world, restored_layout, false);
    reactor2.handle_event(screens_event(vec![full_screen], vec![Some(space)]));
    // Only apps 1 and 3 launch during restore (app 2 was terminated between save and restore)
    reactor2.handle_events(apps2.make_app(1, make_windows(2)));
    reactor2.handle_events(apps2.make_app(3, make_windows(1)));
    apps2.simulate_until_quiet(&mut reactor2);

    // Before StartupComplete, the layout still contains ghost nodes for app 2's windows
    let layout_before_cleanup = reactor2.calculate_layout(space, full_screen);
    assert_eq!(layout_before_cleanup.len(), 5);

    // Send StartupComplete to trigger cleanup of terminated app windows
    reactor2.handle_event(Event::StartupComplete);

    // After StartupComplete, verify that windows from terminated app 2 are removed
    // but windows from running apps 1 and 3 remain
    let mut windows_after = reactor2.windows_in(space, full_screen);
    windows_after.sort();

    assert_eq!(
        windows_after,
        &[
            WindowId::new(1, 1),
            WindowId::new(1, 2),
            WindowId::new(3, 1),
        ]
    );
}

#[test]
fn no_scroll_animation_when_idle() {
    let mut reactor = Rig::new();
    let space = SpaceId::new(1);
    let screen = rect(0, 0, 1000, 1000);
    reactor.handle_event(screens_event(vec![screen], vec![Some(space)]));

    let mut apps = Apps::new();
    reactor.handle_events(apps.make_app(1, make_windows(2)));
    reactor.handle_event(Event::StartupComplete);
    apps.simulate_until_quiet(&mut reactor);

    assert!(
        !reactor.reactor.layout.has_active_scroll_animation(&mut reactor.link),
        "timer should be dormant when no scroll animation is active"
    );
}

// More of the layout manager.

fn wids(pid: i32, ids: &[u32]) -> Vec<WindowId> {
    ids.iter().map(|idx| WindowId::new(pid, *idx)).collect()
}

fn asked(mgr: &Manager) -> Vec<String> {
    std::mem::take(&mut mgr.world.borrow_mut().asked)
}

/// A scroll layout of three columns, each half as wide as the screen, the first selected.
fn scrolled(config: &Config) -> (Manager, SpaceId, Frame) {
    let mut mgr = Manager::new();
    mgr.set_config(config);
    let space = SpaceId::new(1);
    let screen = rect(0, 0, 1000, 600);
    _ = mgr.handle_event(SpaceExposed(space, screen.size));
    _ = mgr.handle_event(WindowsOnScreenUpdated(space, 1, layout_windows(1, 3)));
    _ = mgr.handle_event(WindowFocused(vec![space], WindowId::new(1, 1)));
    (mgr, space, screen)
}

/// A tree layout of some windows beside each other, the first selected.
fn tiled(num: u32) -> (Manager, SpaceId, Frame) {
    let mut mgr = Manager::new();
    let space = SpaceId::new(1);
    let screen = rect(0, 0, 1000, 600);
    _ = mgr.handle_event(SpaceExposed(space, screen.size));
    _ = mgr.handle_event(WindowsOnScreenUpdated(space, 1, layout_windows(1, num)));
    _ = mgr.handle_event(WindowFocused(vec![space], WindowId::new(1, 1)));
    (mgr, space, screen)
}

/// Gives the space one layout more.
fn add_layout(mgr: &Manager, space: SpaceId, scroll: bool) -> LayoutId {
    let mut w = mgr.world.borrow_mut();
    let id = w.new_sheet(scroll);
    w.desks.get_mut(&space.0).unwrap().layouts.push(id);
    LayoutId(id)
}

#[test]
fn exposing_a_space_raises_what_its_layout_shows() {
    let (mut mgr, space, screen) = tiled(2);
    let response = mgr.handle_event(SpaceExposed(space, screen.size));
    // The selected window comes last, to be on top.
    assert_eq!(response.raise_windows, wids(1, &[2, 1]));
    assert_eq!(response.focus_window, None);
}

#[test]
fn layouts_are_gone_through_in_a_circle() {
    let (mut mgr, space, _) = tiled(1);
    let first = mgr.mgr.layout(space);
    let second = add_layout(&mgr, space, false);
    let third = add_layout(&mgr, space, false);

    _ = mgr.handle_command(Some(space), &[space], NextLayout);
    assert_eq!(mgr.mgr.layout(space), second);
    _ = mgr.handle_command(Some(space), &[space], PrevLayout);
    assert_eq!(mgr.mgr.layout(space), first);
    _ = mgr.handle_command(Some(space), &[space], PrevLayout);
    assert_eq!(mgr.mgr.layout(space), third);
    _ = mgr.handle_command(Some(space), &[space], NextLayout);
    assert_eq!(mgr.mgr.layout(space), first);
}

#[test]
fn scroll_layouts_are_passed_over_while_they_are_off() {
    let (mut mgr, space, _) = tiled(1);
    let first = mgr.mgr.layout(space);
    add_layout(&mgr, space, true);
    let third = add_layout(&mgr, space, false);

    _ = mgr.handle_command(Some(space), &[space], NextLayout);
    assert_eq!(mgr.mgr.layout(space), third);
    _ = mgr.handle_command(Some(space), &[space], PrevLayout);
    assert_eq!(mgr.mgr.layout(space), first);
}

#[test]
fn scroll_layouts_are_taken_while_they_are_on() {
    let (mut mgr, space, _) = tiled(1);
    mgr.set_config(&config_with_scroll(true, LayoutKind::Tree));
    let second = add_layout(&mgr, space, true);
    _ = mgr.handle_command(Some(space), &[space], NextLayout);
    assert_eq!(mgr.mgr.layout(space), second);
}

#[test]
fn a_layout_is_kept_where_all_others_scroll() {
    let (mut mgr, space, _) = tiled(1);
    let first = mgr.mgr.layout(space);
    mgr.world.borrow_mut().sheets.get_mut(&first.0).unwrap().scroll = true;
    add_layout(&mgr, space, true);
    _ = mgr.handle_command(Some(space), &[space], NextLayout);
    assert_eq!(mgr.mgr.layout(space), first);
}

#[test]
fn a_default_of_scroll_layouts_counts_only_while_they_are_on() {
    let mut mgr = Manager::new();
    mgr.set_config(&config_with_scroll(false, LayoutKind::Scroll));
    let space = SpaceId::new(1);
    _ = mgr.handle_event(SpaceExposed(space, rect(0, 0, 10, 10).size));
    assert_eq!(mgr.active_layout_kind(space), LayoutKind::Tree);
    mgr.set_config(&config_with_scroll(true, LayoutKind::Scroll));
    let space = SpaceId::new(2);
    _ = mgr.handle_event(SpaceExposed(space, rect(0, 0, 10, 10).size));
    assert_eq!(mgr.active_layout_kind(space), LayoutKind::Scroll);
}

#[test]
fn settings_in_force_are_the_valid_ones() {
    let mut mgr = Manager::new();
    let mut config = config_with_scroll(false, LayoutKind::Scroll);
    config.valid_scroll = scroll_config(true);
    mgr.set_config(&config);
    let space = SpaceId::new(1);
    _ = mgr.handle_event(SpaceExposed(space, rect(0, 0, 10, 10).size));
    assert_eq!(mgr.active_layout_kind(space), LayoutKind::Scroll);
}

#[test]
fn letting_a_window_float_twice_puts_it_back() {
    let (mut mgr, space, screen) = tiled(2);
    let before = mgr.layout_sorted(space, screen);
    let first = WindowId::new(1, 1);

    _ = mgr.handle_command(Some(space), &[space], ToggleWindowFloating);
    assert!(mgr.mgr.is_floating());
    assert_eq!(mgr.mgr.last_floating_focus, Some(first));
    assert_eq!(
        mgr.layout_sorted(space, screen),
        vec![(WindowId::new(1, 2), rect(0, 0, 1000, 600))]
    );

    _ = mgr.handle_command(Some(space), &[space], ToggleWindowFloating);
    assert!(!mgr.mgr.is_floating());
    assert_eq!(mgr.mgr.last_floating_focus, None);
    let after: Vec<_> = mgr.layout_sorted(space, screen).iter().map(|(wid, _)| *wid).collect();
    assert_eq!(after, before.iter().map(|(wid, _)| *wid).collect::<Vec<_>>());
    assert_eq!(mgr.selected_window(space), Some(first));
    assert!(mgr.mgr.floating_windows.items().is_empty());
    assert!(mgr.mgr.active_floating_windows.items().is_empty());
}

#[test]
fn without_a_space_only_floating_can_be_toggled() {
    let (mut mgr, space, screen) = tiled(2);
    let before = mgr.layout_sorted(space, screen);
    let response = mgr.handle_command(None, &[space], MoveNode(Direction::Right));
    assert!(response.raise_windows.is_empty() && response.focus_window.is_none());
    assert_eq!(mgr.layout_sorted(space, screen), before);

    _ = mgr.handle_command(None, &[space], ToggleWindowFloating);
    assert!(mgr.mgr.is_floating());
    assert!(mgr.mgr.active_floating_windows.items().is_empty());
    _ = mgr.handle_command(None, &[space], ToggleWindowFloating);
    assert!(!mgr.mgr.is_floating());
}

#[test]
fn nothing_floats_where_nothing_has_the_focus() {
    let mut mgr = Manager::new();
    _ = mgr.handle_command(None, &[], ToggleWindowFloating);
    assert!(mgr.mgr.floating_windows.items().is_empty());
    assert!(!mgr.mgr.is_floating());
}

#[test]
fn commands_for_the_layout_wait_while_a_window_floats() {
    let (mut mgr, space, screen) = tiled(3);
    _ = mgr.handle_command(Some(space), &[space], ToggleWindowFloating);
    let before = mgr.layout_sorted(space, screen);
    for command in [
        MoveNode(Direction::Left),
        FocusNext,
        Group(Orientation::Horizontal),
        Resize { direction: Direction::Right, percent: to_real(10.0) },
        MoveFocus(Direction::Right),
    ] {
        let response = mgr.handle_command(Some(space), &[space], command);
        assert!(response.raise_windows.is_empty() && response.focus_window.is_none());
    }
    assert_eq!(mgr.layout_sorted(space, screen), before);
}

#[test]
fn the_focus_goes_to_the_floating_windows_and_back() {
    let (mut mgr, space, _) = tiled(2);
    let mut info = win_info();
    info.is_resizable = false;
    _ = mgr.handle_event(WindowAdded(space, WindowId::new(1, 7), info));
    let mut info = win_info();
    info.is_standard = false;
    _ = mgr.handle_event(WindowAdded(space, WindowId::new(1, 8), info));

    // None was focused yet: one is picked.
    let response = mgr.handle_command(Some(space), &[space], ToggleFocusFloating);
    assert_eq!(response.raise_windows, wids(1, &[7]));
    assert_eq!(response.focus_window, Some(WindowId::new(1, 8)));

    // The last that had the focus gets it again.
    _ = mgr.handle_event(WindowFocused(vec![space], WindowId::new(1, 7)));
    assert!(mgr.mgr.is_floating());
    let response = mgr.handle_command(Some(space), &[space], ToggleFocusFloating);
    // The selected window comes last, to be on top.
    assert_eq!(response.raise_windows, wids(1, &[2, 1]));
    assert_eq!(response.focus_window, Some(WindowId::new(1, 1)));
    _ = mgr.handle_event(WindowFocused(vec![space], WindowId::new(1, 1)));
    let response = mgr.handle_command(Some(space), &[space], ToggleFocusFloating);
    assert_eq!(response.raise_windows, wids(1, &[8]));
    assert_eq!(response.focus_window, Some(WindowId::new(1, 7)));
}

#[test]
fn the_last_floating_focus_is_forgotten_with_its_window() {
    let (mut mgr, space, _) = tiled(1);
    let mut info = win_info();
    info.is_standard = false;
    _ = mgr.handle_event(WindowAdded(space, WindowId::new(2, 7), info));
    _ = mgr.handle_event(WindowFocused(vec![space], WindowId::new(2, 7)));
    assert_eq!(mgr.mgr.last_floating_focus, Some(WindowId::new(2, 7)));

    // What other applications have on screen does not matter.
    _ = mgr.handle_event(WindowsOnScreenUpdated(space, 1, vec![]));
    assert_eq!(mgr.mgr.last_floating_focus, Some(WindowId::new(2, 7)));
    _ = mgr.handle_event(WindowsOnScreenUpdated(space, 2, vec![]));
    assert_eq!(mgr.mgr.last_floating_focus, None);
}

#[test]
fn an_update_tells_windows_apart() {
    let (mut mgr, space, screen) = tiled(2);
    let mut untracked = win_info();
    untracked.layer = Some(3);
    let mut floating = win_info();
    floating.is_standard = false;
    _ = mgr.handle_event(WindowsOnScreenUpdated(
        space,
        1,
        vec![
            (WindowId::new(1, 5), win_info()),
            (WindowId::new(1, 2), win_info()),
            (WindowId::new(1, 6), untracked),
            (WindowId::new(1, 7), floating),
        ],
    ));
    let laid_out: Vec<_> =
        mgr.layout_sorted(space, screen).iter().map(|(wid, _)| *wid).collect();
    assert_eq!(laid_out, wids(1, &[2, 5]));
    assert_eq!(*mgr.mgr.floating_windows.items(), wids(1, &[7]));
    assert_eq!(mgr.mgr.debug_tree(space).floating, wids(1, &[7]));

    // A window in the layout stays there, whatever is said of it now.
    let mut odd = win_info();
    odd.layer = Some(3);
    _ = mgr.handle_event(WindowsOnScreenUpdated(
        space,
        1,
        vec![(WindowId::new(1, 2), odd), (WindowId::new(1, 7), win_info())],
    ));
    let laid_out: Vec<_> =
        mgr.layout_sorted(space, screen).iter().map(|(wid, _)| *wid).collect();
    assert_eq!(laid_out, wids(1, &[2]));
    assert_eq!(mgr.mgr.debug_tree(space).floating, wids(1, &[7]));
}

#[test]
fn windows_of_an_application_that_closes_no_longer_float() {
    let (mut mgr, space, screen) = tiled(2);
    for wid in [WindowId::new(1, 7), WindowId::new(2, 8)] {
        let mut info = win_info();
        info.is_standard = false;
        _ = mgr.handle_event(WindowAdded(space, wid, info));
    }
    _ = mgr.handle_event(AppClosed(1));
    assert_eq!(*mgr.mgr.floating_windows.items(), wids(2, &[8]));
    assert!(mgr.calculate_layout(space, screen).is_empty());
    _ = mgr.handle_event(WindowRemoved(WindowId::new(2, 8)));
    assert!(mgr.mgr.floating_windows.items().is_empty());
}

#[test]
fn only_windows_of_running_applications_are_kept() {
    let (mut mgr, space, screen) = tiled(2);
    _ = mgr.handle_event(WindowAdded(space, WindowId::new(2, 1), win_info()));
    _ = mgr.handle_event(AppsRunningUpdated(vec![2, 3]));
    let laid_out: Vec<_> = mgr.calculate_layout(space, screen).iter().map(|(w, _)| *w).collect();
    assert_eq!(laid_out, wids(2, &[1]));
}

#[test]
fn a_window_goes_along_to_another_space() {
    let (mut mgr, space, screen) = tiled(2);
    let other = SpaceId::new(2);
    _ = mgr.handle_event(SpaceExposed(other, screen.size));
    _ = mgr.handle_event(WindowSpaceChanged {
        wid: WindowId::new(1, 1),
        added: other,
        removed: space,
    });
    let here: Vec<_> = mgr.calculate_layout(space, screen).iter().map(|(w, _)| *w).collect();
    let there: Vec<_> = mgr.calculate_layout(other, screen).iter().map(|(w, _)| *w).collect();
    assert_eq!((here, there), (wids(1, &[2]), wids(1, &[1])));
}

#[test]
fn the_focus_follows_the_mouse_between_windows_of_the_layout() {
    let (mut mgr, space, _) = tiled(2);
    let (first, second) = (WindowId::new(1, 1), WindowId::new(1, 2));
    let over = |wid, current_main| MouseMovedOverWindow { over: (space, wid), current_main };
    assert_eq!(
        mgr.handle_event(over(second, Some((space, first)))).focus_window,
        Some(second)
    );
    // There is no focus to follow.
    assert_eq!(mgr.handle_event(over(second, None)).focus_window, None);
    // One of the windows is not in the layout.
    let stray = WindowId::new(9, 9);
    assert_eq!(mgr.handle_event(over(stray, Some((space, first)))).focus_window, None);
    assert_eq!(mgr.handle_event(over(second, Some((space, stray)))).focus_window, None);
    // The layout does not show the window.
    _ = mgr.handle_command(Some(space), &[space], Group(Orientation::Horizontal));
    assert_eq!(mgr.handle_event(over(second, Some((space, first)))).focus_window, None);
}

#[test]
fn groups_are_made_and_undone() {
    let (mut mgr, space, screen) = tiled(2);
    let config = default_config();
    let before = mgr.layout_sorted(space, screen);
    _ = mgr.handle_command(Some(space), &[space], Group(Orientation::Horizontal));
    assert_eq!(
        mgr.layout_sorted(space, screen),
        vec![(WindowId::new(1, 1), screen), (WindowId::new(1, 2), screen)]
    );
    let (_, bars) = mgr.mgr.calculate_layout_and_groups(&mut mgr.link, space, screen, &config);
    assert_eq!(bars.len(), 1);
    assert!(bars[0].is_on_top);

    // The bar does not cover a floating window that has the focus.
    _ = mgr.handle_command(Some(space), &[space], ToggleWindowFloating);
    let (_, bars) = mgr.mgr.calculate_layout_and_groups(&mut mgr.link, space, screen, &config);
    assert!(bars.iter().all(|bar| !bar.is_on_top));
    _ = mgr.handle_command(Some(space), &[space], ToggleWindowFloating);

    _ = mgr.handle_command(Some(space), &[space], Ungroup);
    let after: Vec<_> = mgr.layout_sorted(space, screen).iter().map(|(_, f)| f.size).collect();
    assert_eq!(after, before.iter().map(|(_, f)| f.size).collect::<Vec<_>>());
    // There is no group any more.
    _ = mgr.handle_command(Some(space), &[space], Ungroup);
    let again: Vec<_> = mgr.layout_sorted(space, screen).iter().map(|(_, f)| f.size).collect();
    assert_eq!(again, after);
}

#[test]
fn filling_the_screen_raises_the_windows_of_the_node() {
    let (mut mgr, space, screen) = tiled(3);
    let response = mgr.handle_command(Some(space), &[space], ToggleFullscreen);
    assert_eq!(response.raise_windows, wids(1, &[1]));
    assert_eq!(mgr.layout_sorted(space, screen)[0], (WindowId::new(1, 1), screen));
    let response = mgr.handle_command(Some(space), &[space], ToggleFullscreen);
    assert!(response.raise_windows.is_empty());

    _ = mgr.handle_command(Some(space), &[space], Ascend);
    let response = mgr.handle_command(Some(space), &[space], ToggleFullscreen);
    assert_eq!(response.raise_windows, wids(1, &[1, 2, 3]));
    _ = mgr.handle_command(Some(space), &[space], Descend);
    assert_eq!(mgr.selected_window(space), Some(WindowId::new(1, 1)));
}

#[test]
fn a_resize_goes_a_hundred_percent_at_most() {
    let (mut mgr, space, _) = tiled(2);
    for (percent, ratio) in [(5.0, "0.05"), (250.0, "1"), (-250.0, "-1"), (100.0, "1")] {
        _ = asked(&mgr);
        let command = Resize { direction: Direction::Right, percent: to_real(percent) };
        _ = mgr.handle_command(Some(space), &[space], command);
        assert_eq!(asked(&mgr), vec![format!("resize {ratio} Right")]);
    }
}

#[test]
fn a_resize_that_does_not_fit_the_screen_is_ignored() {
    let (mut mgr, space, screen) = tiled(2);
    let before = mgr.layout_sorted(space, screen);
    _ = mgr.handle_event(WindowResized {
        wid: WindowId::new(1, 1),
        old_frame: before[0].1,
        new_frame: rect(0, 0, 1001, 600),
        screens: vec![(space, screen)],
    });
    assert_eq!(mgr.layout_sorted(space, screen), before);
    // The window is in no layout.
    _ = mgr.handle_event(WindowResized {
        wid: WindowId::new(9, 1),
        old_frame: before[0].1,
        new_frame: rect(0, 0, 600, 600),
        screens: vec![(space, screen)],
    });
    assert_eq!(mgr.layout_sorted(space, screen), before);
    _ = mgr.handle_event(WindowResized {
        wid: WindowId::new(1, 1),
        old_frame: before[0].1,
        new_frame: rect(0, 0, 600, 600),
        screens: vec![(space, screen)],
    });
    assert_eq!(mgr.layout_sorted(space, screen)[0].1, rect(0, 0, 600, 600));
}

#[test]
fn columns_go_through_their_widths() {
    let (mut mgr, space, _) = scrolled(&config_with_scroll(true, LayoutKind::Scroll));
    _ = asked(&mgr);
    _ = mgr.handle_command(Some(space), &[space], CycleColumnWidth);
    assert_eq!(asked(&mgr), vec!["resize 0.25 Right"]);

    // After the widest comes the first, and a width that fits is left alone.
    let column = {
        let w = mgr.world.borrow();
        w.nodes[&w.sheets[&mgr.mgr.layout(space).0].root].children[0]
    };
    mgr.world.borrow_mut().nodes.get_mut(&column).unwrap().weight = 0.75;
    _ = mgr.handle_command(Some(space), &[space], CycleColumnWidth);
    assert_eq!(asked(&mgr), vec!["resize -0.5 Right"]);
    let mut config = config_with_scroll(true, LayoutKind::Scroll);
    config.valid_scroll.column_width_presets = vec![to_real(0.5)];
    mgr.set_config(&config);
    mgr.world.borrow_mut().nodes.get_mut(&column).unwrap().weight = 0.5;
    _ = mgr.handle_command(Some(space), &[space], CycleColumnWidth);
    assert!(asked(&mgr).is_empty());

    config.valid_scroll.column_width_presets = vec![];
    mgr.set_config(&config);
    _ = mgr.handle_command(Some(space), &[space], CycleColumnWidth);
    assert!(asked(&mgr).is_empty());
}

#[test]
fn tabs_are_toggled_back() {
    let (mut mgr, space, screen) = scrolled(&config_with_scroll(true, LayoutKind::Scroll));
    let before = mgr.layout_sorted(space, screen);
    _ = mgr.handle_command(Some(space), &[space], ToggleColumnTabbed);
    let shape = |mgr: &Manager| {
        let w = mgr.world.borrow();
        let column = w.nodes[&w.sheets[&mgr.mgr.layout(space).0].root].children[0];
        w.nodes[&column].shape
    };
    assert_eq!(shape(&mgr), Shape::Tabs);
    _ = mgr.handle_command(Some(space), &[space], ToggleColumnTabbed);
    assert_eq!(shape(&mgr), Shape::Column);
    assert_eq!(mgr.layout_sorted(space, screen), before);
}

#[test]
fn a_layout_changes_its_kind_and_back() {
    let (mut mgr, space, screen) = scrolled(&config_with_scroll(true, LayoutKind::Scroll));
    mgr.mgr.viewport_mut(&mut mgr.link, LayoutId(77), to_real(5.0));
    let old = mgr.mgr.layout(space);
    mgr.mgr.viewport_mut(&mut mgr.link, old, to_real(1000.0));
    _ = mgr.handle_command(Some(space), &[space], ChangeLayoutKind);
    assert_eq!(mgr.active_layout_kind(space), LayoutKind::Tree);
    assert_ne!(mgr.mgr.layout(space), old);
    assert_eq!(mgr.mgr.viewport(old), None);
    assert_eq!(mgr.mgr.viewport(LayoutId(77)), Some(LayoutId(77)));
    assert_eq!(mgr.selected_window(space), Some(WindowId::new(1, 1)));
    assert_eq!(mgr.calculate_layout(space, screen).len(), 3);
    _ = mgr.handle_command(Some(space), &[space], ChangeLayoutKind);
    assert_eq!(mgr.active_layout_kind(space), LayoutKind::Scroll);
    assert_eq!(mgr.calculate_layout(space, screen).len(), 3);
}

fn turn(mgr: &mut Manager, space: SpaceId, delta: f64, config: &ScrollConfig) -> EventResponse {
    let screen = rect(0, 0, 1000, 600);
    mgr.mgr.handle_scroll_wheel(&mut mgr.link, space, to_real(delta), &screen, config)
}

#[test]
fn a_notch_of_the_wheel_is_one_column() {
    let config = config_with_scroll(true, LayoutKind::Scroll);
    let (mut mgr, space, _) = scrolled(&config);
    let response = turn(&mut mgr, space, -1.0, &config.scroll);
    assert_eq!(response.focus_window, Some(WindowId::new(1, 2)));
    assert_eq!(mgr.selected_window(space), Some(WindowId::new(1, 2)));
    let response = turn(&mut mgr, space, 2.0, &config.scroll);
    assert_eq!(response.focus_window, Some(WindowId::new(1, 1)));
    // The way ends here.
    let response = turn(&mut mgr, space, 1.0, &config.scroll);
    assert_eq!(response.focus_window, None);
    assert_eq!(mgr.selected_window(space), Some(WindowId::new(1, 1)));
}

#[test]
fn a_smooth_wheel_gathers_its_way() {
    let config = config_with_scroll(true, LayoutKind::Scroll);
    let (mut mgr, space, _) = scrolled(&config);
    // A step is a third of the screen.
    assert_eq!(turn(&mut mgr, space, -300.0, &config.scroll).focus_window, None);
    assert_eq!(
        turn(&mut mgr, space, -40.5, &config.scroll).focus_window,
        Some(WindowId::new(1, 2))
    );
}

#[test]
fn the_wheel_can_be_turned_round_and_geared() {
    let mut config = config_with_scroll(true, LayoutKind::Scroll);
    config.scroll.invert_scroll_direction = true;
    let (mut mgr, space, _) = scrolled(&config);
    assert_eq!(
        turn(&mut mgr, space, 1.0, &config.scroll).focus_window,
        Some(WindowId::new(1, 2))
    );
    config.scroll.scroll_sensitivity = to_real(2.0);
    assert_eq!(
        turn(&mut mgr, space, 170.5, &config.scroll).focus_window,
        Some(WindowId::new(1, 3))
    );
}

#[test]
fn the_wheel_goes_round_where_the_columns_do() {
    let mut config = config_with_scroll(true, LayoutKind::Scroll);
    config.valid_scroll.infinite_loop = true;
    let (mut mgr, space, _) = scrolled(&config);
    assert_eq!(
        turn(&mut mgr, space, 1.0, &config.scroll).focus_window,
        Some(WindowId::new(1, 3))
    );
    assert_eq!(
        mgr.handle_command(Some(space), &[space], MoveFocus(Direction::Right)).focus_window,
        Some(WindowId::new(1, 1))
    );
}

#[test]
fn one_turn_of_the_wheel_goes_sixteen_columns_at_most() {
    let config = config_with_scroll(true, LayoutKind::Scroll);
    let mut mgr = Manager::new();
    mgr.set_config(&config);
    let space = SpaceId::new(1);
    _ = mgr.handle_event(SpaceExposed(space, rect(0, 0, 1000, 600).size));
    _ = mgr.handle_event(WindowsOnScreenUpdated(space, 1, layout_windows(1, 20)));
    _ = mgr.handle_event(WindowFocused(vec![space], WindowId::new(1, 1)));
    assert_eq!(
        turn(&mut mgr, space, -20000.0, &config.scroll).focus_window,
        Some(WindowId::new(1, 17))
    );
}

#[test]
fn the_wheel_does_nothing_over_an_empty_layout_or_a_tree() {
    let config = config_with_scroll(true, LayoutKind::Scroll);
    let mut mgr = Manager::new();
    mgr.set_config(&config);
    let space = SpaceId::new(1);
    _ = mgr.handle_event(SpaceExposed(space, rect(0, 0, 1000, 600).size));
    assert_eq!(turn(&mut mgr, space, -1.0, &config.scroll).focus_window, None);
    let (mut mgr, space, _) = tiled(2);
    mgr.set_config(&config);
    assert_eq!(turn(&mut mgr, space, -1.0, &config.scroll).focus_window, None);
}

#[test]
fn edges_are_found_near_the_border_of_a_frame() {
    let mut link = Link::new(Host(World::shared()));
    let frame = rect(100, 100, 200, 100);
    let mut edges = |x: f64, y: f64, frame: Frame| detect_edges(&mut link, point(x, y), frame).0;
    // Within, near each edge, near a corner, just outside, and too far away.
    assert_eq!(edges(200.0, 150.0, frame), 0);
    assert_eq!(edges(107.0, 150.0, frame), ResizeEdge::LEFT);
    assert_eq!(edges(293.0, 150.0, frame), ResizeEdge::RIGHT);
    assert_eq!(edges(200.0, 101.0, frame), ResizeEdge::TOP);
    assert_eq!(edges(200.0, 199.0, frame), ResizeEdge::BOTTOM);
    assert_eq!(edges(101.0, 199.0, frame), ResizeEdge::LEFT | ResizeEdge::BOTTOM);
    assert_eq!(edges(93.0, 150.0, frame), ResizeEdge::LEFT);
    assert_eq!(edges(91.0, 150.0, frame), 0);
    assert_eq!(edges(108.0, 150.0, frame), 0);
    // Too narrow to tell left from right.
    assert_eq!(edges(104.0, 150.0, rect(100, 100, 8, 100)), 0);
    assert_eq!(edges(104.0, 101.0, rect(100, 100, 8, 100)), ResizeEdge::TOP);
}

#[test]
fn the_mouse_finds_edges_and_windows_of_scroll_layouts() {
    let config = config_with_scroll(true, LayoutKind::Scroll);
    let (mut mgr, space, screen) = scrolled(&config);
    let layout = mgr.mgr.layout(space);
    let hit = mgr.mgr.hit_test_scroll_edges(
        &mut mgr.link,
        space,
        point(503.0, 300.0),
        screen,
        &config,
    );
    let (column, window, edges) = hit.unwrap();
    // The right edge of the first column comes first.
    assert_eq!(edges.0, ResizeEdge::RIGHT);
    assert_eq!(mgr.world.borrow().nodes[&window.0].window, Some(WindowId::new(1, 1)));
    assert_eq!(mgr.world.borrow().nodes[&window.0].parent, Some(column.0));

    let at = |mgr: &mut Manager, x: f64| {
        mgr.mgr.hit_test_scroll_window(&mut mgr.link, space, point(x, 300.0), screen, &config)
    };
    assert_eq!(at(&mut mgr, 700.0).unwrap().0, WindowId::new(1, 2));
    assert_eq!(at(&mut mgr, 5000.0), None);
    // The viewport counts.
    mgr.mgr.viewport_mut(&mut mgr.link, layout, to_real(1000.0));
    mgr.world.borrow_mut().views.get_mut(&layout.0).unwrap().offset = 500.0;
    assert_eq!(at(&mut mgr, 700.0).unwrap().0, WindowId::new(1, 3));

    // Neither is found in a tree, in a space that is not known, or while scroll
    // layouts are off.
    let (mut tree, space, _) = tiled(2);
    tree.set_config(&config);
    let p = point(503.0, 300.0);
    assert!(tree.mgr.hit_test_scroll_edges(&mut tree.link, space, p, screen, &config).is_none());
    assert!(tree.mgr.hit_test_scroll_window(&mut tree.link, space, p, screen, &config).is_none());
    let strange = SpaceId::new(9);
    assert!(mgr.mgr.hit_test_scroll_edges(&mut mgr.link, strange, p, screen, &config).is_none());
    assert!(mgr.mgr.hit_test_scroll_window(&mut mgr.link, strange, p, screen, &config).is_none());
    mgr.set_config(&default_config());
    assert!(mgr.mgr.hit_test_scroll_edges(&mut mgr.link, space, p, screen, &config).is_none());
    assert!(mgr.mgr.hit_test_scroll_window(&mut mgr.link, space, p, screen, &config).is_none());
}

#[test]
fn held_edges_follow_the_mouse() {
    let config = config_with_scroll(true, LayoutKind::Scroll);
    let (mut mgr, space, screen) = scrolled(&config);
    let (column, window, _) = mgr
        .mgr
        .hit_test_scroll_edges(&mut mgr.link, space, point(503.0, 300.0), screen, &config)
        .unwrap();
    _ = asked(&mgr);
    let edges = ResizeEdge(ResizeEdge::RIGHT | ResizeEdge::TOP);
    assert!(mgr.mgr.begin_interactive_resize(column, window, edges, point(500.0, 300.0)));
    // What is held stays held.
    assert!(!mgr.mgr.begin_interactive_resize(window, column, edges, point(0.0, 0.0)));
    assert!(!mgr.mgr.begin_interactive_move(space, WindowId::new(1, 1), window, point(0.0, 0.0)));
    assert!(mgr.mgr.has_interactive_state());

    assert!(mgr.mgr.update_interactive_resize(&mut mgr.link, point(600.0, 270.0), screen));
    assert_eq!(asked(&mgr), vec!["resize 0.1 Right", "resize -0.05 Up"]);
    // The way is counted from where the mouse was last.
    assert!(mgr.mgr.update_interactive_resize(&mut mgr.link, point(650.0, 270.0), screen));
    assert_eq!(asked(&mgr), vec!["resize 0.05 Right", "resize 0 Up"]);

    mgr.mgr.end_interactive_resize(&mut mgr.link, space, screen, &config);
    assert!(!mgr.mgr.has_interactive_state());
    assert!(!mgr.mgr.update_interactive_resize(&mut mgr.link, point(0.0, 0.0), screen));
}

#[test]
fn a_window_on_the_move_trades_places() {
    let config = config_with_scroll(true, LayoutKind::Scroll);
    let (mut mgr, space, screen) = scrolled(&config);
    let p = point(100.0, 300.0);
    let (wid, node) =
        mgr.mgr.hit_test_scroll_window(&mut mgr.link, space, p, screen, &config).unwrap();
    assert!(mgr.mgr.begin_interactive_move(space, wid, node, p));
    let mut go = |mgr: &mut Manager, x: f64, y: f64| {
        mgr.mgr.update_interactive_move(&mut mgr.link, point(x, y), screen, &config)
    };
    // Not far enough, and then over itself.
    assert!(!go(&mut mgr, 106.0, 307.0));
    assert!(!mgr.mgr.interactive_move.unwrap().drag_active);
    assert!(!go(&mut mgr, 106.0, 308.0));
    assert!(mgr.mgr.interactive_move.unwrap().drag_active);

    assert!(go(&mut mgr, 700.0, 300.0));
    let order: Vec<_> = mgr.calculate_layout(space, screen).iter().map(|(w, _)| *w).collect();
    assert_eq!(order, wids(1, &[2, 1, 3]));
    assert!(go(&mut mgr, 100.0, 300.0));
    let order: Vec<_> = mgr.calculate_layout(space, screen).iter().map(|(w, _)| *w).collect();
    assert_eq!(order, wids(1, &[1, 2, 3]));

    mgr.mgr.end_interactive_move(&mut mgr.link, space, screen, &config);
    assert!(!mgr.mgr.has_interactive_state());
    assert!(!go(&mut mgr, 700.0, 300.0));
}

#[test]
fn windows_out_of_view_are_no_place_to_go() {
    let config = config_with_scroll(true, LayoutKind::Scroll);
    let (mut mgr, space, screen) = scrolled(&config);
    let layout = mgr.mgr.layout(space);
    mgr.mgr.viewport_mut(&mut mgr.link, layout, to_real(1000.0));
    mgr.world.borrow_mut().views.get_mut(&layout.0).unwrap().offset = 500.0;
    let node = mgr.world.borrow().node_of(layout.0, WindowId::new(1, 2)).unwrap();
    assert!(mgr.mgr.begin_interactive_move(
        space,
        WindowId::new(1, 2),
        NodeId(node),
        point(100.0, 300.0)
    ));
    // The first column is scrolled out; the third is seen where the second would be.
    assert!(!mgr.mgr.update_interactive_move(
        &mut mgr.link,
        point(-100.0, 300.0),
        screen,
        &config
    ));
    assert!(mgr.mgr.update_interactive_move(&mut mgr.link, point(600.0, 300.0), screen, &config));
    let w = mgr.world.borrow();
    assert_eq!(w.windows(w.sheets[&layout.0].root), wids(1, &[1, 3, 2]));
}

#[test]
fn the_viewport_follows_the_selection() {
    let config = config_with_scroll(true, LayoutKind::Scroll);
    let (mut mgr, space, screen) = scrolled(&config);
    let layout = mgr.mgr.layout(space);
    assert_eq!(mgr.mgr.viewport(layout), None);
    _ = mgr.handle_event(WindowFocused(vec![space], WindowId::new(1, 3)));
    _ = asked(&mgr);
    mgr.mgr.update_viewport_for_focus(&mut mgr.link, space, screen, &config);
    assert_eq!(asked(&mgr), vec!["column 2 at 1000 of 500"]);
    assert_eq!(mgr.mgr.viewport(layout), Some(layout));
    assert_eq!(mgr.layout_sorted(space, screen)[2].1, rect(500, 0, 500, 600));
    assert!(mgr.mgr.has_active_scroll_animation(&mut mgr.link));
    mgr.mgr.tick_viewports(&mut mgr.link);
    assert!(!mgr.mgr.has_active_scroll_animation(&mut mgr.link));

    // It stays where the user scrolled it, until the focus moves.
    mgr.world.borrow_mut().views.get_mut(&layout.0).unwrap().user_scrolling = true;
    mgr.mgr.update_viewport_for_focus(&mut mgr.link, space, screen, &config);
    assert!(asked(&mgr).is_empty());
    mgr.mgr.clear_user_scrolling(&mut mgr.link, space);
    mgr.mgr.update_viewport_for_focus(&mut mgr.link, space, screen, &config);
    assert_eq!(asked(&mgr), vec!["column 2 at 1000 of 500"]);

    // Group bars are seen through the viewport too.
    _ = mgr.handle_command(Some(space), &[space], ToggleColumnTabbed);
    let (_, bars) = mgr.mgr.calculate_layout_and_groups(&mut mgr.link, space, screen, &config);
    assert_eq!(bars[0].indicator_frame, rect(-499, 2, 3, 4));
}

#[test]
fn what_was_saved_is_known_again() {
    let (mut mgr, space, screen) = tiled(2);
    let mut info = win_info();
    info.is_standard = false;
    _ = mgr.handle_event(WindowAdded(space, WindowId::new(1, 7), info));
    let saved = mgr.mgr.saved();
    assert_eq!(saved.spaces, vec![(space, mgr.mgr.layout(space))]);
    assert_eq!(saved.floating_windows, wids(1, &[7]));
    let before = mgr.layout_sorted(space, screen);
    mgr.mgr = LayoutManager::restore(saved, scroll_config(false));
    assert_eq!(mgr.layout_sorted(space, screen), before);
    assert_eq!(*mgr.mgr.floating_windows.items(), wids(1, &[7]));
    assert_eq!(mgr.mgr.focused_window, None);
    assert!(mgr.mgr.active_floating_windows.items().is_empty());
}

// More of the reactor.

fn space1() -> SpaceId {
    SpaceId::new(1)
}

/// One screen, one application with some windows beside each other.
fn started(count: u32) -> (Rig, Apps) {
    started_with(count, |config| config)
}

fn started_with(count: u32, change: fn(Config) -> Config) -> (Rig, Apps) {
    let mut apps = Apps::new();
    let mut rig = Rig::new();
    rig.config = change(default_config());
    rig.handle_event(Event::ConfigChanged(change(default_config())));
    rig.handle_event(screens_event(vec![rect(0, 0, 1000, 1000)], vec![Some(space1())]));
    rig.handle_event(Event::ApplicationGloballyActivated(1));
    let events =
        apps.make_app_with_opts(1, make_windows(count), Some(WindowId::new(1, 1)), true);
    rig.handle_events(events);
    rig.handle_event(Event::StartupComplete);
    apps.simulate_until_quiet(&mut rig);
    rig.raises();
    (rig, apps)
}

fn titled(title: &str) -> WindowInfo {
    WindowInfo { title: Secret::new(title.to_string()), ..make_window(1) }
}

fn launch(bundle_id: &str, windows: Vec<(WindowId, WindowInfo)>) -> Event {
    Event::ApplicationLaunched {
        pid: 1,
        info: AppInfo { bundle_id: Some(bundle_id.to_string()) },
        handle: AppHandle(1),
        is_frontmost: true,
        main_window: None,
        visible_windows: windows,
    }
}

#[test]
fn titles_reach_the_layout_as_they_are() {
    let screen = rect(0, 0, 1000, 1000);
    let wid = WindowId::new(1, 1);
    for (title, managed) in [("Picture-in-Picture", false), ("A page", true)] {
        let mut rig = Rig::new();
        rig.handle_event(screens_event(vec![screen], vec![Some(space1())]));
        rig.handle_event(Event::WindowsOnScreenUpdated {
            pid: None,
            on_screen: on_screen(blank_info(1..=1)),
        });
        rig.handle_event(launch("org.mozilla.firefox", vec![(wid, titled(title))]));
        assert_eq!(rig.windows_in(space1(), screen).contains(&wid), managed);

        // The same where the window comes up later.
        let mut rig = Rig::new();
        rig.handle_event(screens_event(vec![screen], vec![Some(space1())]));
        rig.handle_event(launch("org.mozilla.firefox", vec![]));
        rig.handle_event(Event::WindowCreated(wid, titled(title), MouseState::Up));
        rig.handle_event(Event::WindowBecameVisible(wid));
        assert_eq!(rig.windows_in(space1(), screen).contains(&wid), managed);
    }
}

#[test]
fn a_window_that_comes_up_is_new_to_the_animation() {
    let (mut rig, _) = started_with(1, |config| Config { animate: true, ..config });
    rig.world.borrow_mut().animates = true;
    rig.handle_event(Event::WindowCreated(WindowId::new(1, 2), make_window(2), MouseState::Up));
    rig.handle_event(Event::WindowBecameVisible(WindowId::new(1, 2)));
    let animations = rig.world.borrow().animations.clone();
    let (mode, moves) = animations.last().unwrap();
    assert_eq!(*mode, AnimationMode::Replace);
    let new: Vec<_> = moves.iter().map(|m| (m.wid, m.is_new)).collect();
    assert_eq!(new, vec![(WindowId::new(1, 1), false), (WindowId::new(1, 2), true)]);
    assert_eq!(moves[0].from, rect(0, 0, 1000, 1000));
    assert_eq!(moves[0].to, rect(0, 0, 500, 1000));
    assert_eq!(moves[1].to, rect(500, 0, 500, 1000));

    // A window that is not known is left alone.
    rig.handle_event(Event::WindowBecameVisible(WindowId::new(8, 8)));
    assert_eq!(rig.world.borrow().animations.len(), animations.len());
}

#[test]
fn writes_are_numbered() {
    let (mut rig, _) = started(1);
    let wid = WindowId::new(1, 1);
    let before = rig.reactor.windows.get(wid).unwrap().last_sent_txid;
    rig.handle_event(Event::WindowCreated(WindowId::new(1, 2), make_window(2), MouseState::Up));
    rig.handle_event(Event::WindowBecameVisible(WindowId::new(1, 2)));
    let requests = rig.requests();
    let now = rig.reactor.windows.get(wid).unwrap().last_sent_txid;
    assert_eq!(now, TransactionId(before.0 + 1));
    assert!(requests.contains(&Request::SetFrame(wid, rect(0, 0, 500, 1000), now)));

    // A read from before the write is ignored; one from after it is not.
    let moved = rect(7, 7, 500, 1000);
    rig.handle_event(Event::WindowFrameChanged(wid, moved, before, Requested(false), None));
    assert_eq!(
        rig.reactor.windows.get(wid).unwrap().frame_monotonic,
        rect(0, 0, 500, 1000)
    );
    rig.handle_event(Event::WindowFrameChanged(
        wid,
        moved,
        now,
        Requested(false),
        Some(MouseState::Down),
    ));
    assert_eq!(rig.reactor.windows.get(wid).unwrap().frame_monotonic, moved);
    assert!(rig.reactor.in_drag);
}

#[test]
fn nothing_is_laid_out_during_a_drag() {
    let (mut rig, _) = started(2);
    rig.handle_event(Event::WindowCreated(WindowId::new(1, 3), make_window(3), MouseState::Down));
    assert!(rig.reactor.in_drag);
    rig.handle_event(Event::WindowBecameVisible(WindowId::new(1, 3)));
    assert!(rig.requests().is_empty());
    rig.handle_event(Event::MouseUp);
    assert_eq!(rig.requests().len(), 3);
}

#[test]
fn the_window_server_has_the_last_word_on_ordinary_windows() {
    let (mut rig, _) = started(2);
    let info = |id: u32, layer: i32| WindowServerInfo {
        id: WindowServerId::new(id),
        pid: 1,
        layer,
        frame: rect(1, 2, 3, 4),
    };
    rig.reactor.in_drag = true;
    rig.handle_event(Event::WindowsOnScreenUpdated {
        pid: Some(1),
        on_screen: on_screen(vec![info(1, 0)]),
    });
    assert_eq!(*rig.reactor.visible_windows.items(), vec![WindowServerId::new(1)]);
    assert_eq!(
        rig.reactor.windows.get(WindowId::new(1, 1)).unwrap().frame_monotonic,
        rect(0, 0, 500, 1000)
    );
    rig.handle_event(Event::WindowsOnScreenUpdated {
        pid: None,
        on_screen: on_screen(vec![info(1, 0), info(2, 5), info(1, 0)]),
    });
    assert_eq!(
        *rig.reactor.visible_windows.items(),
        vec![WindowServerId::new(1), WindowServerId::new(2)]
    );
    assert_eq!(
        rig.reactor.windows.get(WindowId::new(1, 1)).unwrap().frame_monotonic,
        rect(1, 2, 3, 4)
    );
    assert_eq!(
        rig.reactor.windows.get(WindowId::new(1, 2)).unwrap().frame_monotonic,
        rect(500, 0, 500, 1000)
    );
    assert_eq!(rig.reactor.window_server_info.get(WindowServerId::new(2)), Some(&info(2, 5)));
}

#[test]
fn of_two_screens_with_as_much_of_a_window_the_last_is_its_screen() {
    let mut rig = Rig::new();
    rig.handle_event(screens_event(
        vec![rect(0, 0, 100, 100), rect(100, 0, 100, 100), rect(200, 0, 100, 100)],
        vec![Some(space1()), None, Some(SpaceId::new(3))],
    ));
    let best = |rig: &mut Rig, frame: Frame| {
        rig.reactor.best_screen_idx_for_window(&mut rig.link, &frame)
    };
    assert_eq!(best(&mut rig, rect(50, 0, 100, 10)), Some(1));
    assert_eq!(best(&mut rig, rect(50, 0, 90, 10)), Some(0));
    assert_eq!(best(&mut rig, rect(900, 0, 90, 10)), Some(2));
    let space = rig.reactor.best_space_for_window(&mut rig.link, &rect(50, 0, 100, 10));
    assert_eq!(space, None);
    let space = rig.reactor.best_space_for_window(&mut rig.link, &rect(250, 0, 10, 10));
    assert_eq!(space, Some(SpaceId::new(3)));
    let mut rig = Rig::new();
    assert_eq!(best(&mut rig, rect(0, 0, 1, 1)), None);
}

#[test]
fn the_status_display_hears_of_another_active_screen_once() {
    let (mut rig, _) = started(1);
    assert_eq!(rig.reactor.active_screen_idx, Some(0));
    let changes = rig.world.borrow().screen_changes;
    assert_eq!(changes, 1);
    let screens = vec![rect(2000, 0, 1000, 1000), rect(0, 0, 1000, 1000)];
    rig.handle_event(screens_event(screens, vec![None, Some(space1())]));
    assert_eq!(rig.reactor.active_screen_idx, Some(1));
    assert_eq!(rig.world.borrow().screen_changes, 2);
    rig.handle_event(Event::ApplicationActivated(1, Quiet::No));
    assert_eq!(rig.world.borrow().screen_changes, 2);
    let (spaces, converter) = rig.world.borrow().converters.last().unwrap().clone();
    assert_eq!((spaces, converter), (vec![None, Some(space1())], Converter(0)));
}

#[test]
fn screens_are_described_by_all_three_lists() {
    let mut rig = Rig::new();
    rig.handle_event(Event::ScreenParametersChanged {
        frames: vec![rect(0, 0, 10, 10), rect(10, 0, 10, 10)],
        spaces: vec![Some(space1()), None, None],
        scale_factors: vec![to_real(2.0)],
        converter: Converter(4),
    });
    assert_eq!(
        rig.reactor.screens,
        vec![Screen {
            frame: rect(0, 0, 10, 10),
            space: Some(space1()),
            scale_factor: to_real(2.0),
        }]
    );
}

#[test]
fn spaces_that_do_not_fit_the_screens_are_ignored() {
    let (mut rig, _) = started(1);
    rig.reactor.in_drag = true;
    rig.handle_event(Event::SpaceChanged(
        vec![Some(SpaceId::new(5)), None],
        on_screen(blank_info(1..=1)),
    ));
    assert!(rig.reactor.in_drag);
    assert_eq!(rig.reactor.screens[0].space, Some(space1()));
    assert!(rig.requests().is_empty());
    rig.handle_event(Event::SpaceChanged(vec![None], on_screen(blank_info(1..=1))));
    assert!(!rig.reactor.in_drag);
    assert_eq!(rig.reactor.screens[0].space, None);
    assert_eq!(rig.requests(), vec![Request::GetVisibleWindows(1)]);
}

#[test]
fn the_mouse_jumps_to_a_focus_that_it_did_not_cause() {
    let (mut rig, _) = started_with(2, |config| Config { mouse_follows_focus: true, ..config });
    rig.handle_event(Event::Command(Command::Layout(MoveFocus(Direction::Right))));
    let (_, focus, contacts) = rig.raises().pop().unwrap();
    assert_eq!(focus, Some((WindowId::new(1, 2), Some(point(750.0, 500.0)))));
    assert_eq!(contacts, vec![AppContact { pid: 1, handle: AppHandle(1) }]);

    rig.handle_event(Event::MouseMovedOverWindow(WindowServerId::new(2)));
    let (_, focus, _) = rig.raises().pop().unwrap();
    assert_eq!(focus, Some((WindowId::new(1, 2), None)));

    // Windows that are not known lead nowhere.
    rig.handle_event(Event::MouseMovedOverWindow(WindowServerId::new(99)));
    assert!(rig.raises().is_empty());
}

#[test]
fn the_mouse_stays_where_the_settings_say_so() {
    let (mut rig, _) = started(2);
    rig.handle_event(Event::Command(Command::Layout(MoveFocus(Direction::Right))));
    let (_, focus, _) = rig.raises().pop().unwrap();
    assert_eq!(focus, Some((WindowId::new(1, 2), None)));
}

#[test]
fn raises_are_passed_on() {
    let (mut rig, _) = started(1);
    rig.handle_event(Event::RaiseCompleted { window_id: WindowId::new(1, 1), sequence_id: 4 });
    rig.handle_event(Event::RaiseTimeout { sequence_id: 5 });
    assert_eq!(rig.world.borrow().finished, vec![(WindowId::new(1, 1), 4)]);
    assert_eq!(rig.world.borrow().timeouts, vec![5]);
}

#[test]
fn applications_are_told_to_end() {
    let (mut rig, mut apps) = started(2);
    rig.handle_event(Event::ApplicationTerminated(9));
    assert!(rig.requests().is_empty());
    rig.handle_event(Event::ApplicationTerminated(1));
    let requests = rig.requests();
    assert_eq!(requests, vec![Request::Terminate(1)]);
    let events = apps.simulate_events_for_requests(requests);
    rig.handle_events(events);
    assert!(!rig.reactor.apps.contains_key(1));
    assert!(rig.windows_in(space1(), rect(0, 0, 1000, 1000)).is_empty());
}

#[test]
fn commands_of_the_reactor_are_carried_out() {
    let (mut rig, _) = started(1);
    let layout = rig.reactor.layout.layout(space1());
    rig.handle_event(Event::Command(Command::Metrics(MetricsCommand(6))));
    rig.handle_event(Event::Command(Command::Reactor(ReactorCommand::Debug)));
    rig.handle_event(Event::Command(Command::Reactor(ReactorCommand::Serialize)));
    assert_eq!(rig.world.borrow().metrics, vec![6]);
    assert_eq!(rig.world.borrow().shown, vec![(space1(), Some(layout), vec![], true)]);
    assert_eq!(rig.world.borrow().printed, vec![(vec![(space1(), layout)], vec![])]);

    rig.handle_event(Event::Command(Command::Reactor(ReactorCommand::SaveAndExit)));
    rig.world.borrow_mut().saves = true;
    rig.handle_event(Event::Command(Command::Reactor(ReactorCommand::SaveAndExit)));
    assert_eq!(rig.world.borrow().saved, vec![(vec![(space1(), layout)], vec![]); 2]);
    assert_eq!(rig.world.borrow().exits, vec![3, 0]);
}

#[test]
fn a_destroyed_window_is_forgotten() {
    let (mut rig, _) = started(2);
    rig.reactor.in_drag = true;
    rig.handle_event(Event::WindowDestroyed(WindowId::new(1, 2)));
    assert!(!rig.reactor.in_drag);
    assert!(!rig.reactor.windows.contains_key(WindowId::new(1, 2)));
    assert_eq!(
        rig.windows_in(space1(), rect(0, 0, 1000, 1000)),
        vec![WindowId::new(1, 1)]
    );
}

#[test]
fn what_an_application_no_longer_names_is_kept() {
    let (mut rig, _) = started(2);
    rig.handle_event(Event::WindowsDiscovered { pid: 1, new: vec![], known_visible: vec![] });
    assert_eq!(rig.windows_in(space1(), rect(0, 0, 1000, 1000)).len(), 2);
    assert_eq!(rig.reactor.visible_windows.len(), 2);
}

fn scrolling(config: Config) -> Config {
    Config { id: config.id, ..config_with_scroll(true, LayoutKind::Scroll) }
}

#[test]
fn the_wheel_counts_with_its_key_held() {
    let (mut rig, _) = started_with(3, scrolling);
    let wheel = |x: f64, y: f64, alt_held: bool| Event::ScrollWheel {
        delta_x: to_real(x),
        delta_y: to_real(y),
        alt_held,
    };
    rig.handle_event(wheel(-1.0, 0.0, false));
    assert!(rig.raises().is_empty());
    rig.handle_event(wheel(-1.0, 5.0, true));
    assert_eq!(rig.raises().pop().unwrap().1.unwrap().0, WindowId::new(1, 2));
    // Up and down counts where there is no left and right.
    rig.handle_event(wheel(0.0, 1.0, true));
    assert_eq!(rig.raises().pop().unwrap().1.unwrap().0, WindowId::new(1, 1));

    let (mut rig, _) = started(3);
    rig.handle_event(wheel(-1.0, 0.0, true));
    assert!(rig.raises().is_empty());
}

#[test]
fn the_mouse_resizes_and_moves_in_a_scroll_layout() {
    let (mut rig, mut apps) = started_with(3, scrolling);
    // The right edge of the first column.
    rig.handle_event(Event::LeftMouseDown(point(498.0, 500.0)));
    assert!(rig.reactor.in_drag);
    assert!(rig.reactor.layout.interactive_resize.is_some());
    rig.handle_event(Event::LeftMouseDragged(point(598.0, 500.0)));
    assert!(!rig.requests().is_empty());
    rig.handle_event(Event::MouseUp);
    assert!(!rig.reactor.in_drag);
    assert!(!rig.reactor.layout.has_interactive_state());
    apps.simulate_until_quiet(&mut rig);

    // The middle of the first window, and on to the next.
    rig.handle_event(Event::LeftMouseDown(point(200.0, 500.0)));
    assert!(rig.reactor.layout.interactive_move.is_some());
    rig.handle_event(Event::LeftMouseDragged(point(205.0, 500.0)));
    assert!(rig.requests().is_empty());
    rig.handle_event(Event::LeftMouseDragged(point(900.0, 500.0)));
    assert!(!rig.requests().is_empty());
    // A change of spaces lets go of everything.
    rig.handle_event(Event::SpaceChanged(vec![Some(space1())], on_screen(blank_info(1..=3))));
    assert!(!rig.reactor.layout.has_interactive_state());
    assert!(!rig.reactor.in_drag);
}

#[test]
fn a_viewport_in_motion_is_moved_on_by_ticks() {
    let (mut rig, _) = started_with(3, scrolling);
    let event = Event::Command(Command::Layout(MoveFocus(Direction::Right)));
    let main = rig.tracker.main_window();
    assert!(!rig.reactor.step(&mut rig.link, event, None, main));
    // The third column is out of view.
    let event = Event::Command(Command::Layout(MoveFocus(Direction::Right)));
    assert!(rig.reactor.step(&mut rig.link, event, None, main));
    let event = Event::MouseUp;
    assert!(!rig.reactor.step(&mut rig.link, event, None, main));
    rig.world.borrow_mut().views.values_mut().for_each(|view| view.moving = true);
    assert!(!rig.reactor.on_tick(&mut rig.link));
    assert!(!rig.reactor.layout.has_active_scroll_animation(&mut rig.link));
}

#[test]
fn turning_scroll_layouts_off_makes_trees_of_them() {
    let (mut rig, _) = started_with(3, scrolling);
    let kind = rig.reactor.layout.active_layout_kind(&mut rig.link, space1());
    assert_eq!(kind, LayoutKind::Scroll);
    rig.handle_event(Event::ConfigChanged(Config { id: ConfigId(8), ..default_config() }));
    let kind = rig.reactor.layout.active_layout_kind(&mut rig.link, space1());
    assert_eq!(kind, LayoutKind::Tree);
    assert_eq!(rig.reactor.config.id, ConfigId(8));
    assert_eq!(rig.world.borrow().configs.last(), Some(&ConfigId(8)));
}

#[test]
fn group_bars_are_passed_on() {
    let (mut rig, _) = started(2);
    rig.handle_event(Event::Command(Command::Layout(Group(Orientation::Horizontal))));
    let (space, bars) = rig.world.borrow().bar_updates.last().unwrap().clone();
    assert_eq!(space, space1());
    assert_eq!(bars.len(), 1);
    assert!(bars[0].is_on_top);
}

#[test]
fn turning_scroll_layouts_off_loses_no_window() {
    let mut mgr = Manager::new();
    mgr.set_config(&config_with_scroll(true, LayoutKind::Scroll));
    let screen = rect(0, 0, 1000, 600);
    let spaces = [SpaceId::new(1), SpaceId::new(2)];
    for (i, space) in spaces.iter().enumerate() {
        _ = mgr.handle_event(SpaceExposed(*space, screen.size));
        let pid = i as i32 + 1;
        _ = mgr.handle_event(WindowsOnScreenUpdated(*space, pid, layout_windows(pid, 3)));
    }
    let tiled_in = |mgr: &mut Manager, space: SpaceId| -> Vec<WindowId> {
        mgr.layout_sorted(space, screen).iter().map(|(wid, _)| *wid).collect()
    };

    // The default is left at scroll layouts.
    mgr.set_config(&config_with_scroll(false, LayoutKind::Scroll));
    for (i, space) in spaces.iter().enumerate() {
        assert_eq!(mgr.active_layout_kind(*space), LayoutKind::Tree);
        assert_eq!(tiled_in(&mut mgr, *space), wids(i as i32 + 1, &[1, 2, 3]));
    }
    let third = SpaceId::new(3);
    _ = mgr.handle_event(SpaceExposed(third, screen.size));
    assert_eq!(mgr.active_layout_kind(third), LayoutKind::Tree);
}

#[test]
fn a_step_through_the_layouts_is_undone_by_one_back() {
    let (mut mgr, space, _) = tiled(1);
    mgr.set_config(&config_with_scroll(true, LayoutKind::Tree));
    let first = mgr.mgr.layout(space);
    let second = add_layout(&mgr, space, true);
    let third = add_layout(&mgr, space, false);

    let mut visited = vec![];
    for _ in 0..3 {
        _ = mgr.handle_command(Some(space), &[space], NextLayout);
        let here = mgr.mgr.layout(space);
        visited.push(here);
        _ = mgr.handle_command(Some(space), &[space], NextLayout);
        _ = mgr.handle_command(Some(space), &[space], PrevLayout);
        assert_eq!(mgr.mgr.layout(space), here);
    }
    assert_eq!(visited, vec![second, third, first]);
}

#[test]
fn frames_are_the_same_with_group_bars_and_without() {
    let config = config_with_scroll(true, LayoutKind::Scroll);
    let (mut mgr, space, screen) = scrolled(&config);
    mgr.mgr.update_viewport_for_focus(&mut mgr.link, space, screen, &config);
    let plain = mgr.mgr.calculate_layout(&mut mgr.link, space, screen, &config);
    let (frames, _) = mgr.mgr.calculate_layout_and_groups(&mut mgr.link, space, screen, &config);
    assert_eq!(plain.len(), 3);
    assert_eq!(frames, plain);
}

#[test]
fn an_update_that_comes_again_changes_nothing() {
    let (mut mgr, space, screen) = tiled(2);
    _ = mgr.handle_event(WindowsOnScreenUpdated(space, 2, layout_windows(2, 1)));
    let mut floating = win_info();
    floating.is_standard = false;
    let mut untracked = win_info();
    untracked.layer = Some(3);
    let update = || {
        WindowsOnScreenUpdated(
            space,
            1,
            vec![
                (WindowId::new(1, 2), untracked.clone()),
                (WindowId::new(1, 4), floating.clone()),
                (WindowId::new(1, 5), win_info()),
                (WindowId::new(1, 6), untracked.clone()),
            ],
        )
    };
    for _ in 0..2 {
        assert_eq!(
            mgr.handle_event(update()).raise_windows,
            Vec::<WindowId>::new()
        );
        let laid_out: Vec<_> =
            mgr.layout_sorted(space, screen).iter().map(|(wid, _)| *wid).collect();
        assert_eq!(
            laid_out,
            vec![WindowId::new(1, 2), WindowId::new(1, 5), WindowId::new(2, 1)]
        );
        assert_eq!(*mgr.mgr.floating_windows.items(), wids(1, &[4]));
        assert_eq!(mgr.mgr.debug_tree(space).floating, wids(1, &[4]));
    }
}

#[test]
fn an_update_of_a_scroll_layout_that_comes_again_changes_nothing() {
    let config = config_with_scroll(true, LayoutKind::Scroll);
    let (mut mgr, space, screen) = scrolled(&config);
    _ = mgr.handle_event(WindowsOnScreenUpdated(space, 1, layout_windows(1, 4)));
    let before = mgr.layout_sorted(space, screen);
    assert_eq!(before.len(), 4);
    _ = mgr.handle_event(WindowsOnScreenUpdated(space, 1, layout_windows(1, 4)));
    assert_eq!(mgr.layout_sorted(space, screen), before);
}

#[test]
fn laying_out_again_moves_nothing() {
    let (mut rig, _) = started(2);
    let new = WindowId::new(1, 3);
    rig.handle_event(Event::WindowCreated(new, make_window(3), MouseState::Down));
    rig.handle_event(Event::WindowBecameVisible(new));
    assert!(rig.requests().is_empty());
    rig.reactor.update_layout(&mut rig.link, &[new], true);
    assert_eq!(rig.requests().len(), 3);
    let known: Vec<_> = (1..=3)
        .map(|idx| {
            let window = rig.reactor.windows.get(WindowId::new(1, idx)).unwrap();
            (window.frame_monotonic, window.last_sent_txid)
        })
        .collect();

    for skip_anim in [false, true] {
        rig.reactor.update_layout(&mut rig.link, &wids(1, &[1, 2]), skip_anim);
        assert!(rig.requests().is_empty());
        assert!(rig.world.borrow().animations.is_empty());
    }
    let again: Vec<_> = (1..=3)
        .map(|idx| {
            let window = rig.reactor.windows.get(WindowId::new(1, idx)).unwrap();
            (window.frame_monotonic, window.last_sent_txid)
        })
        .collect();
    assert_eq!(again, known);
}

#[test]
fn known_windows_that_are_named_make_no_difference() {
    let screen = rect(0, 0, 1000, 1000);
    let mut outcomes = vec![];
    for known_visible in [vec![], wids(1, &[1]), wids(1, &[1, 2])] {
        let (mut rig, _) = started(2);
        _ = rig.requests();
        let new = vec![(WindowId::new(1, 3), make_window(3))];
        rig.reactor.on_windows_discovered(&mut rig.link, 1, new, known_visible);
        outcomes.push((
            rig.calculate_layout(space1(), screen),
            rig.reactor.windows.contains_key(WindowId::new(1, 3)),
            rig.requests(),
        ));
    }
    // The windows that were tiled stay so.
    let tiled: Vec<_> = outcomes[0].0.iter().map(|(wid, _)| *wid).collect();
    assert_eq!(tiled, wids(1, &[1, 2]));
    assert!(outcomes[0].1);
    assert_eq!(outcomes[1], outcomes[0]);
    assert_eq!(outcomes[2], outcomes[0]);
}

#[test]
fn events_and_responses_can_be_copied_and_compared() {
    let event = WindowAdded(SpaceId::new(1), WindowId::new(1, 2), win_info());
    assert_eq!(event, WindowAdded(SpaceId::new(1), WindowId::new(1, 2), win_info().clone()));
    let mut other = win_info();
    other.layer = Some(1);
    assert!(event != WindowAdded(SpaceId::new(1), WindowId::new(1, 2), other));
    let response =
        EventResponse { raise_windows: wids(1, &[1]), focus_window: Some(WindowId::new(1, 2)) };
    let copy = response.clone();
    assert_eq!(copy.raise_windows, response.raise_windows);
    assert_eq!(copy.focus_window, response.focus_window);
}

/// The focus after each of some turns of the wheel, and the selected window at the end.
fn turned_through(invert: bool, turns: &[f64]) -> (Vec<Option<WindowId>>, Option<WindowId>) {
    let mut config = config_with_scroll(true, LayoutKind::Scroll);
    config.scroll.invert_scroll_direction = invert;
    let (mut mgr, space, _) = scrolled(&config);
    let focused =
        turns.iter().map(|by| turn(&mut mgr, space, *by, &config.scroll).focus_window).collect();
    (focused, mgr.selected_window(space))
}

#[test]
fn an_inverted_wheel_does_what_the_opposite_turn_does() {
    let turns = [1.0, 2.0, -1.0, 300.0, 40.5, -700.25, 9.0, -9.0];
    let opposite: Vec<f64> = turns.iter().map(|by| -by).collect();
    let (focused, selected) = turned_through(true, &turns);
    assert_eq!(focused[0], Some(WindowId::new(1, 2)));
    assert_eq!(turned_through(false, &opposite), (focused, selected));
}

#[test]
fn the_size_of_a_notch_makes_no_difference() {
    let third = Some(WindowId::new(1, 3));
    let expected = (vec![Some(WindowId::new(1, 2)), third], third);
    for size in 1..=9 {
        assert_eq!(turned_through(false, &[-(size as f64), -1.0]), expected);
        assert_eq!(turned_through(true, &[size as f64, 1.0]), expected);
    }
    // Ten is no notch any more.
    assert_eq!(turned_through(false, &[-10.0]).0, vec![None]);
}

#[test]
fn a_move_goes_on_near_its_start_once_it_was_far() {
    let config = config_with_scroll(true, LayoutKind::Scroll);
    let (mut mgr, space, screen) = scrolled(&config);
    let start = point(496.0, 300.0);
    let held = WindowId::new(1, 1);
    let p = point(100.0, 300.0);
    let (_, node) =
        mgr.mgr.hit_test_scroll_window(&mut mgr.link, space, p, screen, &config).unwrap();
    assert!(mgr.mgr.begin_interactive_move(space, held, node, start));
    let mut go = |mgr: &mut Manager, x: f64| {
        mgr.mgr.update_interactive_move(&mut mgr.link, point(x, 300.0), screen, &config)
    };
    let tiled_in = |mgr: &mut Manager| -> Vec<WindowId> {
        mgr.calculate_layout(space, screen).iter().map(|(wid, _)| *wid).collect()
    };

    // Over the next window already, but too near the start.
    assert!(!go(&mut mgr, 504.0));
    assert!(!go(&mut mgr, 505.0));
    assert_eq!(tiled_in(&mut mgr), wids(1, &[1, 2, 3]));
    // Far enough, over itself.
    assert!(!go(&mut mgr, 400.0));
    assert_eq!(tiled_in(&mut mgr), wids(1, &[1, 2, 3]));
    // As near as before, and it trades places now.
    assert!(go(&mut mgr, 504.0));
    assert_eq!(tiled_in(&mut mgr), wids(1, &[2, 1, 3]));
    assert!(!go(&mut mgr, 505.0));
    assert!(mgr.mgr.interactive_move.unwrap().drag_active);
    assert_eq!(mgr.mgr.interactive_move.unwrap().window_id, held);
    assert_eq!(tiled_in(&mut mgr), wids(1, &[2, 1, 3]));
}
