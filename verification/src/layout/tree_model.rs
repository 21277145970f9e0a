//! What a layout tree does, as far as the laws that speak of tiled windows need it.
//!
//! No function of the library relies on this: the laws say what holds with a host
//! whose answers are those of such a tree.

use vstd::prelude::*;

use crate::ids::{LayoutId, LayoutKind, NodeId, SpaceId, WindowId};
use crate::link::{Call, Log, Req};

verus! {

/// The layouts, and the windows that they tile.
#[verifier::ext_equal]
pub struct Tree {
    pub tiled: Map<LayoutId, Set<WindowId>>,
    /// The layouts that scroll.
    pub scroll: Set<LayoutId>,
    pub roots: Map<LayoutId, NodeId>,
    /// The nodes that stand for windows.
    pub windows: Map<NodeId, WindowId>,
    /// The layout that a node is in.
    pub homes: Map<NodeId, LayoutId>,
    /// The selected node of each layout.
    pub selected: Map<LayoutId, NodeId>,
    /// The windows of each layout, in the order in which a walk comes by them.
    pub order: Map<LayoutId, Seq<WindowId>>,
    /// The columns of each layout that scrolls, each with its windows.
    pub columns: Map<LayoutId, Seq<Seq<WindowId>>>,
}

impl Tree {
    /// The window that a node stands for.
    pub open spec fn window_at(self, node: NodeId) -> Option<WindowId> {
        if self.windows.contains_key(node) {
            Some(self.windows[node])
        } else {
            None
        }
    }

    /// Whether a node of a layout stands for a window.
    pub open spec fn is_window_in(self, layout: LayoutId, node: NodeId, wid: WindowId) -> bool {
        &&& self.window_at(node) == Some(wid)
        &&& self.homes.contains_key(node)
        &&& self.homes[node] == layout
    }
}

/// The nodes stand for the windows, and for no others.
pub open spec fn stand_for(tree: Tree, nodes: Seq<NodeId>, wids: Set<WindowId>) -> bool {
    forall|wid: WindowId| #[trigger]
        wids.contains(wid) <==> exists|i: int|
            0 <= i < nodes.len() && tree.window_at(#[trigger] nodes[i]) == Some(wid)
}

/// The windows that the nodes stand for, in order.
pub open spec fn windows_along(tree: Tree, nodes: Seq<NodeId>) -> Seq<WindowId>
    decreases nodes.len(),
{
    if nodes.len() == 0 {
        Seq::empty()
    } else {
        let before = windows_along(tree, nodes.drop_last());
        match tree.window_at(nodes.last()) {
            Some(wid) => before.push(wid),
            None => before,
        }
    }
}

/// Whether one of the columns holds a window.
pub open spec fn in_columns(columns: Seq<Seq<WindowId>>, wid: WindowId) -> bool {
    exists|i: int| 0 <= i < columns.len() && (#[trigger] columns[i]).contains(wid)
}

/// The columns that do not hold a window are not changed when it goes.
pub open spec fn left_columns(a: Tree, wid: WindowId, b: Tree) -> bool {
    forall|layout: LayoutId| #[trigger]
        a.columns.contains_key(layout) && !in_columns(a.columns[layout], wid)
            ==> b.columns.contains_key(layout) && b.columns[layout] == a.columns[layout]
}

/// A window goes into a column of its own, behind the others, exactly if a new column is
/// asked for or there is none yet. Otherwise it goes into one that there is.
pub open spec fn put_in_column(
    a: Tree,
    layout: LayoutId,
    wid: WindowId,
    new_column: bool,
    b: Tree,
) -> bool {
    let columns = a.columns[layout];
    if new_column || columns.len() == 0 {
        b.columns == a.columns.insert(layout, columns.push(seq![wid]))
    } else {
        exists|i: int|
            0 <= i < columns.len() && b.columns == a.columns.insert(
                layout,
                columns.update(i, (#[trigger] columns[i]).push(wid)),
            )
    }
}

/// The layouts tile the same windows, and scroll or not, as before.
pub open spec fn tiles_alike(a: Tree, b: Tree) -> bool {
    b.tiled == a.tiled && b.scroll == a.scroll
}

/// There is one layout more, which tiles nothing yet.
pub open spec fn layout_made(a: Tree, layout: LayoutId, scroll: bool, b: Tree) -> bool {
    &&& !a.tiled.contains_key(layout)
    &&& b.tiled == a.tiled.insert(layout, Set::empty())
    &&& b.scroll == if scroll {
        a.scroll.insert(layout)
    } else {
        a.scroll.remove(layout)
    }
}

/// A layout tiles one window more.
pub open spec fn window_tiled(a: Tree, layout: LayoutId, wid: WindowId, b: Tree) -> bool {
    &&& b.tiled == a.tiled.insert(layout, a.tiled[layout].insert(wid))
    &&& b.scroll == a.scroll
}

/// A node is selected. If it stands for a window, it is its layout's selection then.
pub open spec fn node_selected(a: Tree, node: NodeId, b: Tree) -> bool {
    &&& b == Tree { selected: b.selected, ..a }
    &&& a.windows.contains_key(node) && a.homes.contains_key(node) ==> b.selected
        == a.selected.insert(a.homes[node], node)
}

/// Two nodes of one layout trade their windows.
pub open spec fn windows_traded(a: Tree, x: NodeId, y: NodeId, b: Tree) -> bool {
    a.windows.contains_key(x) && a.windows.contains_key(y) && a.homes.contains_key(x)
        && a.homes.contains_key(y) && a.homes[x] == a.homes[y] ==> b == Tree {
        windows: a.windows.insert(x, a.windows[y]).insert(y, a.windows[x]),
        ..a
    }
}

/// Of the windows of an application, a layout tiles those of a list.
pub open spec fn app_tiled(
    a: Tree,
    layout: LayoutId,
    pid: i32,
    wids: Seq<WindowId>,
    b: Tree,
) -> bool {
    &&& b.scroll == a.scroll
    &&& (forall|i: int| 0 <= i < wids.len() ==> (#[trigger] wids[i]).pid == pid) ==> b.tiled
        == a.tiled.insert(
        layout,
        Set::new(
            |wid: WindowId|
                if wid.pid == pid {
                    wids.contains(wid)
                } else {
                    a.tiled[layout].contains(wid)
                },
        ),
    )
}

/// A layout tree answers a request, and is `b` afterwards. Of requests that no law
/// needs, nothing is said.
pub open spec fn acts_as_tree(a: Tree, call: Call, b: Tree) -> bool {
    match call.req {
        Req::IsScrollLayout(layout) => {
            b == a && (a.tiled.contains_key(layout) ==> call.rep->Flag_0 == a.scroll.contains(layout))
        },
        Req::LayoutKind(layout) => {
            b == a && (a.tiled.contains_key(layout) ==> (call.rep->Kind_0 == LayoutKind::Scroll)
                == a.scroll.contains(layout))
        },
        Req::Root(layout) => {
            b == a && (a.tiled.contains_key(layout) ==> call.rep->Node_0 == a.roots[layout])
        },
        Req::TraversePostorder(node) => {
            &&& b == a
            &&& forall|layout: LayoutId| #[trigger]
                a.tiled.contains_key(layout) && a.roots[layout] == node ==> stand_for(
                    a,
                    call.rep->Nodes_0,
                    a.tiled[layout],
                )
        },
        Req::WindowAt(node) => b == a && call.rep->MaybeWindow_0 == a.window_at(node),
        Req::WindowNode(layout, wid) => {
            &&& b == a
            &&& a.tiled.contains_key(layout) ==> (call.rep->MaybeNode_0 is Some)
                == a.tiled[layout].contains(wid)
            &&& call.rep->MaybeNode_0 is Some ==> a.is_window_in(
                layout,
                call.rep->MaybeNode_0->0,
                wid,
            )
        },
        Req::Selection(layout) => {
            b == a && (a.selected.contains_key(layout) ==> call.rep->Node_0 == a.selected[layout])
        },
        Req::Select(node) => node_selected(a, node, b),
        Req::VisibleWindowsUnder(_) => tiles_alike(a, b),
        Req::CalculateLayout(_, _, _) | Req::ContainsPoint(_, _) => b == a,
        Req::IsInView(_, _) | Req::OffsetRect(_, _) => b == a,
        Req::Binary(_, _, _) | Req::Unary(_, _) | Req::Less(_, _) | Req::Equal(_, _) => b == a,
        Req::SwapWindows(x, y) => windows_traded(a, x, y, b),
        Req::CloseViewport(_) | Req::StopUserScrolling(_) => tiles_alike(a, b),
        Req::OverlapArea(_, _) => tiles_alike(a, b),
        Req::CreateLayout => layout_made(a, call.rep->Layout_0, false, b),
        Req::CreateScrollLayout => layout_made(a, call.rep->Layout_0, true, b),
        Req::OpenSpace(_, _, kind) => layout_made(
            a,
            call.rep->Layout_0,
            kind == LayoutKind::Scroll,
            b,
        ),
        Req::ActivateSize(_, _) => b.tiled.contains_key(call.rep->Layout_0),
        Req::ReplaceActiveLayout(_, layout) => {
            tiles_alike(a, b) && call.rep->Layout_0 == layout
        },
        Req::RemoveWindow(wid) => {
            &&& b.tiled == a.tiled.map_values(|wids: Set<WindowId>| wids.remove(wid))
            &&& b.scroll == a.scroll
        },
        Req::AddWindowAfter(layout, _, wid) => {
            window_tiled(a, layout, wid, b) && b.is_window_in(layout, call.rep->Node_0, wid)
        },
        Req::AddWindowToScrollColumn(layout, wid, _, _) => window_tiled(a, layout, wid, b),
        Req::SetWindowsForApp(layout, pid, wids) => app_tiled(a, layout, pid, wids, b),
        _ => true,
    }
}

/// From place `from` on, the answers are those of a layout tree: `trees` has the
/// tree before each request, and the one after the last.
pub open spec fn is_tree(trees: Seq<Tree>, log: Log, from: int) -> bool {
    &&& trees.len() == log.len() + 1
    &&& forall|i: int|
        from <= i < log.len() ==> acts_as_tree(trees[i], #[trigger] log[i], trees[i + 1])
}

/// The same, where the tree also keeps its windows in order: a walk comes by them in the order
/// that they have, and the columns of a layout that scrolls change only as windows come and go.
pub open spec fn acts_in_order(a: Tree, call: Call, b: Tree) -> bool {
    &&& acts_as_tree(a, call, b)
    &&& match call.req {
        Req::TraversePostorder(node) => {
            forall|layout: LayoutId| #[trigger]
                a.tiled.contains_key(layout) && a.roots[layout] == node ==> windows_along(
                    a,
                    call.rep->Nodes_0,
                ) == a.order[layout]
        },
        Req::CreateLayout | Req::CreateScrollLayout | Req::OpenSpace(_, _, _) => {
            b.columns == a.columns.insert(call.rep->Layout_0, Seq::empty())
        },
        Req::CloseViewport(_) | Req::StopUserScrolling(_) | Req::ReplaceActiveLayout(_, _) => {
            b == a
        },
        Req::RemoveWindow(wid) => left_columns(a, wid, b),
        Req::AddWindowToScrollColumn(layout, wid, new_column, _) => {
            put_in_column(a, layout, wid, new_column, b)
        },
        _ => true,
    }
}

/// From place `from` on, the answers are those of a layout tree that keeps its windows in order.
pub open spec fn is_ordered_tree(trees: Seq<Tree>, log: Log, from: int) -> bool {
    &&& trees.len() == log.len() + 1
    &&& forall|i: int|
        from <= i < log.len() ==> acts_in_order(trees[i], #[trigger] log[i], trees[i + 1])
}

/// No window is tiled in two spaces.
pub open spec fn tiled_once(spaces: Map<SpaceId, LayoutId>, tree: Tree) -> bool {
    forall|a: SpaceId, b: SpaceId, wid: WindowId|
        a != b && spaces.contains_key(a) && spaces.contains_key(b) ==> !(
        #[trigger] tree.tiled[spaces[a]].contains(wid)
            && #[trigger] tree.tiled[spaces[b]].contains(wid))
}

/// The layouts of all spaces are in the tree.
pub open spec fn all_in_tree(spaces: Map<SpaceId, LayoutId>, tree: Tree) -> bool {
    forall|space: SpaceId| #[trigger]
        spaces.contains_key(space) ==> tree.tiled.contains_key(spaces[space])
}

} // verus!
