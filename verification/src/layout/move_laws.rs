//! What holds over a whole move with the mouse.

use vstd::prelude::*;

use crate::config::Config;
use crate::ids::{Frame, NodeId, Point, Real, SpaceId, WindowId};
use crate::layout::interactive::{
    barely_moved, drag_started, dragged, move_begun, move_followed, no_target, places_traded,
    target_found, target_tried,
};
use crate::layout::state::{InteractiveScrollMove, State};
use crate::layout::tree_model::{acts_as_tree, is_tree, Tree};
use crate::link::{answer, ask, grew, is_sum, sums_answered_by, Binary, Log, Rep, Req, Unary};

verus! {

/// One update of a move: the mouse is at a place, and what comes of it.
pub struct Update {
    pub s: State,
    pub l: Log,
    pub mouse: Point,
    pub screen: Frame,
    pub config: Config,
    pub s2: State,
    pub l2: Log,
    pub changed: bool,
}

impl Update {
    /// The layout manager has heard of the update.
    pub open spec fn followed(self) -> bool {
        move_followed(
            self.s,
            self.l,
            self.mouse,
            self.screen,
            self.config,
            self.s2,
            self.l2,
            self.changed,
        )
    }

    /// The move is at `next` where it was left. Other things may have happened in between.
    pub open spec fn goes_on_with(self, next: Update) -> bool {
        next.s.moving == self.s2.moving
    }

    /// Nothing has happened before `next`.
    pub open spec fn is_right_before(self, next: Update) -> bool {
        next.s == self.s2 && next.l == self.l2
    }
}

/// Updates of one move, in order.
pub open spec fn one_move(updates: Seq<Update>) -> bool {
    &&& forall|i: int| 0 <= i < updates.len() ==> (#[trigger] updates[i]).followed()
    &&& forall|i: int, j: int|
        0 <= i < updates.len() && j == i + 1 && j < updates.len()
            ==> #[trigger] updates[i].goes_on_with(updates[j])
}

/// Updates with nothing in between.
pub open spec fn at_once(updates: Seq<Update>) -> bool {
    forall|i: int, j: int|
        0 <= i < updates.len() && j == i + 1 && j < updates.len()
            ==> #[trigger] updates[i].is_right_before(updates[j])
}

/// Whether two points are far enough apart for a window to follow the mouse.
pub open spec fn far(sums: spec_fn(Req) -> Rep, from: Point, to: Point) -> bool {
    let dx = sums(Req::Binary(Binary::Subtract, to.x, from.x))->Number_0;
    let dy = sums(Req::Binary(Binary::Subtract, to.y, from.y))->Number_0;
    let xx = sums(Req::Binary(Binary::Multiply, dx, dx))->Number_0;
    let yy = sums(Req::Binary(Binary::Multiply, dy, dy))->Number_0;
    let square = sums(Req::Binary(Binary::Add, xx, yy))->Number_0;
    let distance = sums(Req::Unary(Unary::Sqrt, square))->Number_0;
    !sums(Req::Less(distance, Real(0x4024_0000_0000_0000)))->Flag_0
}

/// One of the first `n` updates was far from where the move began.
pub open spec fn went_far(
    sums: spec_fn(Req) -> Rep,
    start: Point,
    updates: Seq<Update>,
    n: int,
) -> bool {
    exists|j: int| 0 <= j < n && far(sums, start, (#[trigger] updates[j]).mouse)
}

/// Whether a request only asks.
pub open spec fn only_asks(req: Req) -> bool {
    ||| is_sum(req)
    ||| req is CalculateLayout
    ||| req is IsInView
    ||| req is OffsetRect
    ||| req is ContainsPoint
    ||| req is WindowNode
}

/// From place `from` up to place `to`, nothing was done but asked.
pub open spec fn only_asked(log: Log, from: int, to: int) -> bool {
    forall|i: int| from <= i < to ==> only_asks((#[trigger] log[i]).req)
}

/// From place `from` on, nothing was asked but sums.
pub open spec fn only_summed(log: Log, from: int) -> bool {
    forall|i: int| from <= i < log.len() ==> is_sum((#[trigger] log[i]).req)
}

/// A frame that was tested for the mouse is that of a window, or where the viewport shows
/// that.
pub open spec fn is_shown_at(held: InteractiveScrollMove, frame: Frame, l2: Log, at: int) -> bool {
    ||| l2[at].req->ContainsPoint_0 == frame
    ||| {
        &&& l2[at - 1].req == Req::OffsetRect(held.layout_id, frame)
        &&& l2[at].req->ContainsPoint_0 == l2[at - 1].rep->Rect_0
    }
}

/// The window that is held traded places with another one of the layout, which is under
/// the mouse; all else was asked only. `target` is the other's node, and `entry` says which
/// window it is and where the layout has it.
pub open spec fn traded_with(
    held: InteractiveScrollMove,
    mouse: Point,
    l: Log,
    l2: Log,
    target: NodeId,
    entry: (WindowId, Frame),
) -> bool {
    let n = l2.len() as int;
    &&& grew(l, l2)
    &&& n >= l.len() + 4
    &&& only_asked(l2, l.len() as int, n - 1)
    &&& exists|i: int|
        l.len() <= i < n - 3 && (#[trigger] l2[i]).req is CalculateLayout
            && l2[i].req->CalculateLayout_0 == held.layout_id && l2[i].rep->Frames_0.contains(entry)
    &&& is_shown_at(held, entry.1, l2, n - 3)
    &&& l2[n - 3].req is ContainsPoint
    &&& l2[n - 3].req->ContainsPoint_1 == mouse
    &&& l2[n - 3].rep->Flag_0
    &&& l2[n - 2].req == Req::WindowNode(held.layout_id, entry.0)
    &&& l2[n - 2].rep->MaybeNode_0 == Some(target)
    &&& l2[n - 1].req == Req::SwapWindows(held.window_node, target)
    &&& entry.0 != held.window_id
}

proof fn lemma_barely(
    sums: spec_fn(Req) -> Rep,
    l: Log,
    from: Point,
    to: Point,
    l2: Log,
    barely: bool,
    whole: Log,
)
    requires
        barely_moved(l, from, to, l2, barely),
        grew(l2, whole),
        sums_answered_by(sums, whole, l.len() as int),
    ensures
        barely == !far(sums, from, to),
{
    let n = l.len() as int;
    assert(l2.len() == n + 7);
    assert(whole[n] == l2[n] && is_sum(l2[n].req));
    assert(whole[n + 1] == l2[n + 1] && is_sum(l2[n + 1].req));
    assert(whole[n + 2] == l2[n + 2] && is_sum(l2[n + 2].req));
    assert(whole[n + 3] == l2[n + 3] && is_sum(l2[n + 3].req));
    assert(whole[n + 4] == l2[n + 4] && is_sum(l2[n + 4].req));
    assert(whole[n + 5] == l2[n + 5] && is_sum(l2[n + 5].req));
    assert(whole[n + 6] == l2[n + 6] && is_sum(l2[n + 6].req));
}

proof fn lemma_barely_grows(l: Log, from: Point, to: Point, l2: Log, barely: bool)
    requires
        barely_moved(l, from, to, l2, barely),
    ensures
        grew(l, l2),
        only_summed(l2, l.len() as int),
{
}

proof fn lemma_target_tried(
    l: Log,
    seen: bool,
    held: InteractiveScrollMove,
    mouse: Point,
    entry: (WindowId, Frame),
    l2: Log,
    target: Option<NodeId>,
)
    requires
        target_tried(l, seen, held, mouse, entry, l2, target),
    ensures
        grew(l, l2),
        only_asked(l2, l.len() as int, l2.len() as int),
        target is Some ==> {
            let n = l2.len() as int;
            &&& n >= l.len() + 2
            &&& is_shown_at(held, entry.1, l2, n - 2)
            &&& l2[n - 2].req is ContainsPoint
            &&& l2[n - 2].req->ContainsPoint_1 == mouse
            &&& l2[n - 2].rep->Flag_0
            &&& l2[n - 1].req == Req::WindowNode(held.layout_id, entry.0)
            &&& l2[n - 1].rep->MaybeNode_0 == target
            &&& entry.0 != held.window_id
        },
{
    let layout = held.layout_id;
    let v1 = ask(l, l2, Req::IsInView(layout, entry.1));
    let v2 = ask(v1, l2, Req::OffsetRect(layout, entry.1));
    let (t, frame) = if seen {
        (v2, answer(v2)->Rect_0)
    } else {
        (l, entry.1)
    };
    let t1 = ask(t, l2, Req::ContainsPoint(frame, mouse));
    let t2 = ask(t1, l2, Req::WindowNode(layout, entry.0));
    if target is Some {
        assert(l2 == t2);
        assert(t2[t2.len() - 2] == t1[t1.len() - 1]);
        if seen {
            assert(l2[l2.len() - 3] == v2[v2.len() - 1]);
        }
    }
}

proof fn lemma_no_target(
    l: Log,
    seen: bool,
    held: InteractiveScrollMove,
    mouse: Point,
    frames: Seq<(WindowId, Frame)>,
    l2: Log,
)
    requires
        no_target(l, seen, held, mouse, frames, l2),
    ensures
        grew(l, l2),
        only_asked(l2, l.len() as int, l2.len() as int),
    decreases frames.len(),
{
    if frames.len() > 0 {
        let t = choose|t: Log|
            no_target(l, seen, held, mouse, frames.drop_last(), t) && #[trigger] target_tried(
                t,
                seen,
                held,
                mouse,
                frames.last(),
                l2,
                None,
            );
        lemma_no_target(l, seen, held, mouse, frames.drop_last(), t);
        lemma_target_tried(t, seen, held, mouse, frames.last(), l2, None);
        lemma_asked_on(l, t, l2, l2.len() as int);
    }
}

proof fn lemma_asked_on(l: Log, t: Log, l2: Log, to: int)
    requires
        grew(l, t),
        grew(t, l2),
        only_asked(t, l.len() as int, t.len() as int),
        only_asked(l2, t.len() as int, to),
        to <= l2.len(),
    ensures
        only_asked(l2, l.len() as int, to),
{
    assert forall|i: int| l.len() <= i < to implies only_asks((#[trigger] l2[i]).req) by {
        if i < t.len() {
            assert(l2[i] == t[i]);
        }
    }
}

/// What a drag does: it asks, and trades places if it changes anything.
proof fn lemma_dragged(
    s: State,
    l: Log,
    held: InteractiveScrollMove,
    mouse: Point,
    screen: Frame,
    config: Config,
    s2: State,
    l2: Log,
    changed: bool,
)
    requires
        dragged(s, l, held, mouse, screen, config, s2, l2, changed),
    ensures
        grew(l, l2),
        s2 == (State { moving: s2.moving, ..s }),
        !changed ==> only_asked(l2, l.len() as int, l2.len() as int) && s2.moving == Some(held),
        changed ==> s2.moving is Some && s2.moving == Some(
            InteractiveScrollMove { window_node: s2.moving->0.window_node, ..held },
        ) && exists|entry: (WindowId, Frame)| #[trigger]
            traded_with(held, mouse, l, l2, s2.moving->0.window_node, entry),
{
    let t = ask(l, l2, Req::CalculateLayout(held.layout_id, screen, config.id));
    let frames = answer(t)->Frames_0;
    let seen = s.viewports.contains(held.layout_id);
    assert(places_traded(s, t, held, mouse, frames, s2, l2, changed));
    if changed {
        let (u, n, target) = choose|u: Log, n: int, target: NodeId|
            {
                &&& #[trigger] target_found(t, seen, held, mouse, frames, n, u, target)
                &&& l2 == ask(u, l2, Req::SwapWindows(held.window_node, target))
                &&& s2 == State {
                    moving: Some(InteractiveScrollMove { window_node: target, ..held }),
                    ..s
                }
            };
        let v = choose|v: Log| #[trigger]
            no_target(t, seen, held, mouse, frames.take(n), v) && target_tried(
                v,
                seen,
                held,
                mouse,
                frames[n],
                u,
                Some(target),
            );
        lemma_no_target(t, seen, held, mouse, frames.take(n), v);
        lemma_target_tried(v, seen, held, mouse, frames[n], u, Some(target));
        assert(grew(u, l2));
        assert(grew(t, u));
        assert(only_asked(t, l.len() as int, t.len() as int));
        lemma_asked_on(t, v, u, u.len() as int);
        lemma_asked_on(l, t, u, u.len() as int);
        assert forall|i: int| l.len() <= i < l2.len() - 1 implies only_asks(
            (#[trigger] l2[i]).req,
        ) by {
            assert(l2[i] == u[i]);
        }
        let m = u.len() as int;
        assert(l2[m - 1] == u[m - 1] && l2[m - 2] == u[m - 2] && l2[m - 3] == u[m - 3]);
        assert(is_shown_at(held, frames[n].1, l2, m - 2));
        let c = l.len() as int;
        assert(l2[c] == t[c]);
        assert(l2[c].rep->Frames_0.contains(frames[n]));
        assert(traded_with(held, mouse, l, l2, target, frames[n]));
    } else {
        lemma_no_target(t, seen, held, mouse, frames, l2);
        assert(only_asked(t, l.len() as int, t.len() as int));
        lemma_asked_on(l, t, l2, l2.len() as int);
    }
}

/// What one update of a move does.
proof fn lemma_update(u: Update, sums: spec_fn(Req) -> Rep)
    requires
        u.followed(),
        u.s.moving is Some,
        sums_answered_by(sums, u.l2, u.l.len() as int),
    ensures
        ({
            let held = u.s.moving->0;
            let begun = held.drag_active || far(sums, held.start_mouse, u.mouse);
            let now = u.s2.moving->0;
            &&& grew(u.l, u.l2)
            &&& u.s2 == State { moving: u.s2.moving, ..u.s }
            &&& u.s2.moving is Some
            &&& now == InteractiveScrollMove {
                drag_active: begun,
                window_node: now.window_node,
                ..held
            }
            &&& !begun ==> !u.changed && u.s2 == u.s && only_summed(u.l2, u.l.len() as int)
            &&& !u.changed ==> now.window_node == held.window_node && only_asked(
                u.l2,
                u.l.len() as int,
                u.l2.len() as int,
            )
            &&& u.changed ==> exists|entry: (WindowId, Frame)| #[trigger]
                traded_with(held, u.mouse, u.l, u.l2, now.window_node, entry)
        }),
{
    let held = u.s.moving->0;
    if held.drag_active {
        lemma_dragged(u.s, u.l, held, u.mouse, u.screen, u.config, u.s2, u.l2, u.changed);
    } else {
        let active = InteractiveScrollMove { drag_active: true, ..held };
        assert(drag_started(
            u.s,
            u.l,
            held,
            u.mouse,
            u.screen,
            u.config,
            u.s2,
            u.l2,
            u.changed,
        ));
        let (t, barely) = choose|t: Log, barely: bool|
            {
                &&& #[trigger] barely_moved(u.l, held.start_mouse, u.mouse, t, barely)
                &&& if barely {
                    u.s2 == u.s && u.l2 == t && !u.changed
                } else {
                    dragged(
                        u.s,
                        t,
                        InteractiveScrollMove { drag_active: true, ..held },
                        u.mouse,
                        u.screen,
                        u.config,
                        u.s2,
                        u.l2,
                        u.changed,
                    )
                }
            };
        lemma_barely_grows(u.l, held.start_mouse, u.mouse, t, barely);
        if !barely {
            lemma_dragged(u.s, t, active, u.mouse, u.screen, u.config, u.s2, u.l2, u.changed);
            assert(only_asked(t, u.l.len() as int, t.len() as int));
            if u.changed {
                let target = u.s2.moving->0.window_node;
                let entry = choose|entry: (WindowId, Frame)| #[trigger]
                    traded_with(active, u.mouse, t, u.l2, target, entry);
                lemma_asked_on(u.l, t, u.l2, u.l2.len() - 1);
                assert(traded_with(held, u.mouse, u.l, u.l2, target, entry));
            } else {
                lemma_asked_on(u.l, t, u.l2, u.l2.len() as int);
            }
        }
        lemma_barely(sums, u.l, held.start_mouse, u.mouse, t, barely, u.l2);
    }
}

/// A move with the mouse, from where a window was taken hold of, over any number of
/// updates:
///
/// - Until one update is far enough from the start, each has the result that nothing
///   changed, leaves the state as it was, and asks for sums only.
/// - From then on the window is being dragged, however near the start the mouse comes.
/// - An update whose result is that nothing changed asks only.
/// - One whose result is that something changed lets the held window trade places with
///   the window of the layout that the mouse is over, and asks otherwise.
///
/// `sums` is what comes of the sums that the host is asked for.
pub proof fn law_move_drags_once_far(
    s: State,
    space: SpaceId,
    wid: WindowId,
    node: NodeId,
    start: Point,
    updates: Seq<Update>,
    k: int,
    sums: spec_fn(Req) -> Rep,
)
    requires
        s.resizing is None,
        s.moving is None,
        one_move(updates),
        0 <= k < updates.len(),
        updates[0].s.moving == move_begun(s, space, wid, node, start).moving,
        forall|i: int|
            0 <= i < updates.len() ==> sums_answered_by(
                sums,
                (#[trigger] updates[i]).l2,
                updates[i].l.len() as int,
            ),
    ensures
        ({
            let u = updates[k];
            let before = u.s.moving->0;
            let after = u.s2.moving->0;
            &&& u.s.moving is Some
            &&& u.s2.moving is Some
            &&& before.window_id == wid && after.window_id == wid
            &&& before.layout_id == s.spaces[space] && after.layout_id == s.spaces[space]
            &&& before.start_mouse == start && after.start_mouse == start
            &&& before.drag_active == went_far(sums, start, updates, k)
            &&& after.drag_active == went_far(sums, start, updates, k + 1)
            &&& u.s2 == State { moving: u.s2.moving, ..u.s }
            &&& !went_far(sums, start, updates, k + 1) ==> !u.changed && u.s2 == u.s
                && only_summed(u.l2, u.l.len() as int)
            &&& !u.changed ==> after.window_node == before.window_node && only_asked(
                u.l2,
                u.l.len() as int,
                u.l2.len() as int,
            )
            &&& u.changed ==> exists|entry: (WindowId, Frame)| #[trigger]
                traded_with(before, u.mouse, u.l, u.l2, after.window_node, entry)
        }),
    decreases k,
{
    let u = updates[k];
    if k > 0 {
        law_move_drags_once_far(s, space, wid, node, start, updates, k - 1, sums);
        assert(updates[k - 1].goes_on_with(updates[k]));
    } else {
        assert(!went_far(sums, start, updates, 0));
    }
    assert(u.followed());
    lemma_update(u, sums);
    if went_far(sums, start, updates, k + 1) && !went_far(sums, start, updates, k) {
        let j = choose|j: int| 0 <= j < k + 1 && far(sums, start, (#[trigger] updates[j]).mouse);
        assert(j == k);
    }
    if went_far(sums, start, updates, k) {
        let j = choose|j: int| 0 <= j < k && far(sums, start, (#[trigger] updates[j]).mouse);
        assert(0 <= j < k + 1 && far(sums, start, updates[j].mouse));
    }
    if far(sums, start, u.mouse) {
        assert(0 <= k < k + 1 && far(sums, start, updates[k].mouse));
    }
}

/// Asking leaves the tree as it is.
proof fn lemma_asking_keeps_tree(whole: Log, trees: Seq<Tree>, from: int, to: int)
    requires
        0 <= from <= to <= whole.len(),
        is_tree(trees, whole, from),
        only_asked(whole, from, to),
    ensures
        trees[to] == trees[from],
    decreases to - from,
{
    if to > from {
        lemma_asking_keeps_tree(whole, trees, from, to - 1);
        assert(only_asks(whole[to - 1].req));
        assert(acts_as_tree(trees[to - 1], whole[to - 1], trees[to]));
    }
}

/// The windows of two nodes of a layout, before and after they traded places.
pub open spec fn exchanged(
    a: Tree,
    held: InteractiveScrollMove,
    target: NodeId,
    other: WindowId,
    b: Tree,
) -> bool {
    &&& other != held.window_id
    &&& a.is_window_in(held.layout_id, held.window_node, held.window_id)
    &&& a.is_window_in(held.layout_id, target, other)
    &&& b.is_window_in(held.layout_id, target, held.window_id)
    &&& b.is_window_in(held.layout_id, held.window_node, other)
    &&& b == Tree { windows: b.windows, ..a }
    &&& forall|node: NodeId|
        node != target && node != held.window_node ==> #[trigger] b.window_at(node)
            == a.window_at(node)
}

/// One update on a tree.
proof fn lemma_update_on_tree(
    u: Update,
    sums: spec_fn(Req) -> Rep,
    whole: Log,
    trees: Seq<Tree>,
)
    requires
        u.followed(),
        u.s.moving is Some,
        sums_answered_by(sums, u.l2, u.l.len() as int),
        grew(u.l2, whole),
        is_tree(trees, whole, u.l.len() as int),
        trees[u.l.len() as int].is_window_in(
            u.s.moving->0.layout_id,
            u.s.moving->0.window_node,
            u.s.moving->0.window_id,
        ),
    ensures
        ({
            let a = trees[u.l.len() as int];
            let b = trees[u.l2.len() as int];
            let held = u.s.moving->0;
            let now = u.s2.moving->0;
            &&& !u.changed ==> b == a
            &&& u.changed ==> exists|other: WindowId| #[trigger]
                exchanged(a, held, now.window_node, other, b)
            &&& b.tiled == a.tiled
            &&& b.is_window_in(now.layout_id, now.window_node, now.window_id)
        }),
{
    lemma_update(u, sums);
    let held = u.s.moving->0;
    let target = u.s2.moving->0.window_node;
    let from = u.l.len() as int;
    let n = u.l2.len() as int;
    let a = trees[from];
    let b = trees[n];
    if u.changed {
        let entry = choose|entry: (WindowId, Frame)| #[trigger]
            traded_with(held, u.mouse, u.l, u.l2, target, entry);
        assert forall|i: int| from <= i < n - 1 implies only_asks((#[trigger] whole[i]).req) by {
            assert(whole[i] == u.l2[i]);
        }
        lemma_asking_keeps_tree(whole, trees, from, n - 1);
        lemma_asking_keeps_tree(whole, trees, from, n - 2);
        assert(whole[n - 2] == u.l2[n - 2]);
        assert(acts_as_tree(trees[n - 2], whole[n - 2], trees[n - 1]));
        assert(a.is_window_in(held.layout_id, target, entry.0));
        assert(whole[n - 1] == u.l2[n - 1]);
        assert(acts_as_tree(trees[n - 1], whole[n - 1], trees[n]));
        assert(exchanged(a, held, target, entry.0, b));
    } else {
        assert forall|i: int| from <= i < n implies only_asks((#[trigger] whole[i]).req) by {
            assert(whole[i] == u.l2[i]);
        }
        lemma_asking_keeps_tree(whole, trees, from, n);
    }
}

proof fn lemma_updates_grow(updates: Seq<Update>, k: int, n: int, sums: spec_fn(Req) -> Rep)
    requires
        one_move(updates),
        at_once(updates),
        0 <= k <= n < updates.len(),
        updates[k].s.moving is Some,
        forall|i: int|
            0 <= i < updates.len() ==> sums_answered_by(
                sums,
                (#[trigger] updates[i]).l2,
                updates[i].l.len() as int,
            ),
    ensures
        grew(updates[k].l, updates[n].l),
        grew(updates[k].l2, updates[n].l2),
        grew(updates[n].l, updates[n].l2),
        updates[n].s.moving is Some,
    decreases n - k,
{
    assert(updates[n].followed());
    if n > k {
        lemma_updates_grow(updates, k, n - 1, sums);
        assert(updates[n - 1].followed());
        lemma_update(updates[n - 1], sums);
        assert(updates[n - 1].is_right_before(updates[n]));
        lemma_update(updates[n], sums);
        assert(grew(updates[n - 1].l2, updates[n].l2));
    } else {
        lemma_update(updates[n], sums);
    }
}

/// Over a whole move the layouts tile the same windows throughout. An update whose result
/// is that nothing changed leaves the tree as it is. One whose result is that something
/// changed has exchanged the held window and another one, and nothing else. The held window
/// is always at the node that is noted for it. The host answers as a layout tree, and
/// nothing happens between the updates.
pub proof fn law_move_only_trades(
    updates: Seq<Update>,
    k: int,
    sums: spec_fn(Req) -> Rep,
    trees: Seq<Tree>,
)
    requires
        one_move(updates),
        at_once(updates),
        0 <= k < updates.len(),
        updates[0].s.moving is Some,
        forall|i: int|
            0 <= i < updates.len() ==> sums_answered_by(
                sums,
                (#[trigger] updates[i]).l2,
                updates[i].l.len() as int,
            ),
        is_tree(trees, updates.last().l2, updates[0].l.len() as int),
        trees[updates[0].l.len() as int].is_window_in(
            updates[0].s.moving->0.layout_id,
            updates[0].s.moving->0.window_node,
            updates[0].s.moving->0.window_id,
        ),
    ensures
        ({
            let u = updates[k];
            let a = trees[u.l.len() as int];
            let b = trees[u.l2.len() as int];
            let now = u.s2.moving->0;
            &&& u.s.moving is Some
            &&& u.s2.moving is Some
            &&& !u.changed ==> b == a
            &&& u.changed ==> exists|other: WindowId| #[trigger]
                exchanged(a, u.s.moving->0, now.window_node, other, b)
            &&& b.tiled == trees[updates[0].l.len() as int].tiled
            &&& b.is_window_in(now.layout_id, now.window_node, now.window_id)
        }),
    decreases k,
{
    let u = updates[k];
    let last = updates.len() - 1;
    let whole = updates.last().l2;
    lemma_updates_grow(updates, 0, k, sums);
    lemma_updates_grow(updates, k, last, sums);
    if k > 0 {
        law_move_only_trades(updates, k - 1, sums, trees);
        assert(updates[k - 1].is_right_before(updates[k]));
    }
    assert(u.followed());
    assert(forall|i: int|
        u.l.len() <= i < whole.len() ==> acts_as_tree(
            trees[i],
            #[trigger] whole[i],
            trees[i + 1],
        ));
    lemma_update(u, sums);
    lemma_update_on_tree(u, sums, whole, trees);
}

} // verus!
