//! What moving a window with the mouse is for.
//!
//! `reply` is how the host answers at that time.

use vstd::prelude::*;

use crate::config::Config;
use crate::deeds::{deeds, group_deeds, lemma_reply, lemma_reply_part};
use crate::ids::{Frame, NodeId, Point, Real, WindowId};
use crate::layout::interactive::{
    barely_moved, dragged, move_followed, no_target, places_traded, target_found, target_tried,
};
use crate::layout::move_laws::far;
use crate::layout::state::{InteractiveScrollMove, State};
use crate::link::{answer, answered_by, ask, grew, Binary, Log, Rep, Req, Unary};

verus! {

/// The node that the held window would trade places with, if an entry of the layout's frames is
/// where the mouse is: another window, whose frame, as it is seen through the viewport where
/// there is one, holds the mouse, and which the layout has.
pub open spec fn target_in(
    reply: spec_fn(Req) -> Rep,
    seen: bool,
    held: InteractiveScrollMove,
    mouse: Point,
    entry: (WindowId, Frame),
) -> Option<NodeId> {
    let layout = held.layout_id;
    let frame = if seen {
        reply(Req::OffsetRect(layout, entry.1))->Rect_0
    } else {
        entry.1
    };
    if entry.0 != held.window_id && (seen ==> reply(Req::IsInView(layout, entry.1))->Flag_0)
        && reply(Req::ContainsPoint(frame, mouse))->Flag_0 {
        reply(Req::WindowNode(layout, entry.0))->MaybeNode_0
    } else {
        None
    }
}

proof fn lemma_tried(
    l: Log,
    seen: bool,
    held: InteractiveScrollMove,
    mouse: Point,
    entry: (WindowId, Frame),
    l2: Log,
    target: Option<NodeId>,
    reply: spec_fn(Req) -> Rep,
    from: int,
)
    requires
        target_tried(l, seen, held, mouse, entry, l2, target),
        0 <= from <= l.len(),
    ensures
        grew(l, l2),
        deeds(l2, from) == deeds(l, from),
        answered_by(reply, l2, from) ==> target == target_in(reply, seen, held, mouse, entry),
{
    broadcast use group_deeds;

    let layout = held.layout_id;
    let q1 = Req::IsInView(layout, entry.1);
    let v1 = ask(l, l2, q1);
    let q2 = Req::OffsetRect(layout, entry.1);
    let v2 = ask(v1, l2, q2);
    let (t, frame) = if seen {
        (v2, answer(v2)->Rect_0)
    } else {
        (l, entry.1)
    };
    let q3 = Req::ContainsPoint(frame, mouse);
    let t1 = ask(t, l2, q3);
    if answered_by(reply, l2, from) && entry.0 != held.window_id {
        if !(seen && !answer(v1)->Flag_0) {
            if answer(t1)->Flag_0 {
                lemma_reply(reply, t1, l2, Req::WindowNode(layout, entry.0), from);
            }
            lemma_reply(reply, t, l2, q3, from);
            if seen {
                lemma_reply(reply, v1, l2, q2, from);
            }
        }
        if seen {
            lemma_reply(reply, l, l2, q1, from);
        }
    }
}

proof fn lemma_none(
    l: Log,
    seen: bool,
    held: InteractiveScrollMove,
    mouse: Point,
    frames: Seq<(WindowId, Frame)>,
    l2: Log,
    reply: spec_fn(Req) -> Rep,
    from: int,
)
    requires
        no_target(l, seen, held, mouse, frames, l2),
        0 <= from <= l.len(),
    ensures
        grew(l, l2),
        deeds(l2, from) == deeds(l, from),
        answered_by(reply, l2, from) ==> forall|i: int|
            0 <= i < frames.len() ==> target_in(
                reply,
                seen,
                held,
                mouse,
                #[trigger] frames[i],
            ) is None,
    decreases frames.len(),
{
    if frames.len() > 0 {
        let front = frames.drop_last();
        let t = choose|t: Log|
            no_target(l, seen, held, mouse, front, t) && #[trigger] target_tried(
                t,
                seen,
                held,
                mouse,
                frames.last(),
                l2,
                None,
            );
        lemma_none(l, seen, held, mouse, front, t, reply, from);
        lemma_tried(t, seen, held, mouse, frames.last(), l2, None, reply, from);
        if answered_by(reply, l2, from) {
            lemma_reply_part(reply, t, l2, from);
            assert forall|i: int| 0 <= i < frames.len() implies target_in(
                reply,
                seen,
                held,
                mouse,
                #[trigger] frames[i],
            ) is None by {
                if i < front.len() {
                    assert(front[i] == frames[i]);
                }
            }
        }
    }
}

/// A window that is dragged trades places with the window under the mouse: with the first, in
/// the order of the layout's frames, that the mouse is over. From then on it is at the other's
/// node. Over no other window, nothing changes.
pub open spec fn trades(
    reply: spec_fn(Req) -> Rep,
    s: State,
    held: InteractiveScrollMove,
    mouse: Point,
    frames: Seq<(WindowId, Frame)>,
    s2: State,
    done: Seq<Req>,
    changed: bool,
) -> bool {
    let seen = s.viewports.contains(held.layout_id);
    let now = InteractiveScrollMove { drag_active: true, ..held };
    &&& (forall|i: int|
        0 <= i < frames.len() ==> target_in(
            reply,
            seen,
            held,
            mouse,
            #[trigger] frames[i],
        ) is None) ==> !changed && done == Seq::<Req>::empty() && s2 == State {
        moving: Some(now),
        ..s
    }
    &&& forall|n: int|
        0 <= n < frames.len() && target_in(
            reply,
            seen,
            held,
            mouse,
            #[trigger] frames[n],
        ) is Some && (forall|i: int|
            0 <= i < n ==> target_in(reply, seen, held, mouse, #[trigger] frames[i]) is None) ==> {
            let target = target_in(reply, seen, held, mouse, frames[n])->0;
            &&& changed
            &&& done == seq![Req::SwapWindows(held.window_node, target)]
            &&& s2 == State {
                moving: Some(InteractiveScrollMove { window_node: target, ..now }),
                ..s
            }
        }
}

proof fn lemma_traded(
    s: State,
    l: Log,
    held: InteractiveScrollMove,
    mouse: Point,
    frames: Seq<(WindowId, Frame)>,
    s2: State,
    l2: Log,
    changed: bool,
    reply: spec_fn(Req) -> Rep,
    from: int,
)
    requires
        places_traded(s, l, held, mouse, frames, s2, l2, changed),
        answered_by(reply, l2, from),
        0 <= from <= l.len(),
        deeds(l, from) == Seq::<Req>::empty(),
        held.drag_active,
    ensures
        trades(reply, s, held, mouse, frames, s2, deeds(l2, from), changed),
{
    broadcast use group_deeds;

    let seen = s.viewports.contains(held.layout_id);
    assert(held == InteractiveScrollMove { drag_active: true, ..held });
    if changed {
        let (t, n, target) = choose|t: Log, n: int, target: NodeId|
            {
                &&& #[trigger] target_found(l, seen, held, mouse, frames, n, t, target)
                &&& l2 == ask(t, l2, Req::SwapWindows(held.window_node, target))
                &&& s2 == State {
                    moving: Some(InteractiveScrollMove { window_node: target, ..held }),
                    ..s
                }
            };
        let u = choose|u: Log| #[trigger]
            no_target(l, seen, held, mouse, frames.take(n), u) && target_tried(
                u,
                seen,
                held,
                mouse,
                frames[n],
                t,
                Some(target),
            );
        lemma_none(l, seen, held, mouse, frames.take(n), u, reply, from);
        lemma_tried(u, seen, held, mouse, frames[n], t, Some(target), reply, from);
        lemma_reply_part(reply, t, l2, from);
        lemma_reply_part(reply, u, t, from);
        lemma_none(l, seen, held, mouse, frames.take(n), u, reply, from);
        lemma_tried(u, seen, held, mouse, frames[n], t, Some(target), reply, from);
        assert(target_in(reply, seen, held, mouse, frames[n]) == Some(target));
        assert forall|i: int| 0 <= i < n implies target_in(
            reply,
            seen,
            held,
            mouse,
            #[trigger] frames[i],
        ) is None by {
            assert(frames.take(n)[i] == frames[i]);
        }
        assert forall|k: int|
            0 <= k < frames.len() && target_in(
                reply,
                seen,
                held,
                mouse,
                #[trigger] frames[k],
            ) is Some && (forall|i: int|
                0 <= i < k ==> target_in(
                    reply,
                    seen,
                    held,
                    mouse,
                    #[trigger] frames[i],
                ) is None) implies k == n by {
            if n < k {
                assert(target_in(reply, seen, held, mouse, frames[n]) is None);
            }
        }
    } else {
        lemma_none(l, seen, held, mouse, frames, l2, reply, from);
    }
}

/// A move with the mouse begins once the mouse is ten or more away from where the window was
/// taken hold of; before that nothing changes. From then on the window trades places with the
/// window under the mouse.
pub proof fn law_dragged_window_trades_places(
    s: State,
    l: Log,
    mouse: Point,
    screen: Frame,
    config: Config,
    s2: State,
    l2: Log,
    changed: bool,
    held: InteractiveScrollMove,
    reply: spec_fn(Req) -> Rep,
)
    requires
        move_followed(s, l, mouse, screen, config, s2, l2, changed),
        answered_by(reply, l2, l.len() as int),
        s.moving == Some(held),
    ensures
        ({
            let done = deeds(l2, l.len() as int);
            if held.drag_active || far(reply, held.start_mouse, mouse) {
                trades(
                    reply,
                    s,
                    held,
                    mouse,
                    reply(Req::CalculateLayout(held.layout_id, screen, config.id))->Frames_0,
                    s2,
                    done,
                    changed,
                )
            } else {
                !changed && s2 == s && done == Seq::<Req>::empty()
            }
        }),
{
    broadcast use group_deeds;

    let n = l.len() as int;
    if held.drag_active {
        lemma_dragged(s, l, held, mouse, screen, config, s2, l2, changed, reply, n);
    } else {
        let now = InteractiveScrollMove { drag_active: true, ..held };
        let (t, barely) = choose|t: Log, barely: bool|
            {
                &&& #[trigger] barely_moved(l, held.start_mouse, mouse, t, barely)
                &&& if barely {
                    s2 == s && l2 == t && !changed
                } else {
                    dragged(s, t, now, mouse, screen, config, s2, l2, changed)
                }
            };
        if !barely {
            lemma_dragged_grows(s, t, now, mouse, screen, config, s2, l2, changed);
        }
        lemma_reply_part(reply, t, l2, n);
        lemma_barely(l, held.start_mouse, mouse, t, barely, reply, n);
        if !barely {
            assert(deeds(t, n) =~= Seq::<Req>::empty());
            lemma_dragged(s, t, now, mouse, screen, config, s2, l2, changed, reply, n);
            let frames = reply(
                Req::CalculateLayout(held.layout_id, screen, config.id),
            )->Frames_0;
            let seen = s.viewports.contains(held.layout_id);
            assert forall|i: int| 0 <= i < frames.len() implies target_in(
                reply,
                seen,
                now,
                mouse,
                #[trigger] frames[i],
            ) == target_in(reply, seen, held, mouse, frames[i]) by {}
        }
    }
}

proof fn lemma_dragged_grows(
    s: State,
    l: Log,
    held: InteractiveScrollMove,
    mouse: Point,
    screen: Frame,
    config: Config,
    s2: State,
    l2: Log,
    changed: bool,
)
    requires
        dragged(s, l, held, mouse, screen, config, s2, l2, changed),
    ensures
        grew(l, l2),
        grew(ask(l, l2, Req::CalculateLayout(held.layout_id, screen, config.id)), l2),
{
    let t = ask(l, l2, Req::CalculateLayout(held.layout_id, screen, config.id));
    let frames = answer(t)->Frames_0;
    let seen = s.viewports.contains(held.layout_id);
    let any = |req: Req| Rep::Unit;
    if changed {
        let (t1, n, target) = choose|t1: Log, n: int, target: NodeId|
            {
                &&& #[trigger] target_found(t, seen, held, mouse, frames, n, t1, target)
                &&& l2 == ask(t1, l2, Req::SwapWindows(held.window_node, target))
                &&& s2 == State {
                    moving: Some(InteractiveScrollMove { window_node: target, ..held }),
                    ..s
                }
            };
        let u = choose|u: Log| #[trigger]
            no_target(t, seen, held, mouse, frames.take(n), u) && target_tried(
                u,
                seen,
                held,
                mouse,
                frames[n],
                t1,
                Some(target),
            );
        lemma_none(t, seen, held, mouse, frames.take(n), u, any, 0);
        lemma_tried(u, seen, held, mouse, frames[n], t1, Some(target), any, 0);
    } else {
        lemma_none(t, seen, held, mouse, frames, l2, any, 0);
    }
}

proof fn lemma_dragged(
    s: State,
    l: Log,
    held: InteractiveScrollMove,
    mouse: Point,
    screen: Frame,
    config: Config,
    s2: State,
    l2: Log,
    changed: bool,
    reply: spec_fn(Req) -> Rep,
    from: int,
)
    requires
        dragged(s, l, held, mouse, screen, config, s2, l2, changed),
        answered_by(reply, l2, from),
        0 <= from <= l.len(),
        deeds(l, from) == Seq::<Req>::empty(),
        held.drag_active,
    ensures
        trades(
            reply,
            s,
            held,
            mouse,
            reply(Req::CalculateLayout(held.layout_id, screen, config.id))->Frames_0,
            s2,
            deeds(l2, from),
            changed,
        ),
{
    broadcast use group_deeds;

    let q = Req::CalculateLayout(held.layout_id, screen, config.id);
    lemma_dragged_grows(s, l, held, mouse, screen, config, s2, l2, changed);
    lemma_reply(reply, l, l2, q, from);
    let t = ask(l, l2, q);
    lemma_traded(
        s,
        t,
        held,
        mouse,
        answer(t)->Frames_0,
        s2,
        l2,
        changed,
        reply,
        from,
    );
}

proof fn lemma_barely(
    l: Log,
    start: Point,
    mouse: Point,
    l2: Log,
    barely: bool,
    reply: spec_fn(Req) -> Rep,
    from: int,
)
    requires
        barely_moved(l, start, mouse, l2, barely),
        answered_by(reply, l2, from),
        0 <= from <= l.len(),
    ensures
        grew(l, l2),
        deeds(l2, from) == deeds(l, from),
        barely == !far(reply, start, mouse),
{
    broadcast use group_deeds;

    let q1 = Req::Binary(Binary::Subtract, mouse.x, start.x);
    let t1 = ask(l, l2, q1);
    let dx = answer(t1)->Number_0;
    let q2 = Req::Binary(Binary::Subtract, mouse.y, start.y);
    let t2 = ask(t1, l2, q2);
    let dy = answer(t2)->Number_0;
    let q3 = Req::Binary(Binary::Multiply, dx, dx);
    let t3 = ask(t2, l2, q3);
    let q4 = Req::Binary(Binary::Multiply, dy, dy);
    let t4 = ask(t3, l2, q4);
    let q5 = Req::Binary(Binary::Add, answer(t3)->Number_0, answer(t4)->Number_0);
    let t5 = ask(t4, l2, q5);
    let q6 = Req::Unary(Unary::Sqrt, answer(t5)->Number_0);
    let t6 = ask(t5, l2, q6);
    let q7 = Req::Less(answer(t6)->Number_0, Real(0x4024_0000_0000_0000));
    lemma_reply(reply, t6, l2, q7, from);
    lemma_reply(reply, t5, l2, q6, from);
    lemma_reply(reply, t4, l2, q5, from);
    lemma_reply(reply, t3, l2, q4, from);
    lemma_reply(reply, t2, l2, q3, from);
    lemma_reply(reply, t1, l2, q2, from);
    lemma_reply(reply, l, l2, q1, from);
}

} // verus!
