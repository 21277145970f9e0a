//! What holding an edge of a window with the mouse is for.

use vstd::prelude::*;

use crate::deeds::{deeds, group_deeds, lemma_reply};
use crate::edges::ResizeEdge;
use crate::ids::{Direction, Frame, Point};
use crate::layout::interactive::resize_followed;
use crate::layout::state::{InteractiveScrollResize, State};
use crate::link::{answer, answered_by, ask, grew, Binary, Log, Rep, Req};

verus! {

/// While an edge is held, the side that is held follows the mouse: with the left edge the
/// column is resized to the left, with the right edge to the right, with the top edge the
/// window is resized upwards, and with the bottom edge downwards; by what the mouse has
/// moved since the last time, as a share of the screen. No other side is resized. The mouse
/// is remembered where it is, and whether anything changed is what the tree says.
pub proof fn law_held_side_follows_the_mouse(
    s: State,
    l: Log,
    held: InteractiveScrollResize,
    mouse: Point,
    screen: Frame,
    s2: State,
    l2: Log,
    changed: bool,
    reply: spec_fn(Req) -> Rep,
)
    requires
        resize_followed(s, l, mouse, screen, s2, l2, changed),
        s.resizing == Some(held),
        answered_by(reply, l2, l.len() as int),
        !(held.edges.left() && held.edges.right()),
        !(held.edges.top() && held.edges.bottom()),
    ensures
        s2 == (State {
            resizing: Some(InteractiveScrollResize { last_mouse: mouse, ..held }),
            ..s
        }),
        ({
            let dx = reply(
                Req::Binary(Binary::Subtract, mouse.x, held.last_mouse.x),
            )->Number_0;
            let dy = reply(
                Req::Binary(Binary::Subtract, mouse.y, held.last_mouse.y),
            )->Number_0;
            let wide = reply(Req::Binary(Binary::Divide, dx, screen.size.width))->Number_0;
            let high = reply(Req::Binary(Binary::Divide, dy, screen.size.height))->Number_0;
            let left = Req::Resize(held.column_node, wide, Direction::Left);
            let right = Req::Resize(held.column_node, wide, Direction::Right);
            let up = Req::Resize(held.window_node, high, Direction::Up);
            let down = Req::Resize(held.window_node, high, Direction::Down);
            let done = deeds(l2, l.len() as int);
            &&& done.contains(left) <==> held.edges.left()
            &&& done.contains(right) <==> held.edges.right()
            &&& done.contains(up) <==> held.edges.top()
            &&& done.contains(down) <==> held.edges.bottom()
            &&& forall|i: int|
                0 <= i < done.len() ==> #[trigger] done[i] == left || done[i] == right || done[i]
                    == up || done[i] == down
            &&& done.no_duplicates()
            &&& changed <==> exists|i: int|
                0 <= i < done.len() && reply(#[trigger] done[i])->Flag_0
        }),
{
    lemma_followed(s, l, held, mouse, screen, s2, l2, changed, reply);
    let dx = reply(Req::Binary(Binary::Subtract, mouse.x, held.last_mouse.x))->Number_0;
    let dy = reply(Req::Binary(Binary::Subtract, mouse.y, held.last_mouse.y))->Number_0;
    let wide = reply(Req::Binary(Binary::Divide, dx, screen.size.width))->Number_0;
    let high = reply(Req::Binary(Binary::Divide, dy, screen.size.height))->Number_0;
    let done = deeds(l2, l.len() as int);
    let sideways = held.edges.left() || held.edges.right();
    let up_or_down = held.edges.top() || held.edges.bottom();
    if sideways {
        let req = Req::Resize(
            held.column_node,
            wide,
            if held.edges.left() {
                Direction::Left
            } else {
                Direction::Right
            },
        );
        assert(done[0] == req);
    }
    if up_or_down {
        let req = Req::Resize(
            held.window_node,
            high,
            if held.edges.top() {
                Direction::Up
            } else {
                Direction::Down
            },
        );
        assert(done[done.len() - 1] == req);
    }
}

/// All that is done while an edge is held.
proof fn lemma_followed(
    s: State,
    l: Log,
    held: InteractiveScrollResize,
    mouse: Point,
    screen: Frame,
    s2: State,
    l2: Log,
    changed: bool,
    reply: spec_fn(Req) -> Rep,
)
    requires
        resize_followed(s, l, mouse, screen, s2, l2, changed),
        s.resizing == Some(held),
        answered_by(reply, l2, l.len() as int),
    ensures
        ({
            let edges = held.edges;
            let dx = reply(
                Req::Binary(Binary::Subtract, mouse.x, held.last_mouse.x),
            )->Number_0;
            let dy = reply(
                Req::Binary(Binary::Subtract, mouse.y, held.last_mouse.y),
            )->Number_0;
            let wide = reply(Req::Binary(Binary::Divide, dx, screen.size.width))->Number_0;
            let high = reply(Req::Binary(Binary::Divide, dy, screen.size.height))->Number_0;
            let across = Req::Resize(
                held.column_node,
                wide,
                if edges.left() {
                    Direction::Left
                } else {
                    Direction::Right
                },
            );
            let along = Req::Resize(
                held.window_node,
                high,
                if edges.top() {
                    Direction::Up
                } else {
                    Direction::Down
                },
            );
            let sideways = edges.left() || edges.right();
            let up_or_down = edges.top() || edges.bottom();
            &&& deeds(l2, l.len() as int) == if sideways && up_or_down {
                seq![across, along]
            } else if sideways {
                seq![across]
            } else if up_or_down {
                seq![along]
            } else {
                Seq::empty()
            }
            &&& changed == (sideways && reply(across)->Flag_0 || up_or_down && reply(
                along,
            )->Flag_0)
        }),
{
    broadcast use group_deeds;

    let n = l.len() as int;
    let edges = held.edges;
    let sideways = edges.left() || edges.right();
    let up_or_down = edges.top() || edges.bottom();
    let q1 = Req::Binary(Binary::Subtract, mouse.x, held.last_mouse.x);
    let q2 = Req::Binary(Binary::Subtract, mouse.y, held.last_mouse.y);
    let t1 = ask(l, l2, q1);
    let t2 = ask(t1, l2, q2);
    let q3 = Req::Binary(Binary::Divide, answer(t1)->Number_0, screen.size.width);
    let h1 = ask(t2, l2, q3);
    let across = Req::Resize(
        held.column_node,
        answer(h1)->Number_0,
        if edges.left() {
            Direction::Left
        } else {
            Direction::Right
        },
    );
    let h2 = ask(h1, l2, across);
    let t3 = if sideways {
        h2
    } else {
        t2
    };
    let q4 = Req::Binary(Binary::Divide, answer(t2)->Number_0, screen.size.height);
    let v1 = ask(t3, l2, q4);
    let along = Req::Resize(
        held.window_node,
        answer(v1)->Number_0,
        if edges.top() {
            Direction::Up
        } else {
            Direction::Down
        },
    );
    if up_or_down {
        lemma_reply(reply, v1, l2, along, n);
        lemma_reply(reply, t3, l2, q4, n);
    }
    assert(grew(t3, l2));
    if sideways {
        lemma_reply(reply, h1, l2, across, n);
        lemma_reply(reply, t2, l2, q3, n);
    }
    lemma_reply(reply, t1, l2, q2, n);
    lemma_reply(reply, l, l2, q1, n);
}

/// The direction that a resize of the other side has.
pub open spec fn opposite(direction: Direction) -> Direction {
    match direction {
        Direction::Left => Direction::Right,
        Direction::Right => Direction::Left,
        Direction::Up => Direction::Down,
        Direction::Down => Direction::Up,
    }
}

/// Two holds that differ only in the left edge against the right one resize alike, but
/// that the column goes to the opposite side; and so do two that differ only in the top edge
/// against the bottom one, for the window.
pub proof fn law_opposite_holds_mirror(
    s: State,
    l: Log,
    held: InteractiveScrollResize,
    a: ResizeEdge,
    b: ResizeEdge,
    mouse: Point,
    screen: Frame,
    sa: State,
    la: Log,
    ca: bool,
    sb: State,
    lb: Log,
    cb: bool,
    reply: spec_fn(Req) -> Rep,
)
    requires
        resize_followed(
            (State { resizing: Some(InteractiveScrollResize { edges: a, ..held }), ..s }),
            l,
            mouse,
            screen,
            sa,
            la,
            ca,
        ),
        resize_followed(
            (State { resizing: Some(InteractiveScrollResize { edges: b, ..held }), ..s }),
            l,
            mouse,
            screen,
            sb,
            lb,
            cb,
        ),
        answered_by(reply, la, l.len() as int),
        answered_by(reply, lb, l.len() as int),
        !(a.left() && a.right()),
        !(a.top() && a.bottom()),
        a.left() == b.right(),
        a.right() == b.left(),
        a.top() == b.bottom(),
        a.bottom() == b.top(),
    ensures
        ({
            let n = l.len() as int;
            let da = deeds(la, n);
            let db = deeds(lb, n);
            &&& da.len() == db.len()
            &&& forall|i: int|
                0 <= i < da.len() ==> (#[trigger] da[i]) is Resize && db[i] == Req::Resize(
                    da[i]->Resize_0,
                    da[i]->Resize_1,
                    opposite(da[i]->Resize_2),
                )
        }),
{
    let s1 = State { resizing: Some(InteractiveScrollResize { edges: a, ..held }), ..s };
    let s2 = State { resizing: Some(InteractiveScrollResize { edges: b, ..held }), ..s };
    lemma_followed(
        s1,
        l,
        InteractiveScrollResize { edges: a, ..held },
        mouse,
        screen,
        sa,
        la,
        ca,
        reply,
    );
    lemma_followed(
        s2,
        l,
        InteractiveScrollResize { edges: b, ..held },
        mouse,
        screen,
        sb,
        lb,
        cb,
        reply,
    );
}

} // verus!
