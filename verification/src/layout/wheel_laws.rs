//! What turns of the wheel have in common.

use vstd::prelude::*;

use crate::config::ScrollView;
use crate::ids::{Direction, Frame, LayoutId, NodeId, Real, SpaceId};
use crate::layout::commands::node_focused;
use crate::layout::events::scrolling_cleared;
use crate::layout::scroll::{
    columns_across, notched, stepped, steps_walked, turn_weighed, turned, walk_direction, walk_ended,
    walk_taken, walked, way_gathered, wheel_handled, NOTCH_LIMIT, ZERO,
};
use crate::layout::state::State;
use crate::layout::viewport::viewport_open;
use crate::link::{answer, ask, grew, is_sum, Binary, Log, Rep, Req, Unary};
use crate::response::{nothing, Response};

verus! {

/// What was asked from place `from` on, the sums left out.
pub open spec fn told(log: Log, from: int) -> Log
    decreases log.len(),
{
    if log.len() == 0 || log.len() <= from {
        Seq::empty()
    } else if is_sum(log.last().req) {
        told(log.drop_last(), from)
    } else {
        told(log.drop_last(), from).push(log.last())
    }
}

/// How a host answers: what comes of sums, and what the answer to anything else is after
/// all else that it was told.
pub struct Answers {
    pub sums: spec_fn(Req) -> Rep,
    pub rest: spec_fn(Log, Req) -> Rep,
}

impl Answers {
    /// From place `from` on, the host answers like this.
    pub open spec fn given(self, log: Log, from: int) -> bool {
        forall|i: int|
            from <= i < log.len() ==> (#[trigger] log[i]).rep == if is_sum(log[i].req) {
                (self.sums)(log[i].req)
            } else {
                (self.rest)(told(log.take(i), from), log[i].req)
            }
    }

    /// The number that comes of a sum.
    pub open spec fn number(self, req: Req) -> Real {
        (self.sums)(req)->Number_0
    }

    /// Whether a comparison of numbers holds.
    pub open spec fn holds(self, req: Req) -> bool {
        (self.sums)(req)->Flag_0
    }

    /// A number with the other sign.
    pub open spec fn negated(self, x: Real) -> Real {
        self.number(Req::Unary(Unary::Negate, x))
    }

    /// Whether a turn is a small whole number.
    pub open spec fn is_whole(self, delta: Real) -> bool {
        let size = self.number(Req::Unary(Unary::Abs, delta));
        let part = self.number(Req::Unary(Unary::Fract, delta));
        self.holds(Req::Less(size, Real(NOTCH_LIMIT))) && self.holds(Req::Equal(part, Real(ZERO)))
    }

    /// A turn as the settings make it.
    pub open spec fn scaled(self, delta: Real, config: ScrollView) -> Real {
        let directed = if config.invert_scroll_direction {
            self.negated(delta)
        } else {
            delta
        };
        self.number(Req::Binary(Binary::Multiply, directed, config.scroll_sensitivity))
    }

    /// The way that a turn counts for.
    pub open spec fn way(self, delta: Real, scaled: Real, threshold: Real) -> Real {
        if self.is_whole(delta) {
            self.number(
                Req::Binary(
                    Binary::Multiply,
                    self.number(Req::Unary(Unary::Signum, scaled)),
                    threshold,
                ),
            )
        } else {
            scaled
        }
    }

    /// The size of a number, and whether it is whole, are those of the number with the
    /// other sign.
    pub open spec fn sign_does_not_count(self) -> bool {
        forall|x: Real|
            {
                let y = #[trigger] self.negated(x);
                &&& self.number(Req::Unary(Unary::Abs, y)) == self.number(
                    Req::Unary(Unary::Abs, x),
                )
                &&& self.holds(
                    Req::Equal(self.number(Req::Unary(Unary::Fract, y)), Real(ZERO)),
                ) == self.holds(Req::Equal(self.number(Req::Unary(Unary::Fract, x)), Real(ZERO)))
            }
    }

    /// Two numbers lie on the same side of zero.
    pub open spec fn same_side(self, x: Real, y: Real) -> bool {
        ||| self.holds(Req::Less(Real(ZERO), x)) && self.holds(Req::Less(Real(ZERO), y))
        ||| self.holds(Req::Less(x, Real(ZERO))) && self.holds(Req::Less(y, Real(ZERO)))
    }

    /// Numbers on the same side of zero have the same sign.
    pub open spec fn sign_tells_side(self) -> bool {
        forall|x: Real, y: Real| #[trigger]
            self.same_side(x, y) ==> self.number(Req::Unary(Unary::Signum, x)) == self.number(
                Req::Unary(Unary::Signum, y),
            )
    }
}

/// Two records, each from some place on, and how far they are alike: the host was told
/// the same.
spec fn alike(h: Answers, t: Log, fa: int, a: Log, u: Log, fb: int, b: Log) -> bool {
    &&& grew(t, a)
    &&& grew(u, b)
    &&& 0 <= fa <= t.len()
    &&& 0 <= fb <= u.len()
    &&& h.given(a, fa)
    &&& h.given(b, fb)
    &&& told(t, fa) == told(u, fb)
}

/// One request more.
proof fn lemma_told_more(t: Log, a: Log, from: int)
    requires
        grew(t, a),
        t.len() < a.len(),
        0 <= from <= t.len(),
    ensures
        a.take(t.len() as int) == t,
        told(t.push(a[t.len() as int]), from) == if is_sum(a[t.len() as int].req) {
            told(t, from)
        } else {
            told(t, from).push(a[t.len() as int])
        },
{
    let n = t.len() as int;
    assert(a.take(n) =~= t);
    assert(t.push(a[n]).drop_last() =~= t);
}

/// The same request next is answered alike.
proof fn lemma_next(h: Answers, t: Log, fa: int, a: Log, u: Log, fb: int, b: Log)
    requires
        alike(h, t, fa, a, u, fb, b),
        t.len() < a.len(),
        u.len() < b.len(),
        a[t.len() as int].req == b[u.len() as int].req,
    ensures
        a[t.len() as int] == b[u.len() as int],
        alike(h, t.push(a[t.len() as int]), fa, a, u.push(b[u.len() as int]), fb, b),
{
    lemma_told_more(t, a, fa);
    lemma_told_more(u, b, fb);
    assert(a[t.len() as int].rep == b[u.len() as int].rep);
}

/// A sum in one record alone.
proof fn lemma_sum(h: Answers, t: Log, from: int, a: Log)
    requires
        grew(t, a),
        0 <= from <= t.len() < a.len(),
        h.given(a, from),
        is_sum(a[t.len() as int].req),
    ensures
        a[t.len() as int].rep == (h.sums)(a[t.len() as int].req),
        told(t.push(a[t.len() as int]), from) == told(t, from),
{
    lemma_told_more(t, a, from);
}

proof fn lemma_notched(
    h: Answers,
    l: Log,
    delta: Real,
    l2: Log,
    is_notched: bool,
    whole: Log,
    from: int,
)
    requires
        notched(l, delta, l2, is_notched),
        grew(l2, whole),
        0 <= from <= l.len(),
        h.given(whole, from),
    ensures
        grew(l, l2),
        is_notched == h.is_whole(delta),
        told(l2, from) == told(l, from),
{
    let n = l.len() as int;
    let t1 = ask(l, l2, Req::Unary(Unary::Abs, delta));
    let t2 = ask(t1, l2, Req::Less(answer(t1)->Number_0, Real(NOTCH_LIMIT)));
    let t3 = ask(t2, l2, Req::Unary(Unary::Fract, delta));
    let t4 = ask(t3, l2, Req::Equal(answer(t3)->Number_0, Real(ZERO)));
    assert(l2[n] == t2[n] && l2[n + 1] == t2[n + 1]);
    assert(whole[n] == l2[n] && whole[n + 1] == l2[n + 1]);
    assert(grew(t1, whole) && grew(t2, whole));
    lemma_sum(h, l, from, whole);
    assert(l.push(whole[n]) == t1);
    lemma_sum(h, t1, from, whole);
    assert(t1.push(whole[n + 1]) == t2);
    if answer(t2)->Flag_0 {
        assert(whole[n + 2] == l2[n + 2] && whole[n + 3] == l2[n + 3]);
        assert(grew(t3, whole));
        lemma_sum(h, t2, from, whole);
        assert(t2.push(whole[n + 2]) == t3);
        lemma_sum(h, t3, from, whole);
        assert(t3.push(whole[n + 3]) == t4);
    }
}

/// The way that a turn counts for comes of sums alone.
proof fn lemma_weighed(
    h: Answers,
    l: Log,
    delta: Real,
    scaled: Real,
    threshold: Real,
    l2: Log,
    way: Real,
    whole: Log,
    from: int,
)
    requires
        turn_weighed(l, delta, scaled, threshold, l2, way),
        grew(l2, whole),
        0 <= from <= l.len(),
        h.given(whole, from),
    ensures
        grew(l, l2),
        way == h.way(delta, scaled, threshold),
        told(l2, from) == told(l, from),
{
    let (t, is_notched) = choose|t: Log, is_notched: bool|
        {
            &&& #[trigger] notched(l, delta, t, is_notched)
            &&& if is_notched {
                let t1 = ask(t, l2, Req::Unary(Unary::Signum, scaled));
                let t2 = ask(t1, l2, Req::Binary(Binary::Multiply, answer(t1)->Number_0, threshold));
                l2 == t2 && way == answer(t2)->Number_0
            } else {
                l2 == t && way == scaled
            }
        };
    assert(grew(t, l2));
    assert(grew(t, whole));
    lemma_notched(h, l, delta, t, is_notched, whole, from);
    if is_notched {
        let n = t.len() as int;
        let t1 = ask(t, l2, Req::Unary(Unary::Signum, scaled));
        assert(whole[n] == l2[n] && whole[n + 1] == l2[n + 1]);
        assert(grew(t1, whole));
        lemma_sum(h, t, from, whole);
        assert(t.push(whole[n]) == t1);
        lemma_sum(h, t1, from, whole);
        assert(t1.push(whole[n + 1]) == l2);
    }
}

pub proof fn lemma_weighed_grows(
    l: Log,
    delta: Real,
    scaled: Real,
    threshold: Real,
    l2: Log,
    way: Real,
)
    requires
        turn_weighed(l, delta, scaled, threshold, l2, way),
    ensures
        grew(l, l2),
{
}

/// The whole of a record that is asked one request more.
proof fn lemma_asked(t: Log, l2: Log, whole: Log, req: Req)
    requires
        grew(ask(t, l2, req), l2),
        grew(l2, whole),
    ensures
        grew(t, whole),
        t.len() < whole.len(),
        whole[t.len() as int].req == req,
        ask(t, l2, req) == t.push(whole[t.len() as int]),
{
    let n = t.len() as int;
    let t1 = ask(t, l2, req);
    assert(l2[n] == t1[n]);
    assert(whole[n] == l2[n]);
    assert forall|i: int| 0 <= i < t.len() implies #[trigger] whole[i] == t[i] by {
        assert(l2[i] == t1[i]);
        assert(whole[i] == l2[i]);
    }
}

pub proof fn lemma_walked_grows(
    l: Log,
    layout: LayoutId,
    node: NodeId,
    direction: Direction,
    round: bool,
    n: nat,
    l2: Log,
    end: NodeId,
)
    requires
        walked(l, layout, node, direction, round, n, l2, end),
    ensures
        grew(l, l2),
    decreases n,
{
    if n > 0 {
        let req = if round {
            Req::TraverseScrollWrapping(layout, node, direction)
        } else {
            Req::Traverse(node, direction)
        };
        let t = ask(l, l2, req);
        if let Some(next) = answer(t)->MaybeNode_0 {
            lemma_walked_grows(t, layout, next, direction, round, (n - 1) as nat, l2, end);
            assert(grew(l, t));
        }
    }
}

/// The same walk twice.
proof fn lemma_same_walk(
    h: Answers,
    layout: LayoutId,
    node: NodeId,
    direction: Direction,
    round: bool,
    n: nat,
    t: Log,
    t2: Log,
    x: NodeId,
    fa: int,
    a: Log,
    u: Log,
    u2: Log,
    y: NodeId,
    fb: int,
    b: Log,
)
    requires
        walked(t, layout, node, direction, round, n, t2, x),
        walked(u, layout, node, direction, round, n, u2, y),
        alike(h, t, fa, a, u, fb, b),
        grew(t2, a),
        grew(u2, b),
    ensures
        x == y,
        alike(h, t2, fa, a, u2, fb, b),
    decreases n,
{
    if n > 0 {
        let req = if round {
            Req::TraverseScrollWrapping(layout, node, direction)
        } else {
            Req::Traverse(node, direction)
        };
        let t1 = ask(t, t2, req);
        let u1 = ask(u, u2, req);
        if let Some(next) = answer(t1)->MaybeNode_0 {
            lemma_walked_grows(t1, layout, next, direction, round, (n - 1) as nat, t2, x);
        }
        if let Some(next) = answer(u1)->MaybeNode_0 {
            lemma_walked_grows(u1, layout, next, direction, round, (n - 1) as nat, u2, y);
        }
        lemma_asked(t, t2, a, req);
        lemma_asked(u, u2, b, req);
        lemma_next(h, t, fa, a, u, fb, b);
        if let Some(next) = answer(t1)->MaybeNode_0 {
            lemma_same_walk(
                h,
                layout,
                next,
                direction,
                round,
                (n - 1) as nat,
                t1,
                t2,
                x,
                fa,
                a,
                u1,
                u2,
                y,
                fb,
                b,
            );
        }
    }
}

/// The same focus twice.
proof fn lemma_same_focus(
    h: Answers,
    node: NodeId,
    t: Log,
    x: Response,
    fa: int,
    a: Log,
    u: Log,
    y: Response,
    fb: int,
    b: Log,
)
    requires
        node_focused(t, Some(node), a, x),
        node_focused(u, Some(node), b, y),
        alike(h, t, fa, a, u, fb, b),
    ensures
        x == y,
        alike(h, a, fa, a, b, fb, b),
{
    let t1 = ask(t, a, Req::WindowAt(node));
    let u1 = ask(u, b, Req::WindowAt(node));
    assert(grew(t1, a) && grew(u1, b));
    lemma_asked(t, a, a, Req::WindowAt(node));
    lemma_asked(u, b, b, Req::WindowAt(node));
    lemma_next(h, t, fa, a, u, fb, b);
    let req = Req::SelectReturningSurfacedWindows(node);
    lemma_asked(t1, a, a, req);
    lemma_asked(u1, b, b, req);
    lemma_next(h, t1, fa, a, u1, fb, b);
}

/// The same end of a walk twice.
proof fn lemma_same_walk_end(
    h: Answers,
    s: State,
    space: SpaceId,
    selection: NodeId,
    end: NodeId,
    t: Log,
    x: Response,
    fa: int,
    a: Log,
    u: Log,
    y: Response,
    fb: int,
    b: Log,
)
    requires
        walk_ended(s, t, space, selection, end, a, x),
        walk_ended(s, u, space, selection, end, b, y),
        alike(h, t, fa, a, u, fb, b),
    ensures
        x == y,
        alike(h, a, fa, a, b, fb, b),
{
    if end != selection {
        let t1 = choose|t1: Log| #[trigger]
            scrolling_cleared(s, t, space, t1) && node_focused(t1, Some(end), a, x);
        let u1 = choose|t1: Log| #[trigger]
            scrolling_cleared(s, u, space, t1) && node_focused(t1, Some(end), b, y);
        assert(grew(t1, a) && grew(u1, b));
        let layout = s.spaces[space];
        if s.viewports.contains(layout) {
            let req = Req::StopUserScrolling(layout);
            lemma_asked(t, t1, a, req);
            lemma_asked(u, u1, b, req);
            lemma_next(h, t, fa, a, u, fb, b);
        }
        lemma_same_focus(h, end, t1, x, fa, a, u1, y, fb, b);
    }
}

pub proof fn lemma_walk_ended_grows(
    s: State,
    l: Log,
    space: SpaceId,
    selection: NodeId,
    end: NodeId,
    l2: Log,
    r: Response,
)
    requires
        walk_ended(s, l, space, selection, end, l2, r),
    ensures
        grew(l, l2),
{
    if end != selection {
        let t = choose|t: Log| #[trigger]
            scrolling_cleared(s, l, space, t) && node_focused(t, Some(end), l2, r);
        assert(grew(t, l2));
    }
}

pub proof fn lemma_stepped_grows(s: State, l: Log, space: SpaceId, steps: i32, l2: Log, r: Response)
    requires
        stepped(s, l, space, steps, l2, r),
    ensures
        grew(l, l2),
        grew(ask(l, l2, Req::Selection(s.spaces[space])), l2),
{
    let t = ask(l, l2, Req::Selection(s.spaces[space]));
    let selection = answer(t)->Node_0;
    let direction = walk_direction(steps);
    let round = s.scroll.infinite_loop;
    let n = steps_walked(steps);
    assert(walk_taken(s, t, space, selection, direction, n, l2, r));
    let (v, end) = choose|v: Log, end: NodeId| #[trigger]
        walked(t, s.spaces[space], selection, direction, round, n, v, end) && walk_ended(
            s,
            v,
            space,
            selection,
            end,
            l2,
            r,
        );
    lemma_walked_grows(t, s.spaces[space], selection, direction, round, n, v, end);
    lemma_walk_ended_grows(s, v, space, selection, end, l2, r);
    assert(grew(t, l2));
    assert(grew(l, t));
}

/// The same steps twice.
proof fn lemma_same_steps(
    h: Answers,
    s: State,
    space: SpaceId,
    steps: i32,
    t: Log,
    x: Response,
    fa: int,
    a: Log,
    u: Log,
    y: Response,
    fb: int,
    b: Log,
)
    requires
        stepped(s, t, space, steps, a, x),
        stepped(s, u, space, steps, b, y),
        alike(h, t, fa, a, u, fb, b),
    ensures
        x == y,
        alike(h, a, fa, a, b, fb, b),
{
    let layout = s.spaces[space];
    let req = Req::Selection(layout);
    let t1 = ask(t, a, req);
    let u1 = ask(u, b, req);
    lemma_stepped_grows(s, t, space, steps, a, x);
    lemma_stepped_grows(s, u, space, steps, b, y);
    lemma_asked(t, a, a, req);
    lemma_asked(u, b, b, req);
    lemma_next(h, t, fa, a, u, fb, b);
    let selection = answer(t1)->Node_0;
    let direction = walk_direction(steps);
    let round = s.scroll.infinite_loop;
    let n = steps_walked(steps);
    assert(walk_taken(s, t1, space, selection, direction, n, a, x));
    assert(walk_taken(s, u1, space, selection, direction, n, b, y));
    let (t2, p) = choose|v: Log, end: NodeId| #[trigger]
        walked(t1, layout, selection, direction, round, n, v, end) && walk_ended(
            s,
            v,
            space,
            selection,
            end,
            a,
            x,
        );
    let (u2, q) = choose|v: Log, end: NodeId| #[trigger]
        walked(u1, layout, selection, direction, round, n, v, end) && walk_ended(
            s,
            v,
            space,
            selection,
            end,
            b,
            y,
        );
    lemma_walk_ended_grows(s, t2, space, selection, p, a, x);
    lemma_walk_ended_grows(s, u2, space, selection, q, b, y);
    lemma_same_walk(h, layout, selection, direction, round, n, t1, t2, p, fa, a, u1, u2, q, fb, b);
    lemma_same_walk_end(h, s, space, selection, p, t2, x, fa, a, u2, y, fb, b);
}

pub proof fn lemma_gathered_grows(
    s: State,
    l: Log,
    space: SpaceId,
    width: Real,
    way: Real,
    threshold: Real,
    s2: State,
    l2: Log,
    r: Response,
) -> (t: Log)
    requires
        way_gathered(s, l, space, width, way, threshold, s2, l2, r),
    ensures
        ({
            let layout = s.spaces[space];
            let t1 = ask(t, l2, Req::SetScreenWidth(layout, width));
            let t2 = ask(t1, l2, Req::AccumulateScroll(layout, way, threshold));
            &&& viewport_open(s, l, layout, width, s2, t)
            &&& match answer(t2)->Steps_0 {
                None => l2 == t2 && r == nothing(),
                Some(steps) => stepped(s2, t2, space, steps, l2, r),
            }
            &&& grew(l, t)
            &&& grew(t, l2)
            &&& grew(t1, l2)
            &&& grew(t2, l2)
        }),
{
    let layout = s.spaces[space];
    let t = choose|t: Log|
        {
            let t1 = ask(t, l2, Req::SetScreenWidth(layout, width));
            let t2 = ask(t1, l2, Req::AccumulateScroll(layout, way, threshold));
            &&& #[trigger] viewport_open(s, l, layout, width, s2, t)
            &&& match answer(t2)->Steps_0 {
                None => l2 == t2 && r == nothing(),
                Some(steps) => stepped(s2, t2, space, steps, l2, r),
            }
        };
    let t1 = ask(t, l2, Req::SetScreenWidth(layout, width));
    let t2 = ask(t1, l2, Req::AccumulateScroll(layout, way, threshold));
    if let Some(steps) = answer(t2)->Steps_0 {
        lemma_stepped_grows(s2, t2, space, steps, l2, r);
    }
    assert(grew(t2, l2));
    assert(grew(t1, t2));
    assert(grew(t, t1));
    t
}

/// The same way gathered twice.
proof fn lemma_same_way(
    h: Answers,
    s: State,
    space: SpaceId,
    width: Real,
    way: Real,
    threshold: Real,
    t: Log,
    p: State,
    x: Response,
    fa: int,
    a: Log,
    u: Log,
    q: State,
    y: Response,
    fb: int,
    b: Log,
)
    requires
        way_gathered(s, t, space, width, way, threshold, p, a, x),
        way_gathered(s, u, space, width, way, threshold, q, b, y),
        alike(h, t, fa, a, u, fb, b),
    ensures
        p == q,
        x == y,
        alike(h, a, fa, a, b, fb, b),
{
    let layout = s.spaces[space];
    let t0 = lemma_gathered_grows(s, t, space, width, way, threshold, p, a, x);
    let u0 = lemma_gathered_grows(s, u, space, width, way, threshold, q, b, y);
    if !s.viewports.contains(layout) {
        let req = Req::OpenViewport(layout, width);
        lemma_asked(t, t0, a, req);
        lemma_asked(u, u0, b, req);
        lemma_next(h, t, fa, a, u, fb, b);
    }
    assert(alike(h, t0, fa, a, u0, fb, b));
    let req = Req::SetScreenWidth(layout, width);
    let t1 = ask(t0, a, req);
    let u1 = ask(u0, b, req);
    lemma_asked(t0, a, a, req);
    lemma_asked(u0, b, b, req);
    lemma_next(h, t0, fa, a, u0, fb, b);
    let req = Req::AccumulateScroll(layout, way, threshold);
    let t2 = ask(t1, a, req);
    let u2 = ask(u1, b, req);
    lemma_asked(t1, a, a, req);
    lemma_asked(u1, b, b, req);
    lemma_next(h, t1, fa, a, u1, fb, b);
    if let Some(steps) = answer(t2)->Steps_0 {
        lemma_same_steps(h, p, space, steps, t2, x, fa, a, u2, y, fb, b);
    }
}

pub proof fn lemma_turned_grows(
    s: State,
    l: Log,
    space: SpaceId,
    delta: Real,
    scaled: Real,
    width: Real,
    threshold: Real,
    s2: State,
    l2: Log,
    r: Response,
) -> (weighed: (Log, Real))
    requires
        turned(s, l, space, delta, scaled, width, threshold, s2, l2, r),
    ensures
        turn_weighed(l, delta, scaled, threshold, weighed.0, weighed.1),
        way_gathered(s, weighed.0, space, width, weighed.1, threshold, s2, l2, r),
        grew(l, weighed.0),
        grew(weighed.0, l2),
        grew(l, l2),
{
    let (t, way) = choose|t: Log, way: Real| #[trigger]
        turn_weighed(l, delta, scaled, threshold, t, way) && way_gathered(
            s,
            t,
            space,
            width,
            way,
            threshold,
            s2,
            l2,
            r,
        );
    lemma_weighed_grows(l, delta, scaled, threshold, t, way);
    let u = lemma_gathered_grows(s, t, space, width, way, threshold, s2, l2, r);
    (t, way)
}

/// What is summed before a turn is weighed: the way that makes a step, and the turn as the
/// settings make it. The result is the record then.
proof fn lemma_scaled(
    h: Answers,
    t2: Log,
    a: Log,
    from: int,
    width: Real,
    count: nat,
    delta: Real,
    config: ScrollView,
) -> (t5: Log)
    requires
        ({
            let t3 = ask(t2, a, Req::Binary(Binary::Divide, width, columns_across(count)));
            let inverted = ask(t3, a, Req::Unary(Unary::Negate, delta));
            let (t4, directed) = if config.invert_scroll_direction {
                (inverted, answer(inverted)->Number_0)
            } else {
                (t3, delta)
            };
            grew(
                ask(t4, a, Req::Binary(Binary::Multiply, directed, config.scroll_sensitivity)),
                a,
            )
        }),
        0 <= from <= t2.len(),
        h.given(a, from),
    ensures
        ({
            let t3 = ask(t2, a, Req::Binary(Binary::Divide, width, columns_across(count)));
            let inverted = ask(t3, a, Req::Unary(Unary::Negate, delta));
            let (t4, directed) = if config.invert_scroll_direction {
                (inverted, answer(inverted)->Number_0)
            } else {
                (t3, delta)
            };
            &&& t5 == ask(
                t4,
                a,
                Req::Binary(Binary::Multiply, directed, config.scroll_sensitivity),
            )
            &&& answer(t3)->Number_0 == h.number(
                Req::Binary(Binary::Divide, width, columns_across(count)),
            )
            &&& answer(t5)->Number_0 == h.scaled(delta, config)
        }),
        grew(t2, a),
        grew(t5, a),
        t2.len() <= t5.len(),
        told(t5, from) == told(t2, from),
{
    let divide = Req::Binary(Binary::Divide, width, columns_across(count));
    let t3 = ask(t2, a, divide);
    let inverted = ask(t3, a, Req::Unary(Unary::Negate, delta));
    let (t4, directed) = if config.invert_scroll_direction {
        (inverted, answer(inverted)->Number_0)
    } else {
        (t3, delta)
    };
    let multiply = Req::Binary(Binary::Multiply, directed, config.scroll_sensitivity);
    let t5 = ask(t4, a, multiply);
    lemma_asked(t4, a, a, multiply);
    if config.invert_scroll_direction {
        assert(grew(inverted, a));
        lemma_asked(t3, a, a, Req::Unary(Unary::Negate, delta));
    }
    assert(grew(t3, a));
    lemma_asked(t2, a, a, divide);
    lemma_sum(h, t2, from, a);
    if config.invert_scroll_direction {
        lemma_sum(h, t3, from, a);
    }
    lemma_sum(h, t4, from, a);
    t5
}

/// Two turns that count for the same way do the same.
proof fn lemma_same_wheel(
    h: Answers,
    s: State,
    space: SpaceId,
    screen: Frame,
    l: Log,
    d: Real,
    c: ScrollView,
    p: State,
    a: Log,
    x: Response,
    m: Log,
    e: Real,
    f: ScrollView,
    q: State,
    b: Log,
    y: Response,
)
    requires
        wheel_handled(s, l, space, d, screen, c, p, a, x),
        wheel_handled(s, m, space, e, screen, f, q, b, y),
        h.given(a, l.len() as int),
        h.given(b, m.len() as int),
        forall|threshold: Real| #[trigger]
            h.way(d, h.scaled(d, c), threshold) == h.way(e, h.scaled(e, f), threshold),
    ensures
        p == q,
        x == y,
        told(a, l.len() as int) == told(b, m.len() as int),
{
    let fa = l.len() as int;
    let fb = m.len() as int;
    if s.scroll_enabled {
        let layout = s.spaces[space];
        let width = screen.size.width;
        let req = Req::IsScrollLayout(layout);
        let t1 = ask(l, a, req);
        let u1 = ask(m, b, req);
        let columns = Req::Columns(layout);
        let t2 = ask(t1, a, columns);
        let u2 = ask(u1, b, columns);
        lemma_wheel_grows(s, l, space, d, screen, c, p, a, x);
        lemma_wheel_grows(s, m, space, e, screen, f, q, b, y);
        lemma_asked(l, a, a, req);
        lemma_asked(m, b, b, req);
        lemma_next(h, l, fa, a, m, fb, b);
        if answer(t1)->Flag_0 {
            lemma_asked(t1, a, a, columns);
            lemma_asked(u1, b, b, columns);
            lemma_next(h, t1, fa, a, u1, fb, b);
            let count = answer(t2)->Nodes_0.len();
            if count > 0 {
                let t5 = lemma_scaled(h, t2, a, fa, width, count, d, c);
                let u5 = lemma_scaled(h, u2, b, fb, width, count, e, f);
                let threshold = h.number(
                    Req::Binary(Binary::Divide, width, columns_across(count)),
                );
                let (t6, v) = lemma_turned_grows(
                    s,
                    t5,
                    space,
                    d,
                    h.scaled(d, c),
                    width,
                    threshold,
                    p,
                    a,
                    x,
                );
                let (u6, w) = lemma_turned_grows(
                    s,
                    u5,
                    space,
                    e,
                    h.scaled(e, f),
                    width,
                    threshold,
                    q,
                    b,
                    y,
                );
                lemma_weighed(h, t5, d, h.scaled(d, c), threshold, t6, v, a, fa);
                lemma_weighed(h, u5, e, h.scaled(e, f), threshold, u6, w, b, fb);
                assert(v == w);
                lemma_same_way(
                    h,
                    s,
                    space,
                    width,
                    v,
                    threshold,
                    t6,
                    p,
                    x,
                    fa,
                    a,
                    u6,
                    q,
                    y,
                    fb,
                    b,
                );
            }
        }
    }
}

pub proof fn lemma_wheel_grows(
    s: State,
    l: Log,
    space: SpaceId,
    delta: Real,
    screen: Frame,
    config: ScrollView,
    s2: State,
    l2: Log,
    r: Response,
)
    requires
        wheel_handled(s, l, space, delta, screen, config, s2, l2, r),
        s.scroll_enabled,
    ensures
        ({
            let layout = s.spaces[space];
            let width = screen.size.width;
            let t1 = ask(l, l2, Req::IsScrollLayout(layout));
            let t2 = ask(t1, l2, Req::Columns(layout));
            let count = answer(t2)->Nodes_0.len();
            let t3 = ask(t2, l2, Req::Binary(Binary::Divide, width, columns_across(count)));
            let inverted = ask(t3, l2, Req::Unary(Unary::Negate, delta));
            let (t4, directed) = if config.invert_scroll_direction {
                (inverted, answer(inverted)->Number_0)
            } else {
                (t3, delta)
            };
            &&& grew(t1, l2)
            &&& answer(t1)->Flag_0 ==> grew(t2, l2)
            &&& answer(t1)->Flag_0 && count > 0 ==> grew(
                ask(t4, l2, Req::Binary(Binary::Multiply, directed, config.scroll_sensitivity)),
                l2,
            )
        }),
{
    let layout = s.spaces[space];
    let width = screen.size.width;
    let t1 = ask(l, l2, Req::IsScrollLayout(layout));
    let t2 = ask(t1, l2, Req::Columns(layout));
    let count = answer(t2)->Nodes_0.len();
    if answer(t1)->Flag_0 && count > 0 {
        let t3 = ask(t2, l2, Req::Binary(Binary::Divide, width, columns_across(count)));
        let threshold = answer(t3)->Number_0;
        let inverted = ask(t3, l2, Req::Unary(Unary::Negate, delta));
        let (t4, directed) = if config.invert_scroll_direction {
            (inverted, answer(inverted)->Number_0)
        } else {
            (t3, delta)
        };
        let t5 = ask(t4, l2, Req::Binary(Binary::Multiply, directed, config.scroll_sensitivity));
        let weighed = lemma_turned_grows(
            s,
            t5,
            space,
            delta,
            answer(t5)->Number_0,
            width,
            threshold,
            s2,
            l2,
            r,
        );
        assert(grew(t2, t5));
    }
}

/// With the direction turned round, a turn of the wheel does what the opposite turn does
/// without: from the same state and with a host that answers alike, the response and the
/// new state are the same, and so is all that the host is told besides sums. The size of a
/// number, and whether it is whole, are not to depend on its sign.
pub proof fn law_inverted_wheel_is_opposite_turn(
    s: State,
    space: SpaceId,
    delta: Real,
    screen: Frame,
    config: ScrollView,
    l: Log,
    s2: State,
    l2: Log,
    r: Response,
    m: Log,
    s3: State,
    m2: Log,
    r3: Response,
    host: Answers,
)
    requires
        !config.invert_scroll_direction,
        wheel_handled(
            s,
            l,
            space,
            delta,
            screen,
            (ScrollView { invert_scroll_direction: true, ..config }),
            s2,
            l2,
            r,
        ),
        wheel_handled(s, m, space, host.negated(delta), screen, config, s3, m2, r3),
        host.given(l2, l.len() as int),
        host.given(m2, m.len() as int),
        host.sign_does_not_count(),
    ensures
        s3 == s2,
        r3 == r,
        told(m2, m.len() as int) == told(l2, l.len() as int),
{
    let inverted = ScrollView { invert_scroll_direction: true, ..config };
    let opposite = host.negated(delta);
    assert(host.scaled(delta, inverted) == host.scaled(opposite, config));
    assert(host.is_whole(opposite) == host.is_whole(delta));
    lemma_same_wheel(
        host,
        s,
        space,
        screen,
        l,
        delta,
        inverted,
        s2,
        l2,
        r,
        m,
        opposite,
        config,
        s3,
        m2,
        r3,
    );
}

/// A notch of the wheel counts the same whatever its size: two turns that are small whole
/// numbers, and that the settings leave on the same side of zero, have the same response
/// and lead to the same state, from the same state and with a host that answers alike; and
/// all that the host is told besides sums is the same.
pub proof fn law_size_of_notch_makes_no_difference(
    s: State,
    space: SpaceId,
    screen: Frame,
    config: ScrollView,
    l: Log,
    delta: Real,
    s2: State,
    l2: Log,
    r: Response,
    m: Log,
    other: Real,
    s3: State,
    m2: Log,
    r3: Response,
    host: Answers,
)
    requires
        wheel_handled(s, l, space, delta, screen, config, s2, l2, r),
        wheel_handled(s, m, space, other, screen, config, s3, m2, r3),
        host.given(l2, l.len() as int),
        host.given(m2, m.len() as int),
        host.sign_tells_side(),
        host.is_whole(delta),
        host.is_whole(other),
        host.same_side(host.scaled(delta, config), host.scaled(other, config)),
    ensures
        s3 == s2,
        r3 == r,
        told(m2, m.len() as int) == told(l2, l.len() as int),
{
    lemma_same_wheel(
        host,
        s,
        space,
        screen,
        l,
        delta,
        config,
        s2,
        l2,
        r,
        m,
        other,
        config,
        s3,
        m2,
        r3,
    );
}

} // verus!
