//! What the wheel is for.
//!
//! `reply` is how the host answers at that time.

use vstd::prelude::*;

use crate::config::ScrollView;
use crate::deeds::{deeds, group_deeds, lemma_reply, lemma_reply_part};
use crate::ids::{Direction, Frame, LayoutId, NodeId, Real, SpaceId};
use crate::layout::commands::node_focused;
use crate::layout::event_laws::lemma_with;
use crate::layout::events::scrolling_cleared;
use crate::layout::scroll::{
    columns_across, notched, stepped, steps_walked, turn_weighed, walk_direction, walk_ended,
    walked, wheel_handled, NOTCH_LIMIT, ZERO,
};
use crate::layout::state::State;
use crate::layout::viewport_laws::opening;
use crate::layout::wheel_laws::{
    lemma_gathered_grows, lemma_stepped_grows, lemma_turned_grows, lemma_walk_ended_grows,
    lemma_walked_grows, lemma_wheel_grows,
};
use crate::link::{answer, answered_by, ask, grew, Binary, Log, Rep, Req, Unary};
use crate::response::{nothing, Response};

verus! {

/// The node that a walk of `n` steps in a direction ends at. It ends early where there is
/// nothing more that way. Where the ends of the layout meet, the way goes round.
pub open spec fn walk_end(
    reply: spec_fn(Req) -> Rep,
    layout: LayoutId,
    node: NodeId,
    direction: Direction,
    round: bool,
    n: nat,
) -> NodeId
    decreases n,
{
    if n == 0 {
        node
    } else {
        let next = if round {
            reply(Req::TraverseScrollWrapping(layout, node, direction))->MaybeNode_0
        } else {
            reply(Req::Traverse(node, direction))->MaybeNode_0
        };
        match next {
            Some(next) => walk_end(reply, layout, next, direction, round, (n - 1) as nat),
            None => node,
        }
    }
}

proof fn lemma_walk_end(
    l: Log,
    layout: LayoutId,
    node: NodeId,
    direction: Direction,
    round: bool,
    n: nat,
    l2: Log,
    end: NodeId,
    reply: spec_fn(Req) -> Rep,
    from: int,
)
    requires
        walked(l, layout, node, direction, round, n, l2, end),
        answered_by(reply, l2, from),
        0 <= from <= l.len(),
    ensures
        grew(l, l2),
        deeds(l2, from) == deeds(l, from),
        end == walk_end(reply, layout, node, direction, round, n),
    decreases n,
{
    broadcast use group_deeds;

    lemma_walked_grows(l, layout, node, direction, round, n, l2, end);
    if n > 0 {
        let q = if round {
            Req::TraverseScrollWrapping(layout, node, direction)
        } else {
            Req::Traverse(node, direction)
        };
        let t = ask(l, l2, q);
        if let Some(next) = answer(t)->MaybeNode_0 {
            lemma_walked_grows(t, layout, next, direction, round, (n - 1) as nat, l2, end);
            lemma_walk_end(
                t,
                layout,
                next,
                direction,
                round,
                (n - 1) as nat,
                l2,
                end,
                reply,
                from,
            );
        }
        lemma_reply(reply, l, l2, q, from);
    }
}

/// How far a turn of the wheel counts: what the settings make of it, or one column where the
/// wheel has notches, that is, where the turn is a whole number below ten.
pub open spec fn way_of_turn(
    reply: spec_fn(Req) -> Rep,
    delta: Real,
    config: ScrollView,
    threshold: Real,
) -> Real {
    let directed = if config.invert_scroll_direction {
        reply(Req::Unary(Unary::Negate, delta))->Number_0
    } else {
        delta
    };
    let scaled = reply(
        Req::Binary(Binary::Multiply, directed, config.scroll_sensitivity),
    )->Number_0;
    let size = reply(Req::Unary(Unary::Abs, delta))->Number_0;
    let rest = reply(Req::Unary(Unary::Fract, delta))->Number_0;
    if reply(Req::Less(size, Real(0x4024_0000_0000_0000)))->Flag_0 && reply(
        Req::Equal(rest, Real(0)),
    )->Flag_0 {
        let sign = reply(Req::Unary(Unary::Signum, scaled))->Number_0;
        reply(Req::Binary(Binary::Multiply, sign, threshold))->Number_0
    } else {
        scaled
    }
}

proof fn lemma_weighed(
    l: Log,
    delta: Real,
    scaled: Real,
    threshold: Real,
    l2: Log,
    way: Real,
    reply: spec_fn(Req) -> Rep,
    from: int,
)
    requires
        turn_weighed(l, delta, scaled, threshold, l2, way),
        answered_by(reply, l2, from),
        0 <= from <= l.len(),
    ensures
        deeds(l2, from) == deeds(l, from),
        way == {
            let size = reply(Req::Unary(Unary::Abs, delta))->Number_0;
            let rest = reply(Req::Unary(Unary::Fract, delta))->Number_0;
            if reply(Req::Less(size, Real(NOTCH_LIMIT)))->Flag_0 && reply(
                Req::Equal(rest, Real(ZERO)),
            )->Flag_0 {
                let sign = reply(Req::Unary(Unary::Signum, scaled))->Number_0;
                reply(Req::Binary(Binary::Multiply, sign, threshold))->Number_0
            } else {
                scaled
            }
        },
{
    broadcast use group_deeds;

    let (t, is_notched) = choose|t: Log, is_notched: bool|
        {
            &&& #[trigger] notched(l, delta, t, is_notched)
            &&& if is_notched {
                let t1 = ask(t, l2, Req::Unary(Unary::Signum, scaled));
                let t2 = ask(t1, l2, Req::Binary(Binary::Multiply, answer(t1)->Number_0, threshold));
                l2 == t2 && way == answer(t2)->Number_0
            } else {
                l2 == t && way == scaled
            }
        };
    assert(grew(t, l2));
    lemma_reply_part(reply, t, l2, from);
    let q1 = Req::Unary(Unary::Abs, delta);
    let t1 = ask(l, t, q1);
    let q2 = Req::Less(answer(t1)->Number_0, Real(NOTCH_LIMIT));
    let t2 = ask(t1, t, q2);
    let q3 = Req::Unary(Unary::Fract, delta);
    let t3 = ask(t2, t, q3);
    let q4 = Req::Equal(answer(t3)->Number_0, Real(ZERO));
    if answer(t2)->Flag_0 {
        lemma_reply(reply, t3, t, q4, from);
        lemma_reply(reply, t2, t, q3, from);
    }
    lemma_reply(reply, t1, t, q2, from);
    lemma_reply(reply, l, t, q1, from);
    if is_notched {
        let q5 = Req::Unary(Unary::Signum, scaled);
        let t5 = ask(t, l2, q5);
        lemma_reply(
            reply,
            t5,
            l2,
            Req::Binary(Binary::Multiply, answer(t5)->Number_0, threshold),
            from,
        );
        lemma_reply(reply, t, l2, q5, from);
    }
}

/// A turn of the wheel over a layout that scrolls: the viewport, opened if it was not, gathers
/// it, a column being as wide as the screen divided by the number of columns, three at most.
/// Where that makes steps, the focus goes as many columns on, sixteen at most: to the right
/// for steps below zero and to the left for others. Where it comes to another node, that
/// is selected, its window focused, and the viewport follows it.
#[verifier::rlimit(60)]
pub proof fn law_wheel_moves_the_focus(
    s: State,
    l: Log,
    space: SpaceId,
    delta: Real,
    screen: Frame,
    config: ScrollView,
    s2: State,
    l2: Log,
    r: Response,
    reply: spec_fn(Req) -> Rep,
)
    requires
        wheel_handled(s, l, space, delta, screen, config, s2, l2, r),
        answered_by(reply, l2, l.len() as int),
        s.scroll_enabled,
        reply(Req::IsScrollLayout(s.spaces[space]))->Flag_0,
        reply(Req::Columns(s.spaces[space]))->Nodes_0.len() > 0,
    ensures
        ({
            let layout = s.spaces[space];
            let count = reply(Req::Columns(layout))->Nodes_0.len();
            let across = Real(
                if count == 1 {
                    0x3ff0_0000_0000_0000
                } else if count == 2 {
                    0x4000_0000_0000_0000
                } else {
                    0x4008_0000_0000_0000
                },
            );
            let threshold = reply(
                Req::Binary(Binary::Divide, screen.size.width, across),
            )->Number_0;
            let way = way_of_turn(reply, delta, config, threshold);
            let gathered = Req::AccumulateScroll(layout, way, threshold);
            let selection = reply(Req::Selection(layout))->Node_0;
            let end = match reply(gathered)->Steps_0 {
                Some(steps) => walk_end(
                    reply,
                    layout,
                    selection,
                    if steps < 0 {
                        Direction::Right
                    } else {
                        Direction::Left
                    },
                    s.scroll.infinite_loop,
                    if steps <= -16 || steps >= 16 {
                        16
                    } else if steps < 0 {
                        (-steps) as nat
                    } else {
                        steps as nat
                    },
                ),
                None => selection,
            };
            let done = deeds(l2, l.len() as int);
            &&& s2 == State { viewports: s2.viewports, ..s }
            &&& forall|x: LayoutId| #[trigger]
                s2.viewports.contains(x) <==> s.viewports.contains(x) || x == layout
            &&& if end == selection {
                &&& r == nothing()
                &&& done == opening(s, layout, screen) + seq![gathered]
            } else {
                &&& r.focus == reply(Req::WindowAt(end))->MaybeWindow_0
                &&& r.raise == reply(Req::SelectReturningSurfacedWindows(end))->Windows_0
                &&& done == opening(s, layout, screen) + seq![
                    gathered,
                    Req::StopUserScrolling(layout),
                    Req::SelectReturningSurfacedWindows(end),
                ]
            }
        }),
{
    broadcast use group_deeds;

    let n = l.len() as int;
    let layout = s.spaces[space];
    let width = screen.size.width;
    let q1 = Req::IsScrollLayout(layout);
    let t1 = ask(l, l2, q1);
    let q2 = Req::Columns(layout);
    let t2 = ask(t1, l2, q2);
    let count = answer(t2)->Nodes_0.len();
    let q3 = Req::Binary(Binary::Divide, width, columns_across(count));
    let t3 = ask(t2, l2, q3);
    let threshold = answer(t3)->Number_0;
    let q4 = Req::Unary(Unary::Negate, delta);
    let inverted = ask(t3, l2, q4);
    let (t4, directed) = if config.invert_scroll_direction {
        (inverted, answer(inverted)->Number_0)
    } else {
        (t3, delta)
    };
    let q5 = Req::Binary(Binary::Multiply, directed, config.scroll_sensitivity);
    let t5 = ask(t4, l2, q5);
    if !answer(t1)->Flag_0 {
        lemma_reply(reply, l, l2, q1, n);
        assert(false);
    }
    if count == 0 {
        lemma_reply(reply, t1, l2, q2, n);
        lemma_reply(reply, l, l2, q1, n);
        assert(false);
    }
    let scaled = answer(t5)->Number_0;
    let (t6, way) = lemma_turned_grows(
        s,
        t5,
        space,
        delta,
        scaled,
        width,
        threshold,
        s2,
        l2,
        r,
    );
    lemma_reply(reply, t4, l2, q5, n);
    if config.invert_scroll_direction {
        lemma_reply(reply, t3, l2, q4, n);
    }
    assert(grew(t3, l2));
    lemma_reply(reply, t2, l2, q3, n);
    lemma_reply(reply, t1, l2, q2, n);
    lemma_reply(reply, l, l2, q1, n);
    lemma_reply_part(reply, t6, l2, n);
    lemma_weighed(t5, delta, scaled, threshold, t6, way, reply, n);
    let t7 = lemma_gathered_grows(s, t6, space, width, way, threshold, s2, l2, r);
    let q6 = Req::SetScreenWidth(layout, width);
    let t8 = ask(t7, l2, q6);
    let q7 = Req::AccumulateScroll(layout, way, threshold);
    let t9 = ask(t8, l2, q7);
    lemma_reply(reply, t8, l2, q7, n);
    lemma_with(s.viewports, layout);
    assert(deeds(t6, n) =~= Seq::<Req>::empty());
    assert(deeds(t9, n) =~= opening(s, layout, screen) + seq![q7]);
    if let Some(steps) = answer(t9)->Steps_0 {
        lemma_stepped_end(s2, t9, space, steps, l2, r, reply, n);
        let end = walk_end(
            reply,
            layout,
            reply(Req::Selection(layout))->Node_0,
            walk_direction(steps),
            s2.scroll.infinite_loop,
            steps_walked(steps),
        );
        assert(s2.viewports.contains(layout));
        assert((opening(s, layout, screen) + seq![q7]).push(Req::StopUserScrolling(layout)).push(
            Req::SelectReturningSurfacedWindows(end),
        ) =~= opening(s, layout, screen) + seq![
            q7,
            Req::StopUserScrolling(layout),
            Req::SelectReturningSurfacedWindows(end),
        ]);
    }
}

/// Over a layout that does not scroll, or that has no column, and while scroll layouts are off,
/// the wheel does nothing.
pub proof fn law_wheel_needs_columns(
    s: State,
    l: Log,
    space: SpaceId,
    delta: Real,
    screen: Frame,
    config: ScrollView,
    s2: State,
    l2: Log,
    r: Response,
    reply: spec_fn(Req) -> Rep,
)
    requires
        wheel_handled(s, l, space, delta, screen, config, s2, l2, r),
        answered_by(reply, l2, l.len() as int),
        !s.scroll_enabled || !reply(Req::IsScrollLayout(s.spaces[space]))->Flag_0 || reply(
            Req::Columns(s.spaces[space]),
        )->Nodes_0.len() == 0,
    ensures
        s2 == s,
        r == nothing(),
        deeds(l2, l.len() as int) == Seq::<Req>::empty(),
{
    broadcast use group_deeds;

    let n = l.len() as int;
    let layout = s.spaces[space];
    if s.scroll_enabled {
        let q1 = Req::IsScrollLayout(layout);
        let t1 = ask(l, l2, q1);
        let q2 = Req::Columns(layout);
        let t2 = ask(t1, l2, q2);
        lemma_wheel_grows(s, l, space, delta, screen, config, s2, l2, r);
        lemma_reply(reply, l, l2, q1, n);
        if answer(t1)->Flag_0 {
            lemma_reply(reply, t1, l2, q2, n);
        }
    }
}

proof fn lemma_stepped_end(
    s: State,
    l: Log,
    space: SpaceId,
    steps: i32,
    l2: Log,
    r: Response,
    reply: spec_fn(Req) -> Rep,
    from: int,
)
    requires
        stepped(s, l, space, steps, l2, r),
        answered_by(reply, l2, from),
        0 <= from <= l.len(),
    ensures
        ({
            let layout = s.spaces[space];
            let selection = reply(Req::Selection(layout))->Node_0;
            let end = walk_end(
                reply,
                layout,
                selection,
                walk_direction(steps),
                s.scroll.infinite_loop,
                steps_walked(steps),
            );
            if end == selection {
                r == nothing() && deeds(l2, from) == deeds(l, from)
            } else {
                &&& r.focus == reply(Req::WindowAt(end))->MaybeWindow_0
                &&& r.raise == reply(Req::SelectReturningSurfacedWindows(end))->Windows_0
                &&& deeds(l2, from) == if s.viewports.contains(layout) {
                    deeds(l, from).push(Req::StopUserScrolling(layout)).push(
                        Req::SelectReturningSurfacedWindows(end),
                    )
                } else {
                    deeds(l, from).push(Req::SelectReturningSurfacedWindows(end))
                }
            }
        }),
{
    broadcast use group_deeds;

    let layout = s.spaces[space];
    let q = Req::Selection(layout);
    let t = ask(l, l2, q);
    let selection = answer(t)->Node_0;
    let direction = walk_direction(steps);
    let round = s.scroll.infinite_loop;
    let n = steps_walked(steps);
    lemma_stepped_grows(s, l, space, steps, l2, r);
    lemma_reply(reply, l, l2, q, from);
    let (u, end) = choose|u: Log, end: NodeId| #[trigger]
        walked(t, layout, selection, direction, round, n, u, end) && walk_ended(
            s,
            u,
            space,
            selection,
            end,
            l2,
            r,
        );
    lemma_walk_ended_grows(s, u, space, selection, end, l2, r);
    lemma_reply_part(reply, u, l2, from);
    lemma_walk_end(t, layout, selection, direction, round, n, u, end, reply, from);
    if end != selection {
        let v = choose|v: Log| #[trigger]
            scrolling_cleared(s, u, space, v) && node_focused(v, Some(end), l2, r);
        let v1 = ask(v, l2, Req::WindowAt(end));
        lemma_reply(reply, v1, l2, Req::SelectReturningSurfacedWindows(end), from);
        lemma_reply(reply, v, l2, Req::WindowAt(end), from);
    }
}

} // verus!
