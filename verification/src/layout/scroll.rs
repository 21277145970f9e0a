//! Moving through a scroll layout with the wheel.

use vstd::prelude::*;

use crate::config::{ScrollConfig, ScrollView};
use crate::ids::{Direction, Frame, LayoutId, NodeId, Real, SpaceId, ONE};
use crate::layout::commands::node_focused;
use crate::layout::events::scrolling_cleared;
use crate::layout::state::{LayoutManager, State};
use crate::layout::viewport::viewport_open;
use crate::link::{answer, ask, grew, Binary, LayoutHost, Link, Log, Req, Unary};
use crate::response::{nothing, EventResponse, Response};

verus! {

/// The bit pattern of zero.
pub const ZERO: u64 = 0;

/// The bit pattern of 2.
pub const TWO: u64 = 0x4000_0000_0000_0000;

/// The bit pattern of 3.
pub const THREE: u64 = 0x4008_0000_0000_0000;

/// The bit pattern of 10: turns of a notched wheel are whole numbers below that.
pub const NOTCH_LIMIT: u64 = 0x4024_0000_0000_0000;

/// The most columns that one event moves by.
pub const MOST_STEPS: u32 = 16;

/// The number of columns that fill a screen, three at most.
pub open spec fn columns_across(count: nat) -> Real {
    Real(
        if count == 1 {
            ONE
        } else if count == 2 {
            TWO
        } else {
            THREE
        },
    )
}

/// Whether the wheel has notches: the turn is a small whole number.
pub open spec fn notched(l: Log, delta: Real, l2: Log, is_notched: bool) -> bool {
    let t1 = ask(l, l2, Req::Unary(Unary::Abs, delta));
    let t2 = ask(t1, l2, Req::Less(answer(t1)->Number_0, Real(NOTCH_LIMIT)));
    let t3 = ask(t2, l2, Req::Unary(Unary::Fract, delta));
    let t4 = ask(t3, l2, Req::Equal(answer(t3)->Number_0, Real(ZERO)));
    if answer(t2)->Flag_0 {
        l2 == t4 && is_notched == answer(t4)->Flag_0
    } else {
        l2 == t2 && !is_notched
    }
}

/// The way that a turn of the wheel counts for, and the way that makes a step. A
/// notch always makes a step.
pub open spec fn turn_weighed(
    l: Log,
    delta: Real,
    scaled: Real,
    threshold: Real,
    l2: Log,
    way: Real,
) -> bool {
    exists|t: Log, is_notched: bool|
        {
            &&& #[trigger] notched(l, delta, t, is_notched)
            &&& if is_notched {
                let t1 = ask(t, l2, Req::Unary(Unary::Signum, scaled));
                let t2 = ask(t1, l2, Req::Binary(Binary::Multiply, answer(t1)->Number_0, threshold));
                l2 == t2 && way == answer(t2)->Number_0
            } else {
                l2 == t && way == scaled
            }
        }
}

/// From `node`, `n` steps in a direction, or fewer where the way ends.
pub open spec fn walked(
    l: Log,
    layout: LayoutId,
    node: NodeId,
    direction: Direction,
    round: bool,
    n: nat,
    l2: Log,
    end: NodeId,
) -> bool
    decreases n,
{
    if n == 0 {
        l2 == l && end == node
    } else {
        let t = ask(
            l,
            l2,
            if round {
                Req::TraverseScrollWrapping(layout, node, direction)
            } else {
                Req::Traverse(node, direction)
            },
        );
        match answer(t)->MaybeNode_0 {
            None => l2 == t && end == node,
            Some(next) => walked(t, layout, next, direction, round, (n - 1) as nat, l2, end),
        }
    }
}

/// The direction in which to walk: what is scrolled to the left is followed to the right.
pub open spec fn walk_direction(steps: i32) -> Direction {
    if steps < 0 {
        Direction::Right
    } else {
        Direction::Left
    }
}

/// The number of steps to walk.
pub open spec fn steps_walked(steps: i32) -> nat {
    let wanted: int = if steps < 0 {
        -steps
    } else {
        steps as int
    };
    if wanted < 16 {
        wanted as nat
    } else {
        16
    }
}

/// The walk came from `selection` to `end`: if that is another node, it gets the focus.
pub open spec fn walk_ended(
    s: State,
    l: Log,
    space: SpaceId,
    selection: NodeId,
    end: NodeId,
    l2: Log,
    r: Response,
) -> bool {
    if end == selection {
        l2 == l && r == nothing()
    } else {
        exists|t: Log| #[trigger]
            scrolling_cleared(s, l, space, t) && node_focused(t, Some(end), l2, r)
    }
}

/// A walk of `n` steps from the selection, and what comes of it.
pub open spec fn walk_taken(
    s: State,
    l: Log,
    space: SpaceId,
    selection: NodeId,
    direction: Direction,
    n: nat,
    l2: Log,
    r: Response,
) -> bool {
    let layout = s.spaces[space];
    let round = s.scroll.infinite_loop;
    exists|t: Log, end: NodeId| #[trigger]
        walked(l, layout, selection, direction, round, n, t, end) && walk_ended(
            s,
            t,
            space,
            selection,
            end,
            l2,
            r,
        )
}

/// The wheel was turned far enough for some steps.
pub open spec fn stepped(s: State, l: Log, space: SpaceId, steps: i32, l2: Log, r: Response) -> bool {
    let t = ask(l, l2, Req::Selection(s.spaces[space]));
    walk_taken(
        s,
        t,
        space,
        answer(t)->Node_0,
        walk_direction(steps),
        steps_walked(steps),
        l2,
        r,
    )
}

/// The viewport gathers what was scrolled; whole steps move the focus.
pub open spec fn way_gathered(
    s: State,
    l: Log,
    space: SpaceId,
    width: Real,
    way: Real,
    threshold: Real,
    s2: State,
    l2: Log,
    r: Response,
) -> bool {
    let layout = s.spaces[space];
    exists|t: Log|
        {
            let t1 = ask(t, l2, Req::SetScreenWidth(layout, width));
            let t2 = ask(t1, l2, Req::AccumulateScroll(layout, way, threshold));
            &&& #[trigger] viewport_open(s, l, layout, width, s2, t)
            &&& match answer(t2)->Steps_0 {
                None => l2 == t2 && r == nothing(),
                Some(steps) => stepped(s2, t2, space, steps, l2, r),
            }
        }
}

/// The wheel was turned over a scroll layout that has columns. `scaled` is the turn
/// as the settings make it.
pub open spec fn turned(
    s: State,
    l: Log,
    space: SpaceId,
    delta: Real,
    scaled: Real,
    width: Real,
    threshold: Real,
    s2: State,
    l2: Log,
    r: Response,
) -> bool {
    exists|t: Log, way: Real| #[trigger]
        turn_weighed(l, delta, scaled, threshold, t, way) && way_gathered(
            s,
            t,
            space,
            width,
            way,
            threshold,
            s2,
            l2,
            r,
        )
}

/// The wheel was turned. Over a layout that does not scroll, or that has no column,
/// or while scroll layouts are off, nothing happens.
pub open spec fn wheel_handled(
    s: State,
    l: Log,
    space: SpaceId,
    delta: Real,
    screen: Frame,
    config: ScrollView,
    s2: State,
    l2: Log,
    r: Response,
) -> bool {
    let layout = s.spaces[space];
    let width = screen.size.width;
    let t1 = ask(l, l2, Req::IsScrollLayout(layout));
    let t2 = ask(t1, l2, Req::Columns(layout));
    let count = answer(t2)->Nodes_0.len();
    let t3 = ask(t2, l2, Req::Binary(Binary::Divide, width, columns_across(count)));
    let threshold = answer(t3)->Number_0;
    let inverted = ask(t3, l2, Req::Unary(Unary::Negate, delta));
    let (t4, directed) = if config.invert_scroll_direction {
        (inverted, answer(inverted)->Number_0)
    } else {
        (t3, delta)
    };
    let t5 = ask(t4, l2, Req::Binary(Binary::Multiply, directed, config.scroll_sensitivity));
    if !s.scroll_enabled {
        s2 == s && l2 == l && r == nothing()
    } else if !answer(t1)->Flag_0 {
        s2 == s && l2 == t1 && r == nothing()
    } else if count == 0 {
        s2 == s && l2 == t2 && r == nothing()
    } else {
        turned(s, t5, space, delta, answer(t5)->Number_0, width, threshold, s2, l2, r)
    }
}

fn steps_to_walk(steps: i32) -> (n: u32)
    ensures
        n == steps_walked(steps),
{
    if steps <= -16 || steps >= 16 {
        MOST_STEPS
    } else if steps < 0 {
        (-steps) as u32
    } else {
        steps as u32
    }
}

impl LayoutManager {
    fn is_notched<H: LayoutHost>(&self, link: &mut Link<H>, delta: Real) -> (is_notched: bool)
        ensures
            notched(old(link).log(), delta, final(link).log(), is_notched),
            grew(old(link).log(), final(link).log()),
    {
        let size = link.unary(Unary::Abs, delta);
        if link.less(size, Real(NOTCH_LIMIT)) {
            let fraction = link.unary(Unary::Fract, delta);
            link.equal(fraction, Real(ZERO))
        } else {
            false
        }
    }

    fn weigh_turn<H: LayoutHost>(
        &self,
        link: &mut Link<H>,
        delta: Real,
        scaled: Real,
        threshold: Real,
    ) -> (way: Real)
        ensures
            turn_weighed(old(link).log(), delta, scaled, threshold, final(link).log(), way),
            grew(old(link).log(), final(link).log()),
    {
        if self.is_notched(link, delta) {
            let sign = link.unary(Unary::Signum, scaled);
            link.binary(Binary::Multiply, sign, threshold)
        } else {
            scaled
        }
    }

    fn walk<H: LayoutHost>(
        &self,
        link: &mut Link<H>,
        layout: LayoutId,
        node: NodeId,
        direction: Direction,
        n: u32,
    ) -> (end: NodeId)
        ensures
            walked(
                old(link).log(),
                layout,
                node,
                direction,
                self@.scroll.infinite_loop,
                n as nat,
                final(link).log(),
                end,
            ),
            grew(old(link).log(), final(link).log()),
        decreases n,
    {
        if n == 0 {
            return node;
        }
        let next = if self.scroll_cfg.infinite_loop {
            link.traverse_scroll_wrapping(layout, node, direction)
        } else {
            link.traverse(node, direction)
        };
        match next {
            Some(next) => self.walk(link, layout, next, direction, n - 1),
            None => node,
        }
    }

    fn step<H: LayoutHost>(&self, link: &mut Link<H>, space: SpaceId, steps: i32) -> (response:
        EventResponse)
        requires
            self@.spaces.contains_key(space),
        ensures
            stepped(self@, old(link).log(), space, steps, final(link).log(), response@),
            grew(old(link).log(), final(link).log()),
    {
        let layout = self.layout(space);
        let selection = link.selection(layout);
        let direction = if steps < 0 {
            Direction::Right
        } else {
            Direction::Left
        };
        let ghost l = link.log();
        let n: u32 = steps_to_walk(steps);
        let end = self.walk(link, layout, selection, direction, n);
        let ghost t = link.log();
        let response = if end == selection {
            EventResponse::default()
        } else {
            self.clear_user_scrolling(link, space);
            self.focus_node(link, Some(end))
        };
        assert(walk_ended(self@, t, space, selection, end, link.log(), response@));
        assert(walk_taken(
            self@,
            l,
            space,
            selection,
            direction,
            n as nat,
            link.log(),
            response@,
        ));
        response
    }

    fn gather_way<H: LayoutHost>(
        &mut self,
        link: &mut Link<H>,
        space: SpaceId,
        width: Real,
        way: Real,
        threshold: Real,
    ) -> (response: EventResponse)
        requires
            old(self)@.spaces.contains_key(space),
        ensures
            way_gathered(
                old(self)@,
                old(link).log(),
                space,
                width,
                way,
                threshold,
                final(self)@,
                final(link).log(),
                response@,
            ),
            grew(old(link).log(), final(link).log()),
    {
        let layout = self.layout(space);
        let _ = self.viewport_mut(link, layout, width);
        let ghost t = link.log();
        link.set_screen_width(layout, width);
        let response = match link.accumulate_scroll(layout, way, threshold) {
            Some(steps) => self.step(link, space, steps),
            None => EventResponse::default(),
        };
        assert(viewport_open(old(self)@, old(link).log(), layout, width, self@, t));
        response
    }

    /// Moves the focus as the wheel says.
    pub fn handle_scroll_wheel<H: LayoutHost>(
        &mut self,
        link: &mut Link<H>,
        space: SpaceId,
        delta_x: Real,
        screen: &Frame,
        config: &ScrollConfig,
    ) -> (response: EventResponse)
        requires
            old(self)@.scroll_enabled ==> old(self)@.spaces.contains_key(space),
        ensures
            wheel_handled(
                old(self)@,
                old(link).log(),
                space,
                delta_x,
                *screen,
                config@,
                final(self)@,
                final(link).log(),
                response@,
            ),
            grew(old(link).log(), final(link).log()),
    {
        if !self.scroll_enabled {
            return EventResponse::default();
        }
        let layout = self.layout(space);
        if !link.is_scroll_layout(layout) {
            return EventResponse::default();
        }
        let count: usize = link.columns(layout).len();
        if count == 0 {
            return EventResponse::default();
        }
        let across = if count == 1 {
            Real(ONE)
        } else if count == 2 {
            Real(TWO)
        } else {
            Real(THREE)
        };
        let threshold = link.binary(Binary::Divide, screen.size.width, across);
        let delta = if config.invert_scroll_direction {
            link.unary(Unary::Negate, delta_x)
        } else {
            delta_x
        };
        let scaled = link.binary(Binary::Multiply, delta, config.scroll_sensitivity);
        let ghost l = link.log();
        let way = self.weigh_turn(link, delta_x, scaled, threshold);
        let ghost t = link.log();
        let ghost s = self@;
        let response = self.gather_way(link, space, screen.size.width, way, threshold);
        assert(turn_weighed(l, delta_x, scaled, threshold, t, way));
        assert(turned(
            s,
            l,
            space,
            delta_x,
            scaled,
            screen.size.width,
            threshold,
            self@,
            link.log(),
            response@,
        ));
        response
    }
}

} // verus!
