//! What the mouse takes hold of.
//!
//! `reply` is how the host answers at that time.

use vstd::prelude::*;

use crate::config::Config;
use crate::deeds::{
    deeds, group_deeds, lemma_deeds_join, lemma_each_asked, lemma_reply, lemma_reply_part,
};
use crate::edges::{near_edges, ResizeEdge};
use crate::ids::{ConfigId, Frame, LayoutId, NodeId, Point, Real, Size, SpaceId, WindowId};
use crate::layout::interactive::{
    edges_detected, edges_hit, edges_if_close, edges_taken, edges_told, edges_tried, edges_within,
    first_edges, narrowed, no_edges, point_questions, widened, window_and_column, window_hit,
    window_under,
};
use crate::layout::state::State;
use crate::layout::viewport::frames_shown;
use crate::link::{answer, answered_by, ask, asked_until, grew, Binary, Log, Rep, Req};

verus! {

/// Which borders of a frame a point is near, each by itself.
pub struct Nearness {
    /// Whether the point is close to the frame but not well within it.
    pub close: bool,
    pub left: bool,
    pub right: bool,
    pub top: bool,
    pub bottom: bool,
}

/// What comes of two numbers.
pub open spec fn sum(reply: spec_fn(Req) -> Rep, op: Binary, a: Real, b: Real) -> Real {
    reply(Req::Binary(op, a, b))->Number_0
}

/// Which borders of a frame a point is near: within 8 of them. A point is close to a frame
/// that is 8 larger on every side, and well within the frame that is 8 smaller.
#[verifier::opaque]
pub open spec fn nearness(reply: spec_fn(Req) -> Rep, point: Point, frame: Frame) -> Nearness {
    let eight = Real(0x4020_0000_0000_0000);
    let sixteen = Real(0x4030_0000_0000_0000);
    let zero = Real(0);
    let x = frame.origin.x;
    let y = frame.origin.y;
    let wide = Frame {
        origin: Point {
            x: sum(reply, Binary::Subtract, x, eight),
            y: sum(reply, Binary::Subtract, y, eight),
        },
        size: Size {
            width: sum(reply, Binary::Add, frame.size.width, sixteen),
            height: sum(reply, Binary::Add, frame.size.height, sixteen),
        },
    };
    let narrow = Frame {
        origin: Point {
            x: sum(reply, Binary::Add, x, eight),
            y: sum(reply, Binary::Add, y, eight),
        },
        size: Size {
            width: sum(
                reply,
                Binary::Max,
                sum(reply, Binary::Subtract, frame.size.width, sixteen),
                zero,
            ),
            height: sum(
                reply,
                Binary::Max,
                sum(reply, Binary::Subtract, frame.size.height, sixteen),
                zero,
            ),
        },
    };
    let end_x = sum(reply, Binary::Add, x, frame.size.width);
    let end_y = sum(reply, Binary::Add, y, frame.size.height);
    Nearness {
        close: reply(Req::ContainsPoint(wide, point))->Flag_0 && !reply(
            Req::ContainsPoint(narrow, point),
        )->Flag_0,
        left: reply(Req::Less(point.x, narrow.origin.x))->Flag_0,
        right: reply(
            Req::Less(sum(reply, Binary::Subtract, end_x, eight), point.x),
        )->Flag_0,
        top: reply(Req::Less(point.y, narrow.origin.y))->Flag_0,
        bottom: reply(
            Req::Less(sum(reply, Binary::Subtract, end_y, eight), point.y),
        )->Flag_0,
    }
}

/// Whether a point is near an edge of a frame: close to it, and near one of two opposite
/// borders and not the other.
pub open spec fn is_near_edge(reply: spec_fn(Req) -> Rep, point: Point, frame: Frame) -> bool {
    let near = nearness(reply, point, frame);
    near.close && (near.left != near.right || near.top != near.bottom)
}

/// The edges are those that the mouse is near: the left one if the point is near the left
/// border and not the right one, and so on.
pub open spec fn are_near_edges(
    reply: spec_fn(Req) -> Rep,
    point: Point,
    frame: Frame,
    edges: ResizeEdge,
) -> bool {
    let near = nearness(reply, point, frame);
    &&& edges.left() <==> near.close && near.left && !near.right
    &&& edges.right() <==> near.close && near.right && !near.left
    &&& edges.top() <==> near.close && near.top && !near.bottom
    &&& edges.bottom() <==> near.close && near.bottom && !near.top
    &&& edges.0 != 0 <==> is_near_edge(reply, point, frame)
}

proof fn lemma_near_edges(left: bool, right: bool, top: bool, bottom: bool)
    ensures
        ({
            let edges = near_edges(left, right, top, bottom);
            &&& edges.left() <==> left && !right
            &&& edges.right() <==> right && !left
            &&& edges.top() <==> top && !bottom
            &&& edges.bottom() <==> bottom && !top
            &&& edges.0 != 0 <==> left != right || top != bottom
        }),
{
    let bits = near_edges(left, right, top, bottom).0;
    let h: u8 = if left == right {
        0
    } else if left {
        1
    } else {
        2
    };
    let v: u8 = if top == bottom {
        0
    } else if top {
        4
    } else {
        8
    };
    assert(bits == h + v);
    assert((bits & 1 != 0) == (h == 1) && (bits & 2 != 0) == (h == 2) && (bits & 4 != 0) == (v == 4)
        && (bits & 8 != 0) == (v == 8)) by (bit_vector)
        requires
            bits == h + v,
            h == 0 || h == 1 || h == 2,
            v == 0 || v == 4 || v == 8,
    ;
}

proof fn lemma_no_bits()
    ensures
        !ResizeEdge(0).left(),
        !ResizeEdge(0).right(),
        !ResizeEdge(0).top(),
        !ResizeEdge(0).bottom(),
{
    assert(0u8 & 1 == 0 && 0u8 & 2 == 0 && 0u8 & 4 == 0 && 0u8 & 8 == 0) by (bit_vector);
}

/// Looking for edges only asks.
proof fn lemma_detection_asks(l: Log, point: Point, frame: Frame, l2: Log, edges: ResizeEdge)
    requires
        edges_detected(l, point, frame, l2, edges),
    ensures
        grew(l, l2),
        forall|at: int| 0 <= at <= l.len() ==> #[trigger] deeds(l2, at) == deeds(l, at),
{
    broadcast use group_deeds;

    let (t, wide) = choose|t: Log, wide: Frame| #[trigger]
        widened(l, frame, t, wide) && edges_if_close(t, point, frame, wide, l2, edges);
    let t1 = ask(t, l2, Req::ContainsPoint(wide, point));
    if answer(t1)->Flag_0 {
        let (t2, narrow) = choose|t2: Log, narrow: Frame| #[trigger]
            narrowed(t1, frame, t2, narrow) && edges_within(t2, point, frame, narrow, l2, edges);
        let t3 = ask(t2, l2, Req::ContainsPoint(narrow, point));
        if !answer(t3)->Flag_0 {
            assert(edges_told(t3, point, frame, narrow, l2, edges));
        }
    }
}

/// The edges that the mouse is near are those whose border it is near, unless the window is
/// so small that it is near the opposite border as well.
#[verifier::rlimit(60)]
pub proof fn law_edges_near_the_mouse(
    l: Log,
    point: Point,
    frame: Frame,
    l2: Log,
    edges: ResizeEdge,
    reply: spec_fn(Req) -> Rep,
    from: int,
)
    requires
        edges_detected(l, point, frame, l2, edges),
        answered_by(reply, l2, from),
        0 <= from <= l.len(),
    ensures
        are_near_edges(reply, point, frame, edges),
        grew(l, l2),
        deeds(l2, from) == deeds(l, from),
{
    reveal(nearness);
    lemma_detection_asks(l, point, frame, l2, edges);
    lemma_no_bits();
    let eight = Real(0x4020_0000_0000_0000);
    let sixteen = Real(0x4030_0000_0000_0000);
    let (t, wide) = choose|t: Log, wide: Frame| #[trigger]
        widened(l, frame, t, wide) && edges_if_close(t, point, frame, wide, l2, edges);
    let q = Req::ContainsPoint(wide, point);
    let t1 = ask(t, l2, q);
    if answer(t1)->Flag_0 {
        let (t2, narrow) = choose|t2: Log, narrow: Frame| #[trigger]
            narrowed(t1, frame, t2, narrow) && edges_within(t2, point, frame, narrow, l2, edges);
        let q2 = Req::ContainsPoint(narrow, point);
        let t3 = ask(t2, l2, q2);
        if !answer(t3)->Flag_0 {
            assert(grew(t3, l2));
            lemma_told(t3, point, frame, narrow, l2, edges, reply, from);
        }
        lemma_reply(reply, t2, l2, q2, from);
        lemma_reply_part(reply, t2, l2, from);
        lemma_narrowed(t1, frame, t2, narrow, reply, from);
    }
    assert(grew(t1, l2));
    lemma_reply(reply, t, l2, q, from);
    lemma_reply_part(reply, t, l2, from);
    lemma_widened(l, frame, t, wide, reply, from);
}

proof fn lemma_widened(
    l: Log,
    frame: Frame,
    l2: Log,
    wide: Frame,
    reply: spec_fn(Req) -> Rep,
    from: int,
)
    requires
        widened(l, frame, l2, wide),
        answered_by(reply, l2, from),
        0 <= from <= l.len(),
    ensures
        ({
            let eight = Real(0x4020_0000_0000_0000);
            let sixteen = Real(0x4030_0000_0000_0000);
            wide == Frame {
                origin: Point {
                    x: sum(reply, Binary::Subtract, frame.origin.x, eight),
                    y: sum(reply, Binary::Subtract, frame.origin.y, eight),
                },
                size: Size {
                    width: sum(reply, Binary::Add, frame.size.width, sixteen),
                    height: sum(reply, Binary::Add, frame.size.height, sixteen),
                },
            }
        }),
{
    let n = l.len() as int;
    assert(l2[n].rep == reply(l2[n].req) && l2[n + 1].rep == reply(l2[n + 1].req) && l2[n + 2].rep
        == reply(l2[n + 2].req) && l2[n + 3].rep == reply(l2[n + 3].req));
}

proof fn lemma_narrowed(
    l: Log,
    frame: Frame,
    l2: Log,
    narrow: Frame,
    reply: spec_fn(Req) -> Rep,
    from: int,
)
    requires
        narrowed(l, frame, l2, narrow),
        answered_by(reply, l2, from),
        0 <= from <= l.len(),
    ensures
        ({
            let eight = Real(0x4020_0000_0000_0000);
            let sixteen = Real(0x4030_0000_0000_0000);
            let zero = Real(0);
            narrow == Frame {
                origin: Point {
                    x: sum(reply, Binary::Add, frame.origin.x, eight),
                    y: sum(reply, Binary::Add, frame.origin.y, eight),
                },
                size: Size {
                    width: sum(
                        reply,
                        Binary::Max,
                        sum(reply, Binary::Subtract, frame.size.width, sixteen),
                        zero,
                    ),
                    height: sum(
                        reply,
                        Binary::Max,
                        sum(reply, Binary::Subtract, frame.size.height, sixteen),
                        zero,
                    ),
                },
            }
        }),
{
    let n = l.len() as int;
    assert(l2[n].rep == reply(l2[n].req) && l2[n + 1].rep == reply(l2[n + 1].req) && l2[n + 2].rep
        == reply(l2[n + 2].req) && l2[n + 3].rep == reply(l2[n + 3].req) && l2[n + 4].rep == reply(
        l2[n + 4].req,
    ) && l2[n + 5].rep == reply(l2[n + 5].req));
}

proof fn lemma_told(
    l: Log,
    point: Point,
    frame: Frame,
    narrow: Frame,
    l2: Log,
    edges: ResizeEdge,
    reply: spec_fn(Req) -> Rep,
    from: int,
)
    requires
        edges_told(l, point, frame, narrow, l2, edges),
        answered_by(reply, l2, from),
        0 <= from <= l.len(),
    ensures
        ({
            let eight = Real(0x4020_0000_0000_0000);
            let end_x = sum(reply, Binary::Add, frame.origin.x, frame.size.width);
            let end_y = sum(reply, Binary::Add, frame.origin.y, frame.size.height);
            let left = reply(Req::Less(point.x, narrow.origin.x))->Flag_0;
            let right = reply(
                Req::Less(sum(reply, Binary::Subtract, end_x, eight), point.x),
            )->Flag_0;
            let top = reply(Req::Less(point.y, narrow.origin.y))->Flag_0;
            let bottom = reply(
                Req::Less(sum(reply, Binary::Subtract, end_y, eight), point.y),
            )->Flag_0;
            &&& edges.left() <==> left && !right
            &&& edges.right() <==> right && !left
            &&& edges.top() <==> top && !bottom
            &&& edges.bottom() <==> bottom && !top
            &&& edges.0 != 0 <==> left != right || top != bottom
        }),
{
    let n = l.len() as int;
    assert(l2[n].rep == reply(l2[n].req) && l2[n + 1].rep == reply(l2[n + 1].req) && l2[n + 2].rep
        == reply(l2[n + 2].req) && l2[n + 3].rep == reply(l2[n + 3].req));
    assert(l2[n + 4].rep == reply(l2[n + 4].req) && l2[n + 5].rep == reply(l2[n + 5].req)
        && l2[n + 6].rep == reply(l2[n + 6].req) && l2[n + 7].rep == reply(l2[n + 7].req));
    lemma_near_edges(
        l2[n].rep->Flag_0,
        l2[n + 3].rep->Flag_0,
        l2[n + 4].rep->Flag_0,
        l2[n + 7].rep->Flag_0,
    );
}

proof fn lemma_no_edges(
    l: Log,
    point: Point,
    frames: Seq<(WindowId, Frame)>,
    l2: Log,
    reply: spec_fn(Req) -> Rep,
    from: int,
)
    requires
        no_edges(l, point, frames, l2),
        0 <= from <= l.len(),
    ensures
        grew(l, l2),
        deeds(l2, from) == deeds(l, from),
        answered_by(reply, l2, from) ==> forall|i: int|
            0 <= i < frames.len() ==> !is_near_edge(reply, point, (#[trigger] frames[i]).1),
    decreases frames.len(),
{
    if frames.len() > 0 {
        let front = frames.drop_last();
        let t = choose|t: Log|
            no_edges(l, point, front, t) && #[trigger] edges_detected(
                t,
                point,
                frames.last().1,
                l2,
                ResizeEdge(0),
            );
        lemma_no_edges(l, point, front, t, reply, from);
        lemma_detection_asks(t, point, frames.last().1, l2, ResizeEdge(0));
        assert(deeds(l2, from) == deeds(t, from));
        if answered_by(reply, l2, from) {
            lemma_reply_part(reply, t, l2, from);
            law_edges_near_the_mouse(t, point, frames.last().1, l2, ResizeEdge(0), reply, from);
            assert forall|i: int| 0 <= i < frames.len() implies !is_near_edge(
                reply,
                point,
                (#[trigger] frames[i]).1,
            ) by {
                if i < front.len() {
                    assert(front[i] == frames[i]);
                }
            }
        }
    }
}

/// The frames that a space shows, through the viewport where its layout scrolls and has one.
pub open spec fn shown_frames(
    reply: spec_fn(Req) -> Rep,
    s: State,
    space: SpaceId,
    screen: Frame,
    config: ConfigId,
) -> Seq<(WindowId, Frame)> {
    let layout = s.spaces[space];
    let plain = reply(Req::CalculateLayout(layout, screen, config))->Frames_0;
    if s.scroll_enabled && reply(Req::IsScrollLayout(layout))->Flag_0 && s.viewports.contains(
        layout,
    ) {
        reply(Req::ApplyViewport(layout, screen, plain))->Frames_0
    } else {
        plain
    }
}

proof fn lemma_shown_frames(
    s: State,
    l: Log,
    space: SpaceId,
    screen: Frame,
    config: ConfigId,
    l2: Log,
    frames: Seq<(WindowId, Frame)>,
    reply: spec_fn(Req) -> Rep,
    from: int,
)
    requires
        frames_shown(s, l, space, screen, config, l2, frames),
        answered_by(reply, l2, from),
        0 <= from <= l.len(),
    ensures
        grew(l, l2),
        deeds(l2, from) == deeds(l, from),
        frames == shown_frames(reply, s, space, screen, config),
{
    broadcast use group_deeds;

    let layout = s.spaces[space];
    let q1 = Req::CalculateLayout(layout, screen, config);
    let t1 = ask(l, l2, q1);
    let plain = answer(t1)->Frames_0;
    if s.scroll_enabled {
        let q2 = Req::IsScrollLayout(layout);
        let t2 = ask(t1, l2, q2);
        if answer(t2)->Flag_0 && s.viewports.contains(layout) {
            lemma_reply(reply, t2, l2, Req::ApplyViewport(layout, screen, plain), from);
        }
        lemma_reply(reply, t1, l2, q2, from);
    }
    lemma_reply(reply, l, l2, q1, from);
}

/// What the mouse takes hold of for a resize, `first` being the first of the frames shown
/// that it is near an edge of: the column and the node of that window, and the edges of the
/// frame that the mouse is near.
pub proof fn law_edges_of_first_frame_are_held(
    s: State,
    l: Log,
    space: SpaceId,
    point: Point,
    screen: Frame,
    config: Config,
    l2: Log,
    hit: Option<(NodeId, NodeId, ResizeEdge)>,
    first: int,
    reply: spec_fn(Req) -> Rep,
)
    requires
        edges_hit(s, l, space, point, screen, config, l2, hit),
        answered_by(reply, l2, l.len() as int),
        s.scroll_enabled,
        s.spaces.contains_key(space),
        reply(Req::IsScrollLayout(s.spaces[space]))->Flag_0,
        ({
            let frames = shown_frames(reply, s, space, screen, config.id);
            &&& 0 <= first < frames.len()
            &&& is_near_edge(reply, point, frames[first].1)
            &&& forall|i: int|
                0 <= i < first ==> !is_near_edge(reply, point, (#[trigger] frames[i]).1)
        }),
    ensures
        deeds(l2, l.len() as int) == Seq::<Req>::empty(),
        ({
            let layout = s.spaces[space];
            let frames = shown_frames(reply, s, space, screen, config.id);
            let window = reply(Req::WindowNode(layout, frames[first].0))->MaybeNode_0;
            let column = match window {
                Some(window) => reply(Req::ColumnOf(layout, window))->MaybeNode_0,
                None => None,
            };
            match hit {
                Some((c, w, edges)) => {
                    &&& column == Some(c)
                    &&& window == Some(w)
                    &&& are_near_edges(reply, point, frames[first].1, edges)
                },
                None => column is None,
            }
        }),
{
    broadcast use group_deeds;

    let n = l.len() as int;
    let layout = s.spaces[space];
    let q = Req::IsScrollLayout(layout);
    let t = ask(l, l2, q);
    assert(answer(t)->Flag_0) by {
        if !answer(t)->Flag_0 {
            lemma_reply(reply, l, l2, q, n);
        }
    }
    let (t2, found) = lemma_edges_tried(s, t, space, point, screen, config, l2, hit, reply, n);
    let frames = shown_frames(reply, s, space, screen, config.id);
    let t1 = choose|t1: Log| #[trigger]
        first_edges(t1, point, frames, t2, found) && grew(t, t1) && deeds(t1, n) == deeds(t, n);
    lemma_first_edges(t1, point, frames, t2, found, first, reply, n);
    let q1 = Req::WindowNode(layout, frames[first].0);
    let u1 = ask(t2, l2, q1);
    if answer(u1)->MaybeNode_0 is Some {
        lemma_reply(reply, u1, l2, Req::ColumnOf(layout, answer(u1)->MaybeNode_0->0), n);
    }
    lemma_reply(reply, t2, l2, q1, n);
}

/// The edges are sought in the frames that are shown.
proof fn lemma_edges_tried(
    s: State,
    l: Log,
    space: SpaceId,
    point: Point,
    screen: Frame,
    config: Config,
    l2: Log,
    hit: Option<(NodeId, NodeId, ResizeEdge)>,
    reply: spec_fn(Req) -> Rep,
    from: int,
) -> (sought: (Log, Option<(int, ResizeEdge)>))
    requires
        edges_tried(s, l, space, point, screen, config, l2, hit),
        answered_by(reply, l2, from),
        0 <= from <= l.len(),
    ensures
        ({
            let layout = s.spaces[space];
            let frames = shown_frames(reply, s, space, screen, config.id);
            let (t2, found) = sought;
            &&& exists|t1: Log| #[trigger]
                first_edges(t1, point, frames, t2, found) && grew(l, t1) && deeds(t1, from)
                    == deeds(l, from)
            &&& grew(l, t2)
            &&& grew(t2, l2)
            &&& answered_by(reply, t2, from)
            &&& deeds(t2, from) == deeds(l, from)
            &&& match found {
                None => l2 == t2 && hit is None,
                Some((n, edges)) => match hit {
                    None => window_and_column(t2, layout, frames[n].0, l2, None),
                    Some((column, window, held)) => held == edges && window_and_column(
                        t2,
                        layout,
                        frames[n].0,
                        l2,
                        Some((column, window)),
                    ),
                },
            }
        }),
{
    let layout = s.spaces[space];
    let (t1, frames) = choose|t1: Log, frames: Seq<(WindowId, Frame)>| #[trigger]
        frames_shown(s, l, space, screen, config.id, t1, frames) && edges_taken(
            t1,
            layout,
            point,
            frames,
            l2,
            hit,
        );
    let (t2, found) = lemma_edges_taken(t1, layout, point, frames, l2, hit, from);
    lemma_shown_grows(s, l, space, screen, config.id, t1, frames);
    lemma_reply_part(reply, t2, l2, from);
    lemma_reply_part(reply, t1, t2, from);
    lemma_shown_frames(s, l, space, screen, config.id, t1, frames, reply, from);
    (t2, found)
}

pub proof fn lemma_edges_tried_grows(
    s: State,
    l: Log,
    space: SpaceId,
    point: Point,
    screen: Frame,
    config: Config,
    l2: Log,
    hit: Option<(NodeId, NodeId, ResizeEdge)>,
)
    requires
        edges_tried(s, l, space, point, screen, config, l2, hit),
    ensures
        grew(l, l2),
{
    let layout = s.spaces[space];
    let (t1, frames) = choose|t1: Log, frames: Seq<(WindowId, Frame)>| #[trigger]
        frames_shown(s, l, space, screen, config.id, t1, frames) && edges_taken(
            t1,
            layout,
            point,
            frames,
            l2,
            hit,
        );
    lemma_shown_grows(s, l, space, screen, config.id, t1, frames);
    let (t2, found) = lemma_edges_taken(t1, layout, point, frames, l2, hit, 0);
}

proof fn lemma_shown_grows(
    s: State,
    l: Log,
    space: SpaceId,
    screen: Frame,
    config: ConfigId,
    l2: Log,
    frames: Seq<(WindowId, Frame)>,
)
    requires
        frames_shown(s, l, space, screen, config, l2, frames),
    ensures
        grew(l, l2),
{
}

proof fn lemma_edges_taken(
    t1: Log,
    layout: LayoutId,
    point: Point,
    frames: Seq<(WindowId, Frame)>,
    l2: Log,
    hit: Option<(NodeId, NodeId, ResizeEdge)>,
    from: int,
) -> (sought: (Log, Option<(int, ResizeEdge)>))
    requires
        edges_taken(t1, layout, point, frames, l2, hit),
        0 <= from <= t1.len(),
    ensures
        ({
            let (t2, found) = sought;
            &&& first_edges(t1, point, frames, t2, found)
            &&& grew(t1, t2)
            &&& grew(t2, l2)
            &&& deeds(t2, from) == deeds(t1, from)
            &&& match found {
                None => l2 == t2 && hit is None,
                Some((n, edges)) => match hit {
                    None => window_and_column(t2, layout, frames[n].0, l2, None),
                    Some((column, window, held)) => held == edges && window_and_column(
                        t2,
                        layout,
                        frames[n].0,
                        l2,
                        Some((column, window)),
                    ),
                },
            }
        }),
{
    let (t2, found) = choose|t2: Log, found: Option<(int, ResizeEdge)>|
        {
            &&& #[trigger] first_edges(t1, point, frames, t2, found)
            &&& match found {
                None => l2 == t2 && hit is None,
                Some((n, edges)) => match hit {
                    None => window_and_column(t2, layout, frames[n].0, l2, None),
                    Some((column, window, held)) => held == edges && window_and_column(
                        t2,
                        layout,
                        frames[n].0,
                        l2,
                        Some((column, window)),
                    ),
                },
            }
        };
    lemma_first_edges_asks(t1, point, frames, t2, found, from);
    (t2, found)
}

proof fn lemma_first_edges_asks(
    l: Log,
    point: Point,
    frames: Seq<(WindowId, Frame)>,
    l2: Log,
    found: Option<(int, ResizeEdge)>,
    from: int,
)
    requires
        first_edges(l, point, frames, l2, found),
        0 <= from <= l.len(),
    ensures
        grew(l, l2),
        deeds(l2, from) == deeds(l, from),
{
    let any = |req: Req| Rep::Unit;
    match found {
        None => lemma_no_edges(l, point, frames, l2, any, from),
        Some((n, edges)) => {
            let t = choose|t: Log| #[trigger]
                no_edges(l, point, frames.take(n), t) && edges_detected(
                    t,
                    point,
                    frames[n].1,
                    l2,
                    edges,
                );
            lemma_no_edges(l, point, frames.take(n), t, any, from);
            lemma_detection_asks(t, point, frames[n].1, l2, edges);
            assert(deeds(l2, from) == deeds(t, from));
        },
    }
}

proof fn lemma_first_edges(
    l: Log,
    point: Point,
    frames: Seq<(WindowId, Frame)>,
    l2: Log,
    found: Option<(int, ResizeEdge)>,
    first: int,
    reply: spec_fn(Req) -> Rep,
    from: int,
)
    requires
        first_edges(l, point, frames, l2, found),
        answered_by(reply, l2, from),
        0 <= from <= l.len(),
        0 <= first < frames.len(),
        is_near_edge(reply, point, frames[first].1),
        forall|i: int| 0 <= i < first ==> !is_near_edge(reply, point, (#[trigger] frames[i]).1),
    ensures
        match found {
            Some((k, edges)) => k == first && are_near_edges(
                reply,
                point,
                frames[first].1,
                edges,
            ),
            None => false,
        },
{
    match found {
        None => {
            lemma_no_edges(l, point, frames, l2, reply, from);
            assert(!is_near_edge(reply, point, frames[first].1));
        },
        Some((n, edges)) => {
            let t = choose|t: Log| #[trigger]
                no_edges(l, point, frames.take(n), t) && edges_detected(
                    t,
                    point,
                    frames[n].1,
                    l2,
                    edges,
                );
            lemma_detection_asks(t, point, frames[n].1, l2, edges);
            lemma_reply_part(reply, t, l2, from);
            lemma_no_edges(l, point, frames.take(n), t, reply, from);
            law_edges_near_the_mouse(t, point, frames[n].1, l2, edges, reply, from);
            if first < n {
                assert(frames.take(n)[first] == frames[first]);
            }
            if n < first {
                assert(!is_near_edge(reply, point, frames[n].1));
            }
        },
    }
}

/// Where the mouse is near no edge of the frames shown, or the layout does not scroll, no
/// edge is held.
pub proof fn law_no_edge_is_held(
    s: State,
    l: Log,
    space: SpaceId,
    point: Point,
    screen: Frame,
    config: Config,
    l2: Log,
    hit: Option<(NodeId, NodeId, ResizeEdge)>,
    reply: spec_fn(Req) -> Rep,
)
    requires
        edges_hit(s, l, space, point, screen, config, l2, hit),
        answered_by(reply, l2, l.len() as int),
        ({
            let frames = shown_frames(reply, s, space, screen, config.id);
            ||| !s.scroll_enabled
            ||| !s.spaces.contains_key(space)
            ||| !reply(Req::IsScrollLayout(s.spaces[space]))->Flag_0
            ||| forall|i: int|
                0 <= i < frames.len() ==> !is_near_edge(reply, point, (#[trigger] frames[i]).1)
        }),
    ensures
        hit is None,
        deeds(l2, l.len() as int) == Seq::<Req>::empty(),
{
    broadcast use group_deeds;

    let n = l.len() as int;
    let layout = s.spaces[space];
    if s.scroll_enabled && s.spaces.contains_key(space) {
        let q = Req::IsScrollLayout(layout);
        let t = ask(l, l2, q);
        if answer(t)->Flag_0 {
            let (t2, found) = lemma_edges_tried(
                s,
                t,
                space,
                point,
                screen,
                config,
                l2,
                hit,
                reply,
                n,
            );
            let frames = shown_frames(reply, s, space, screen, config.id);
            let t1 = choose|t1: Log| #[trigger]
                first_edges(t1, point, frames, t2, found) && grew(t, t1) && deeds(t1, n)
                    == deeds(t, n);
            assert(grew(t, l2));
            lemma_reply(reply, l, l2, q, n);
            if let Some((k, edges)) = found {
                let u = choose|u: Log| #[trigger]
                    no_edges(t1, point, frames.take(k), u) && edges_detected(
                        u,
                        point,
                        frames[k].1,
                        t2,
                        edges,
                    );
                lemma_detection_asks(u, point, frames[k].1, t2, edges);
                lemma_no_edges(t1, point, frames.take(k), u, reply, n);
                law_edges_near_the_mouse(u, point, frames[k].1, t2, edges, reply, n);
                assert(is_near_edge(reply, point, frames[k].1));
            }
        } else {
            lemma_reply(reply, l, l2, q, n);
        }
    }
}

/// The window that the mouse is over is the first of those shown whose frame holds it, if
/// the layout has that window.
pub proof fn law_window_under_the_mouse(
    s: State,
    l: Log,
    space: SpaceId,
    point: Point,
    screen: Frame,
    config: Config,
    l2: Log,
    hit: Option<(WindowId, NodeId)>,
    reply: spec_fn(Req) -> Rep,
)
    requires
        window_hit(s, l, space, point, screen, config, l2, hit),
        answered_by(reply, l2, l.len() as int),
    ensures
        deeds(l2, l.len() as int) == Seq::<Req>::empty(),
        ({
            let layout = s.spaces[space];
            let frames = shown_frames(reply, s, space, screen, config.id);
            let holds = |i: int| reply(Req::ContainsPoint(frames[i].1, point))->Flag_0;
            let scrolls = s.scroll_enabled && s.spaces.contains_key(space) && reply(
                Req::IsScrollLayout(layout),
            )->Flag_0;
            &&& !scrolls ==> hit is None
            &&& scrolls && (forall|i: int| 0 <= i < frames.len() ==> !#[trigger] holds(i))
                ==> hit is None
            &&& forall|first: int|
                scrolls && 0 <= first < frames.len() && #[trigger] holds(first) && (forall|i: int|
                    0 <= i < first ==> !#[trigger] holds(i)) ==> hit == match reply(
                    Req::WindowNode(layout, frames[first].0),
                )->MaybeNode_0 {
                    Some(node) => Some((frames[first].0, node)),
                    None => None,
                }
        }),
{
    broadcast use group_deeds;

    let n = l.len() as int;
    let layout = s.spaces[space];
    if s.scroll_enabled && s.spaces.contains_key(space) {
        let q = Req::IsScrollLayout(layout);
        let t = ask(l, l2, q);
        if answer(t)->Flag_0 {
            let (t1, frames) = choose|t1: Log, frames: Seq<(WindowId, Frame)>| #[trigger]
                frames_shown(s, t, space, screen, config.id, t1, frames) && window_under(
                    t1,
                    layout,
                    point,
                    frames,
                    l2,
                    hit,
                );
            let qs = point_questions(frames, point);
            let (t2, found) = choose|t2: Log, found: Option<int>|
                {
                    &&& #[trigger] asked_until(t1, qs, true, t2, found)
                    &&& match found {
                        None => l2 == t2 && hit is None,
                        Some(n) => {
                            let t1 = ask(t2, l2, Req::WindowNode(layout, frames[n].0));
                            l2 == t1 && hit == match answer(t1)->MaybeNode_0 {
                                None => None,
                                Some(node) => Some((frames[n].0, node)),
                            }
                        },
                    }
                };
            let made: int = match found {
                Some(i) => i + 1,
                None => qs.len() as int,
            };
            assert(grew(t1, t2));
            assert(grew(t2, l2));
            lemma_reply_part(reply, t2, l2, n);
            lemma_reply_part(reply, t1, t2, n);
            lemma_shown_frames(s, t, space, screen, config.id, t1, frames, reply, n);
            assert(grew(t, l2));
            lemma_reply(reply, l, l2, q, n);
            lemma_each_asked(t1, t2, qs.take(made));
            lemma_deeds_join(l, t1, t2);
            let holds = |i: int| reply(Req::ContainsPoint(frames[i].1, point))->Flag_0;
            assert forall|i: int| 0 <= i < made implies (
            #[trigger] t2[t1.len() + i]).rep->Flag_0 == holds(i) by {
                assert(t2[t1.len() + i].req == qs.take(made)[i]);
            }
            assert forall|i: int| 0 <= i < made implies (#[trigger] holds(i) <==> found == Some(
                i,
            )) by {
                assert(qs[i] == qs[i]);
                assert(t2[t1.len() + i].rep->Flag_0 == holds(i));
            }
            if let Some(k) = found {
                lemma_reply(reply, t2, l2, Req::WindowNode(layout, frames[k].0), n);
                assert(holds(k));
            }
        } else {
            lemma_reply(reply, l, l2, q, n);
        }
    }
}

} // verus!
