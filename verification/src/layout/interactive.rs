//! Resizing and moving windows of a scroll layout with the mouse.

use vstd::prelude::*;

use crate::config::Config;
use crate::edges::{near_edges, ResizeEdge};
use crate::ids::{Direction, Frame, LayoutId, NodeId, Point, Real, Size, SpaceId, WindowId};
use crate::layout::events::scrolling_cleared;
use crate::layout::scroll::ZERO;
use crate::layout::state::{InteractiveScrollMove, InteractiveScrollResize, LayoutManager, State};
use crate::layout::viewport::{frames_shown, viewport_followed};
use crate::link::{
    answer, ask, asked_in_vain, asked_until, grew, lemma_asked_all, lemma_asked_none, lemma_asked_on,
    Binary, LayoutHost, Link, Log, Rep, Req, Unary,
};

verus! {

/// The bit pattern of 8: an edge can be taken hold of that close to it.
pub const RESIZE_EDGE_THRESHOLD: u64 = 0x4020_0000_0000_0000;

/// The bit pattern of 16, twice the distance.
pub const TWICE_THRESHOLD: u64 = 0x4030_0000_0000_0000;

/// The bit pattern of 10: the mouse has to move that far before a window follows it.
pub const MOVE_DRAG_THRESHOLD: u64 = 0x4024_0000_0000_0000;

/// The frame with a margin around it. `l2` is the log after the arithmetic.
pub open spec fn widened(l: Log, frame: Frame, l2: Log, wide: Frame) -> bool {
    let near = Real(RESIZE_EDGE_THRESHOLD);
    let both = Real(TWICE_THRESHOLD);
    let t1 = ask(l, l2, Req::Binary(Binary::Subtract, frame.origin.x, near));
    let t2 = ask(t1, l2, Req::Binary(Binary::Subtract, frame.origin.y, near));
    let t3 = ask(t2, l2, Req::Binary(Binary::Add, frame.size.width, both));
    let t4 = ask(t3, l2, Req::Binary(Binary::Add, frame.size.height, both));
    &&& l2 == t4
    &&& wide == Frame {
        origin: Point { x: answer(t1)->Number_0, y: answer(t2)->Number_0 },
        size: Size { width: answer(t3)->Number_0, height: answer(t4)->Number_0 },
    }
}

/// The frame without a margin on the inside.
pub open spec fn narrowed(l: Log, frame: Frame, l2: Log, narrow: Frame) -> bool {
    let near = Real(RESIZE_EDGE_THRESHOLD);
    let both = Real(TWICE_THRESHOLD);
    let t1 = ask(l, l2, Req::Binary(Binary::Add, frame.origin.x, near));
    let t2 = ask(t1, l2, Req::Binary(Binary::Add, frame.origin.y, near));
    let t3 = ask(t2, l2, Req::Binary(Binary::Subtract, frame.size.width, both));
    let t4 = ask(t3, l2, Req::Binary(Binary::Max, answer(t3)->Number_0, Real(ZERO)));
    let t5 = ask(t4, l2, Req::Binary(Binary::Subtract, frame.size.height, both));
    let t6 = ask(t5, l2, Req::Binary(Binary::Max, answer(t5)->Number_0, Real(ZERO)));
    &&& l2 == t6
    &&& narrow == Frame {
        origin: Point { x: answer(t1)->Number_0, y: answer(t2)->Number_0 },
        size: Size { width: answer(t4)->Number_0, height: answer(t6)->Number_0 },
    }
}

/// The edges that the mouse is near. `narrow` is the frame without its margin.
pub open spec fn edges_told(
    l: Log,
    point: Point,
    frame: Frame,
    narrow: Frame,
    l2: Log,
    edges: ResizeEdge,
) -> bool {
    let near = Real(RESIZE_EDGE_THRESHOLD);
    let t1 = ask(l, l2, Req::Less(point.x, narrow.origin.x));
    let t2 = ask(t1, l2, Req::Binary(Binary::Add, frame.origin.x, frame.size.width));
    let t3 = ask(t2, l2, Req::Binary(Binary::Subtract, answer(t2)->Number_0, near));
    let t4 = ask(t3, l2, Req::Less(answer(t3)->Number_0, point.x));
    let t5 = ask(t4, l2, Req::Less(point.y, narrow.origin.y));
    let t6 = ask(t5, l2, Req::Binary(Binary::Add, frame.origin.y, frame.size.height));
    let t7 = ask(t6, l2, Req::Binary(Binary::Subtract, answer(t6)->Number_0, near));
    let t8 = ask(t7, l2, Req::Less(answer(t7)->Number_0, point.y));
    &&& l2 == t8
    &&& edges == near_edges(
        answer(t1)->Flag_0,
        answer(t4)->Flag_0,
        answer(t5)->Flag_0,
        answer(t8)->Flag_0,
    )
}

/// The mouse is within `narrow`, and near no edge, or it is near some edges.
pub open spec fn edges_within(
    l: Log,
    point: Point,
    frame: Frame,
    narrow: Frame,
    l2: Log,
    edges: ResizeEdge,
) -> bool {
    let t = ask(l, l2, Req::ContainsPoint(narrow, point));
    if answer(t)->Flag_0 {
        l2 == t && edges == ResizeEdge(0)
    } else {
        edges_told(t, point, frame, narrow, l2, edges)
    }
}

/// The mouse is in the widened frame: it is near some edges, or not.
pub open spec fn edges_sought(l: Log, point: Point, frame: Frame, l2: Log, edges: ResizeEdge) -> bool {
    exists|t: Log, narrow: Frame| #[trigger]
        narrowed(l, frame, t, narrow) && edges_within(t, point, frame, narrow, l2, edges)
}

/// The edges are looked for if the mouse is in the widened frame.
pub open spec fn edges_if_close(
    l: Log,
    point: Point,
    frame: Frame,
    wide: Frame,
    l2: Log,
    edges: ResizeEdge,
) -> bool {
    let t = ask(l, l2, Req::ContainsPoint(wide, point));
    if answer(t)->Flag_0 {
        edges_sought(t, point, frame, l2, edges)
    } else {
        l2 == t && edges == ResizeEdge(0)
    }
}

/// The edges of a frame that the mouse is near: close to the frame, not well within
/// it, and close to one edge rather than to its opposite.
pub open spec fn edges_detected(l: Log, point: Point, frame: Frame, l2: Log, edges: ResizeEdge) -> bool {
    exists|t: Log, wide: Frame| #[trigger]
        widened(l, frame, t, wide) && edges_if_close(t, point, frame, wide, l2, edges)
}

/// The mouse is near no edge of any of the frames.
pub open spec fn no_edges(l: Log, point: Point, frames: Seq<(WindowId, Frame)>, l2: Log) -> bool
    decreases frames.len(),
{
    if frames.len() == 0 {
        l2 == l
    } else {
        exists|t: Log|
            no_edges(l, point, frames.drop_last(), t) && #[trigger] edges_detected(
                t,
                point,
                frames.last().1,
                l2,
                ResizeEdge(0),
            )
    }
}

/// The first of the frames that has an edge near the mouse, and its edges.
pub open spec fn first_edges(
    l: Log,
    point: Point,
    frames: Seq<(WindowId, Frame)>,
    l2: Log,
    hit: Option<(int, ResizeEdge)>,
) -> bool {
    match hit {
        None => no_edges(l, point, frames, l2),
        Some((n, edges)) => {
            &&& 0 <= n < frames.len()
            &&& edges.0 != 0
            &&& exists|t: Log| #[trigger]
                no_edges(l, point, frames.take(n), t) && edges_detected(
                    t,
                    point,
                    frames[n].1,
                    l2,
                    edges,
                )
        },
    }
}

/// The nodes of a window and of the column that holds it.
pub open spec fn window_and_column(
    l: Log,
    layout: LayoutId,
    wid: WindowId,
    l2: Log,
    nodes: Option<(NodeId, NodeId)>,
) -> bool {
    let t1 = ask(l, l2, Req::WindowNode(layout, wid));
    match answer(t1)->MaybeNode_0 {
        None => l2 == t1 && nodes is None,
        Some(window) => {
            let t2 = ask(t1, l2, Req::ColumnOf(layout, window));
            l2 == t2 && nodes == match answer(t2)->MaybeNode_0 {
                None => None,
                Some(column) => Some((column, window)),
            }
        },
    }
}

/// The first of the frames with an edge near the mouse decides what is taken hold of.
pub open spec fn edges_taken(
    l: Log,
    layout: LayoutId,
    point: Point,
    frames: Seq<(WindowId, Frame)>,
    l2: Log,
    hit: Option<(NodeId, NodeId, ResizeEdge)>,
) -> bool {
    exists|t: Log, first: Option<(int, ResizeEdge)>|
        {
            &&& #[trigger] first_edges(l, point, frames, t, first)
            &&& match first {
                None => l2 == t && hit is None,
                Some((n, edges)) => match hit {
                    None => window_and_column(t, layout, frames[n].0, l2, None),
                    Some((column, window, held)) => held == edges && window_and_column(
                        t,
                        layout,
                        frames[n].0,
                        l2,
                        Some((column, window)),
                    ),
                },
            }
        }
}

/// The mouse is tried against the frames that `space` shows.
pub open spec fn edges_tried(
    s: State,
    l: Log,
    space: SpaceId,
    point: Point,
    screen: Frame,
    config: Config,
    l2: Log,
    hit: Option<(NodeId, NodeId, ResizeEdge)>,
) -> bool {
    exists|t: Log, frames: Seq<(WindowId, Frame)>| #[trigger]
        frames_shown(s, l, space, screen, config.id, t, frames) && edges_taken(
            t,
            s.spaces[space],
            point,
            frames,
            l2,
            hit,
        )
}

/// What the mouse takes hold of for a resize: the column, the window and the edges.
/// Only windows of scroll layouts can be taken hold of.
pub open spec fn edges_hit(
    s: State,
    l: Log,
    space: SpaceId,
    point: Point,
    screen: Frame,
    config: Config,
    l2: Log,
    hit: Option<(NodeId, NodeId, ResizeEdge)>,
) -> bool {
    if !s.scroll_enabled || !s.spaces.contains_key(space) {
        l2 == l && hit is None
    } else {
        let t = ask(l, l2, Req::IsScrollLayout(s.spaces[space]));
        if answer(t)->Flag_0 {
            edges_tried(s, t, space, point, screen, config, l2, hit)
        } else {
            l2 == t && hit is None
        }
    }
}

/// The questions which of the frames the mouse is in.
pub open spec fn point_questions(frames: Seq<(WindowId, Frame)>, point: Point) -> Seq<Req> {
    frames.map_values(|entry: (WindowId, Frame)| Req::ContainsPoint(entry.1, point))
}

/// The first of the frames that the mouse is in decides which window is meant.
pub open spec fn window_under(
    l: Log,
    layout: LayoutId,
    point: Point,
    frames: Seq<(WindowId, Frame)>,
    l2: Log,
    hit: Option<(WindowId, NodeId)>,
) -> bool {
    exists|t: Log, found: Option<int>|
        {
            &&& #[trigger] asked_until(l, point_questions(frames, point), true, t, found)
            &&& match found {
                None => l2 == t && hit is None,
                Some(n) => {
                    let t1 = ask(t, l2, Req::WindowNode(layout, frames[n].0));
                    l2 == t1 && hit == match answer(t1)->MaybeNode_0 {
                        None => None,
                        Some(node) => Some((frames[n].0, node)),
                    }
                },
            }
        }
}

/// The mouse is tried against the frames that `space` shows.
pub open spec fn window_tried(
    s: State,
    l: Log,
    space: SpaceId,
    point: Point,
    screen: Frame,
    config: Config,
    l2: Log,
    hit: Option<(WindowId, NodeId)>,
) -> bool {
    exists|t: Log, frames: Seq<(WindowId, Frame)>| #[trigger]
        frames_shown(s, l, space, screen, config.id, t, frames) && window_under(
            t,
            s.spaces[space],
            point,
            frames,
            l2,
            hit,
        )
}

/// The window of a scroll layout that the mouse is over.
pub open spec fn window_hit(
    s: State,
    l: Log,
    space: SpaceId,
    point: Point,
    screen: Frame,
    config: Config,
    l2: Log,
    hit: Option<(WindowId, NodeId)>,
) -> bool {
    if !s.scroll_enabled || !s.spaces.contains_key(space) {
        l2 == l && hit is None
    } else {
        let t = ask(l, l2, Req::IsScrollLayout(s.spaces[space]));
        if answer(t)->Flag_0 {
            window_tried(s, t, space, point, screen, config, l2, hit)
        } else {
            l2 == t && hit is None
        }
    }
}

/// Edges are taken hold of, unless some are held already.
pub open spec fn resize_begun(
    s: State,
    column: NodeId,
    window: NodeId,
    edges: ResizeEdge,
    mouse: Point,
) -> State {
    if s.resizing is Some {
        s
    } else {
        State {
            resizing: Some(
                InteractiveScrollResize {
                    column_node: column,
                    window_node: window,
                    edges,
                    last_mouse: mouse,
                },
            ),
            ..s
        }
    }
}

/// A window is taken hold of, unless something is held already.
pub open spec fn move_begun(
    s: State,
    space: SpaceId,
    wid: WindowId,
    node: NodeId,
    mouse: Point,
) -> State {
    if s.resizing is Some || s.moving is Some {
        s
    } else {
        State {
            moving: Some(
                InteractiveScrollMove {
                    layout_id: s.spaces[space],
                    window_id: wid,
                    window_node: node,
                    start_mouse: mouse,
                    drag_active: false,
                },
            ),
            ..s
        }
    }
}

/// The mouse moved while it held some edges. The column follows it sideways, the
/// window up and down. `changed` tells whether anything did.
pub open spec fn resize_followed(
    s: State,
    l: Log,
    mouse: Point,
    screen: Frame,
    s2: State,
    l2: Log,
    changed: bool,
) -> bool {
    match s.resizing {
        None => s2 == s && l2 == l && !changed,
        Some(held) => {
            let edges = held.edges;
            let t1 = ask(l, l2, Req::Binary(Binary::Subtract, mouse.x, held.last_mouse.x));
            let t2 = ask(t1, l2, Req::Binary(Binary::Subtract, mouse.y, held.last_mouse.y));
            let h1 = ask(
                t2,
                l2,
                Req::Binary(Binary::Divide, answer(t1)->Number_0, screen.size.width),
            );
            let h2 = ask(
                h1,
                l2,
                Req::Resize(
                    held.column_node,
                    answer(h1)->Number_0,
                    if edges.left() {
                        Direction::Left
                    } else {
                        Direction::Right
                    },
                ),
            );
            let sideways = edges.left() || edges.right();
            let t3 = if sideways {
                h2
            } else {
                t2
            };
            let v1 = ask(
                t3,
                l2,
                Req::Binary(Binary::Divide, answer(t2)->Number_0, screen.size.height),
            );
            let v2 = ask(
                v1,
                l2,
                Req::Resize(
                    held.window_node,
                    answer(v1)->Number_0,
                    if edges.top() {
                        Direction::Up
                    } else {
                        Direction::Down
                    },
                ),
            );
            let up_or_down = edges.top() || edges.bottom();
            &&& s2 == State {
                resizing: Some(InteractiveScrollResize { last_mouse: mouse, ..held }),
                ..s
            }
            &&& l2 == if up_or_down {
                v2
            } else {
                t3
            }
            &&& changed == (sideways && answer(h2)->Flag_0 || up_or_down && answer(v2)->Flag_0)
        },
    }
}

/// The viewport follows the selection again.
pub open spec fn viewport_released(
    s: State,
    l: Log,
    space: SpaceId,
    screen: Frame,
    config: Config,
    s2: State,
    l2: Log,
) -> bool {
    exists|t: Log| #[trigger]
        scrolling_cleared(s, l, space, t) && viewport_followed(s, t, space, screen, config, s2, l2)
}

/// A resize with the mouse ends, if there was one.
pub open spec fn resize_ended(
    s: State,
    l: Log,
    space: SpaceId,
    screen: Frame,
    config: Config,
    s2: State,
    l2: Log,
) -> bool {
    if s.resizing is Some {
        viewport_released(State { resizing: None, ..s }, l, space, screen, config, s2, l2)
    } else {
        s2 == s && l2 == l
    }
}

/// A move with the mouse ends, if there was one.
pub open spec fn move_ended(
    s: State,
    l: Log,
    space: SpaceId,
    screen: Frame,
    config: Config,
    s2: State,
    l2: Log,
) -> bool {
    if s.moving is Some {
        viewport_released(State { moving: None, ..s }, l, space, screen, config, s2, l2)
    } else {
        s2 == s && l2 == l
    }
}

/// Whether the mouse has moved less than a window needs to follow it.
pub open spec fn barely_moved(l: Log, from: Point, to: Point, l2: Log, barely: bool) -> bool {
    let t1 = ask(l, l2, Req::Binary(Binary::Subtract, to.x, from.x));
    let dx = answer(t1)->Number_0;
    let t2 = ask(t1, l2, Req::Binary(Binary::Subtract, to.y, from.y));
    let dy = answer(t2)->Number_0;
    let t3 = ask(t2, l2, Req::Binary(Binary::Multiply, dx, dx));
    let t4 = ask(t3, l2, Req::Binary(Binary::Multiply, dy, dy));
    let t5 = ask(
        t4,
        l2,
        Req::Binary(Binary::Add, answer(t3)->Number_0, answer(t4)->Number_0),
    );
    let t6 = ask(t5, l2, Req::Unary(Unary::Sqrt, answer(t5)->Number_0));
    let t7 = ask(t6, l2, Req::Less(answer(t6)->Number_0, Real(MOVE_DRAG_THRESHOLD)));
    l2 == t7 && barely == answer(t7)->Flag_0
}

/// Whether the mouse is over a window, as it is seen, that is not the one on the
/// move and that the layout has. `target` is the node of that window.
pub open spec fn target_tried(
    l: Log,
    seen: bool,
    held: InteractiveScrollMove,
    mouse: Point,
    entry: (WindowId, Frame),
    l2: Log,
    target: Option<NodeId>,
) -> bool {
    let layout = held.layout_id;
    let v1 = ask(l, l2, Req::IsInView(layout, entry.1));
    let v2 = ask(v1, l2, Req::OffsetRect(layout, entry.1));
    let (t, frame) = if seen {
        (v2, answer(v2)->Rect_0)
    } else {
        (l, entry.1)
    };
    let t1 = ask(t, l2, Req::ContainsPoint(frame, mouse));
    let t2 = ask(t1, l2, Req::WindowNode(layout, entry.0));
    if entry.0 == held.window_id {
        l2 == l && target is None
    } else if seen && !answer(v1)->Flag_0 {
        l2 == v1 && target is None
    } else if !answer(t1)->Flag_0 {
        l2 == t1 && target is None
    } else {
        l2 == t2 && target == answer(t2)->MaybeNode_0
    }
}

/// None of the windows is the target.
pub open spec fn no_target(
    l: Log,
    seen: bool,
    held: InteractiveScrollMove,
    mouse: Point,
    frames: Seq<(WindowId, Frame)>,
    l2: Log,
) -> bool
    decreases frames.len(),
{
    if frames.len() == 0 {
        l2 == l
    } else {
        exists|t: Log|
            no_target(l, seen, held, mouse, frames.drop_last(), t) && #[trigger] target_tried(
                t,
                seen,
                held,
                mouse,
                frames.last(),
                l2,
                None,
            )
    }
}

/// The first of the windows that is the target is the `n`th.
pub open spec fn target_found(
    l: Log,
    seen: bool,
    held: InteractiveScrollMove,
    mouse: Point,
    frames: Seq<(WindowId, Frame)>,
    n: int,
    l2: Log,
    target: NodeId,
) -> bool {
    &&& 0 <= n < frames.len()
    &&& exists|t: Log| #[trigger]
        no_target(l, seen, held, mouse, frames.take(n), t) && target_tried(
            t,
            seen,
            held,
            mouse,
            frames[n],
            l2,
            Some(target),
        )
}

/// The window on the move, once the mouse has gone far enough, trades places with
/// the window that the mouse is over.
pub open spec fn places_traded(
    s: State,
    l: Log,
    held: InteractiveScrollMove,
    mouse: Point,
    frames: Seq<(WindowId, Frame)>,
    s2: State,
    l2: Log,
    changed: bool,
) -> bool {
    let seen = s.viewports.contains(held.layout_id);
    if changed {
        exists|t: Log, n: int, target: NodeId|
            {
                &&& #[trigger] target_found(l, seen, held, mouse, frames, n, t, target)
                &&& l2 == ask(t, l2, Req::SwapWindows(held.window_node, target))
                &&& s2 == State {
                    moving: Some(InteractiveScrollMove { window_node: target, ..held }),
                    ..s
                }
            }
    } else {
        no_target(l, seen, held, mouse, frames, l2) && s2 == State { moving: Some(held), ..s }
    }
}

/// The window on the move is dragged to where the mouse is.
pub open spec fn dragged(
    s: State,
    l: Log,
    held: InteractiveScrollMove,
    mouse: Point,
    screen: Frame,
    config: Config,
    s2: State,
    l2: Log,
    changed: bool,
) -> bool {
    let t = ask(l, l2, Req::CalculateLayout(held.layout_id, screen, config.id));
    places_traded(s, t, held, mouse, answer(t)->Frames_0, s2, l2, changed)
}

/// The move starts only when the mouse has gone far enough.
pub open spec fn drag_started(
    s: State,
    l: Log,
    held: InteractiveScrollMove,
    mouse: Point,
    screen: Frame,
    config: Config,
    s2: State,
    l2: Log,
    changed: bool,
) -> bool {
    exists|t: Log, barely: bool|
        {
            &&& #[trigger] barely_moved(l, held.start_mouse, mouse, t, barely)
            &&& if barely {
                s2 == s && l2 == t && !changed
            } else {
                dragged(
                    s,
                    t,
                    InteractiveScrollMove { drag_active: true, ..held },
                    mouse,
                    screen,
                    config,
                    s2,
                    l2,
                    changed,
                )
            }
        }
}

/// The mouse moved while a window was on the move.
pub open spec fn move_followed(
    s: State,
    l: Log,
    mouse: Point,
    screen: Frame,
    config: Config,
    s2: State,
    l2: Log,
    changed: bool,
) -> bool {
    match s.moving {
        None => s2 == s && l2 == l && !changed,
        Some(held) => if held.drag_active {
            dragged(s, l, held, mouse, screen, config, s2, l2, changed)
        } else {
            drag_started(s, l, held, mouse, screen, config, s2, l2, changed)
        },
    }
}

fn widen<H: LayoutHost>(link: &mut Link<H>, frame: Frame) -> (wide: Frame)
    ensures
        widened(old(link).log(), frame, final(link).log(), wide),
        grew(old(link).log(), final(link).log()),
{
    let near = Real(RESIZE_EDGE_THRESHOLD);
    let both = Real(TWICE_THRESHOLD);
    let x = link.binary(Binary::Subtract, frame.origin.x, near);
    let y = link.binary(Binary::Subtract, frame.origin.y, near);
    let width = link.binary(Binary::Add, frame.size.width, both);
    let height = link.binary(Binary::Add, frame.size.height, both);
    Frame { origin: Point { x, y }, size: Size { width, height } }
}

fn narrow<H: LayoutHost>(link: &mut Link<H>, frame: Frame) -> (narrow: Frame)
    ensures
        narrowed(old(link).log(), frame, final(link).log(), narrow),
        grew(old(link).log(), final(link).log()),
{
    let near = Real(RESIZE_EDGE_THRESHOLD);
    let both = Real(TWICE_THRESHOLD);
    let x = link.binary(Binary::Add, frame.origin.x, near);
    let y = link.binary(Binary::Add, frame.origin.y, near);
    let rest = link.binary(Binary::Subtract, frame.size.width, both);
    let width = link.binary(Binary::Max, rest, Real(ZERO));
    let rest = link.binary(Binary::Subtract, frame.size.height, both);
    let height = link.binary(Binary::Max, rest, Real(ZERO));
    Frame { origin: Point { x, y }, size: Size { width, height } }
}

fn tell_edges<H: LayoutHost>(link: &mut Link<H>, point: Point, frame: Frame, narrow: Frame) -> (edges:
    ResizeEdge)
    ensures
        edges_told(old(link).log(), point, frame, narrow, final(link).log(), edges),
        grew(old(link).log(), final(link).log()),
{
    let near = Real(RESIZE_EDGE_THRESHOLD);
    let left = link.less(point.x, narrow.origin.x);
    let end = link.binary(Binary::Add, frame.origin.x, frame.size.width);
    let end = link.binary(Binary::Subtract, end, near);
    let right = link.less(end, point.x);
    let top = link.less(point.y, narrow.origin.y);
    let end = link.binary(Binary::Add, frame.origin.y, frame.size.height);
    let end = link.binary(Binary::Subtract, end, near);
    let bottom = link.less(end, point.y);
    ResizeEdge::near(left, right, top, bottom)
}

/// The edges of `frame` that `point` is near.
pub fn detect_edges<H: LayoutHost>(link: &mut Link<H>, point: Point, frame: Frame) -> (edges: ResizeEdge)
    ensures
        edges_detected(old(link).log(), point, frame, final(link).log(), edges),
        grew(old(link).log(), final(link).log()),
{
    let wide = widen(link, frame);
    let ghost t1 = link.log();
    if !link.contains_point(wide, point) {
        assert(edges_if_close(t1, point, frame, wide, link.log(), ResizeEdge(0)));
        return ResizeEdge(0);
    }
    let ghost t2 = link.log();
    let narrow = narrow(link, frame);
    let ghost t3 = link.log();
    let edges = if link.contains_point(narrow, point) {
        ResizeEdge(0)
    } else {
        tell_edges(link, point, frame, narrow)
    };
    assert(edges_within(t3, point, frame, narrow, link.log(), edges));
    assert(edges_sought(t2, point, frame, link.log(), edges));
    assert(edges_if_close(t1, point, frame, wide, link.log(), edges));
    edges
}

/// The first of the frames that has an edge near the mouse.
fn find_edges<H: LayoutHost>(link: &mut Link<H>, point: Point, frames: &Vec<(WindowId, Frame)>) -> (hit:
    Option<(usize, ResizeEdge)>)
    ensures
        first_edges(
            old(link).log(),
            point,
            frames@,
            final(link).log(),
            match hit {
                Some((n, edges)) => Some((n as int, edges)),
                None => None,
            },
        ),
        grew(old(link).log(), final(link).log()),
{
    let ghost l = link.log();
    let mut i: usize = 0;
    assert(frames@.take(0) == Seq::<(WindowId, Frame)>::empty());
    while i < frames.len()
        invariant
            l == old(link).log(),
            i <= frames@.len(),
            no_edges(l, point, frames@.take(i as int), link.log()),
            grew(l, link.log()),
        decreases frames@.len() - i,
    {
        let ghost t = link.log();
        let edges = detect_edges(link, point, frames[i].1);
        if !edges.is_empty() {
            assert(no_edges(l, point, frames@.take(i as int), t));
            return Some((i, edges));
        }
        assert(frames@.take(i + 1).drop_last() == frames@.take(i as int));
        assert(edges_detected(t, point, frames@.take(i + 1).last().1, link.log(), ResizeEdge(0)));
        i += 1;
    }
    assert(frames@.take(i as int) == frames@);
    None
}

impl LayoutManager {
    /// What the mouse takes hold of for a resize: the column, the window and the edges.
    pub fn hit_test_scroll_edges<H: LayoutHost>(
        &self,
        link: &mut Link<H>,
        space: SpaceId,
        point: Point,
        screen: Frame,
        config: &Config,
    ) -> (hit: Option<(NodeId, NodeId, ResizeEdge)>)
        ensures
            edges_hit(
                self@,
                old(link).log(),
                space,
                point,
                screen,
                *config,
                final(link).log(),
                hit,
            ),
            grew(old(link).log(), final(link).log()),
    {
        if !self.scroll_enabled {
            return None;
        }
        let layout = match self.try_layout(space) {
            Some(layout) => layout,
            None => {
                return None;
            },
        };
        if !link.is_scroll_layout(layout) {
            return None;
        }
        let ghost l = link.log();
        let frames = self.calculate_layout(link, space, screen, config);
        let ghost t = link.log();
        let first = find_edges(link, point, &frames);
        let ghost t1 = link.log();
        let ghost found: Option<(int, ResizeEdge)> = match first {
            Some((n, edges)) => Some((n as int, edges)),
            None => None,
        };
        assert(first_edges(t, point, frames@, t1, found));
        let hit = match first {
            Some((n, edges)) => {
                let wid = frames[n].0;
                match link.window_node(layout, wid) {
                    Some(window) => match link.column_of(layout, window) {
                        Some(column) => Some((column, window, edges)),
                        None => None,
                    },
                    None => None,
                }
            },
            None => None,
        };
        assert(edges_taken(t, layout, point, frames@, link.log(), hit));
        assert(edges_tried(self@, l, space, point, screen, *config, link.log(), hit));
        hit
    }

    /// The window of a scroll layout that the mouse is over.
    pub fn hit_test_scroll_window<H: LayoutHost>(
        &self,
        link: &mut Link<H>,
        space: SpaceId,
        point: Point,
        screen: Frame,
        config: &Config,
    ) -> (hit: Option<(WindowId, NodeId)>)
        ensures
            window_hit(
                self@,
                old(link).log(),
                space,
                point,
                screen,
                *config,
                final(link).log(),
                hit,
            ),
            grew(old(link).log(), final(link).log()),
    {
        if !self.scroll_enabled {
            return None;
        }
        let layout = match self.try_layout(space) {
            Some(layout) => layout,
            None => {
                return None;
            },
        };
        if !link.is_scroll_layout(layout) {
            return None;
        }
        let ghost l = link.log();
        let frames = self.calculate_layout(link, space, screen, config);
        let hit = self.find_window(link, layout, point, &frames);
        assert(window_tried(self@, l, space, point, screen, *config, link.log(), hit));
        hit
    }

    fn find_window<H: LayoutHost>(
        &self,
        link: &mut Link<H>,
        layout: LayoutId,
        point: Point,
        frames: &Vec<(WindowId, Frame)>,
    ) -> (hit: Option<(WindowId, NodeId)>)
        ensures
            window_under(old(link).log(), layout, point, frames@, final(link).log(), hit),
            grew(old(link).log(), final(link).log()),
    {
        let ghost l = link.log();
        let ghost reqs = point_questions(frames@, point);
        let mut i: usize = 0;
        proof {
            lemma_asked_none(l, reqs, true);
        }
        while i < frames.len()
            invariant
                l == old(link).log(),
                i <= frames@.len(),
                reqs == point_questions(frames@, point),
                asked_in_vain(l, reqs, true, i as int, link.log()),
                grew(l, link.log()),
            decreases frames@.len() - i,
        {
            let (wid, frame) = frames[i];
            let ghost t = link.log();
            let inside = link.contains_point(frame, point);
            proof {
                assert(reqs[i as int] == Req::ContainsPoint(frame, point));
                lemma_asked_on(l, reqs, true, i as int, t, Rep::Flag(inside));
            }
            if inside {
                let ghost t1 = link.log();
                assert(asked_until(l, reqs, true, t1, Some(i as int)));
                return match link.window_node(layout, wid) {
                    Some(node) => Some((wid, node)),
                    None => None,
                };
            }
            i += 1;
        }
        proof {
            lemma_asked_all(l, reqs, true, link.log());
        }
        None
    }

    /// Takes hold of edges, unless some are held already.
    pub fn begin_interactive_resize(
        &mut self,
        column: NodeId,
        window: NodeId,
        edges: ResizeEdge,
        mouse: Point,
    ) -> (begun: bool)
        ensures
            begun == (old(self)@.resizing is None),
            final(self)@ == resize_begun(old(self)@, column, window, edges, mouse),
    {
        if self.interactive_resize.is_some() {
            return false;
        }
        self.interactive_resize = Some(
            InteractiveScrollResize {
                column_node: column,
                window_node: window,
                edges,
                last_mouse: mouse,
            },
        );
        true
    }

    /// Lets what is held follow the mouse. Returns whether anything changed.
    pub fn update_interactive_resize<H: LayoutHost>(
        &mut self,
        link: &mut Link<H>,
        mouse: Point,
        screen: Frame,
    ) -> (changed: bool)
        ensures
            resize_followed(
                old(self)@,
                old(link).log(),
                mouse,
                screen,
                final(self)@,
                final(link).log(),
                changed,
            ),
            grew(old(link).log(), final(link).log()),
    {
        let held = match self.interactive_resize {
            Some(held) => held,
            None => {
                return false;
            },
        };
        let dx = link.binary(Binary::Subtract, mouse.x, held.last_mouse.x);
        let dy = link.binary(Binary::Subtract, mouse.y, held.last_mouse.y);
        self.interactive_resize = Some(InteractiveScrollResize { last_mouse: mouse, ..held });
        let mut changed = false;
        if held.edges.has_horizontal() {
            let ratio = link.binary(Binary::Divide, dx, screen.size.width);
            if link.resize(held.column_node, ratio, held.edges.horizontal_direction()) {
                changed = true;
            }
        }
        if held.edges.has_vertical() {
            let ratio = link.binary(Binary::Divide, dy, screen.size.height);
            if link.resize(held.window_node, ratio, held.edges.vertical_direction()) {
                changed = true;
            }
        }
        changed
    }

    fn release_viewport<H: LayoutHost>(
        &mut self,
        link: &mut Link<H>,
        space: SpaceId,
        screen: Frame,
        config: &Config,
    )
        requires
            old(self)@.spaces.contains_key(space),
        ensures
            viewport_released(
                old(self)@,
                old(link).log(),
                space,
                screen,
                *config,
                final(self)@,
                final(link).log(),
            ),
            grew(old(link).log(), final(link).log()),
    {
        self.clear_user_scrolling(link, space);
        self.update_viewport_for_focus(link, space, screen, config);
    }

    /// Ends a resize with the mouse, if there is one.
    pub fn end_interactive_resize<H: LayoutHost>(
        &mut self,
        link: &mut Link<H>,
        space: SpaceId,
        screen: Frame,
        config: &Config,
    )
        requires
            old(self)@.resizing is Some ==> old(self)@.spaces.contains_key(space),
        ensures
            resize_ended(
                old(self)@,
                old(link).log(),
                space,
                screen,
                *config,
                final(self)@,
                final(link).log(),
            ),
            grew(old(link).log(), final(link).log()),
    {
        if self.interactive_resize.is_some() {
            self.interactive_resize = None;
            self.release_viewport(link, space, screen, config);
        }
    }

    /// Takes hold of a window, unless something is held already.
    pub fn begin_interactive_move(
        &mut self,
        space: SpaceId,
        wid: WindowId,
        node: NodeId,
        mouse: Point,
    ) -> (begun: bool)
        requires
            old(self)@.resizing is None && old(self)@.moving is None
                ==> old(self)@.spaces.contains_key(space),
        ensures
            begun == (old(self)@.resizing is None && old(self)@.moving is None),
            final(self)@ == move_begun(old(self)@, space, wid, node, mouse),
    {
        if self.interactive_resize.is_some() || self.interactive_move.is_some() {
            return false;
        }
        let layout_id = self.layout(space);
        self.interactive_move = Some(
            InteractiveScrollMove {
                layout_id,
                window_id: wid,
                window_node: node,
                start_mouse: mouse,
                drag_active: false,
            },
        );
        true
    }

    fn has_barely_moved<H: LayoutHost>(&self, link: &mut Link<H>, from: Point, to: Point) -> (barely: bool)
        ensures
            barely_moved(old(link).log(), from, to, final(link).log(), barely),
            grew(old(link).log(), final(link).log()),
    {
        let dx = link.binary(Binary::Subtract, to.x, from.x);
        let dy = link.binary(Binary::Subtract, to.y, from.y);
        let xx = link.binary(Binary::Multiply, dx, dx);
        let yy = link.binary(Binary::Multiply, dy, dy);
        let sum = link.binary(Binary::Add, xx, yy);
        let distance = link.unary(Unary::Sqrt, sum);
        link.less(distance, Real(MOVE_DRAG_THRESHOLD))
    }

    fn try_target<H: LayoutHost>(
        &self,
        link: &mut Link<H>,
        seen: bool,
        held: InteractiveScrollMove,
        mouse: Point,
        entry: (WindowId, Frame),
    ) -> (target: Option<NodeId>)
        ensures
            target_tried(old(link).log(), seen, held, mouse, entry, final(link).log(), target),
            grew(old(link).log(), final(link).log()),
    {
        let (wid, frame) = entry;
        if wid == held.window_id {
            return None;
        }
        let layout = held.layout_id;
        let target_frame = if seen {
            if !link.is_in_view(layout, frame) {
                return None;
            }
            link.offset_rect(layout, frame)
        } else {
            frame
        };
        if link.contains_point(target_frame, mouse) {
            link.window_node(layout, wid)
        } else {
            None
        }
    }

    fn trade_places<H: LayoutHost>(
        &mut self,
        link: &mut Link<H>,
        held: InteractiveScrollMove,
        mouse: Point,
        frames: &Vec<(WindowId, Frame)>,
    ) -> (changed: bool)
        requires
            old(self)@.moving == Some(held),
        ensures
            places_traded(
                old(self)@,
                old(link).log(),
                held,
                mouse,
                frames@,
                final(self)@,
                final(link).log(),
                changed,
            ),
            grew(old(link).log(), final(link).log()),
    {
        let ghost l = link.log();
        let ghost s = self@;
        let seen = self.viewports.contains(held.layout_id);
        let mut i: usize = 0;
        assert(frames@.take(0) == Seq::<(WindowId, Frame)>::empty());
        while i < frames.len()
            invariant
                l == old(link).log(),
                s == old(self)@,
                self@ == s,
                s.moving == Some(held),
                seen == s.viewports.contains(held.layout_id),
                i <= frames@.len(),
                no_target(l, seen, held, mouse, frames@.take(i as int), link.log()),
                grew(l, link.log()),
            decreases frames@.len() - i,
        {
            let ghost t = link.log();
            let target = self.try_target(link, seen, held, mouse, frames[i]);
            if let Some(target) = target {
                let ghost t1 = link.log();
                assert(no_target(l, seen, held, mouse, frames@.take(i as int), t));
                assert(target_found(l, seen, held, mouse, frames@, i as int, t1, target));
                link.swap_windows(held.window_node, target);
                self.interactive_move = Some(
                    InteractiveScrollMove { window_node: target, ..held },
                );
                return true;
            }
            let ghost done = frames@.take(i + 1);
            assert(done.drop_last() == frames@.take(i as int));
            assert(target_tried(t, seen, held, mouse, done.last(), link.log(), None));
            i += 1;
        }
        assert(frames@.take(i as int) == frames@);
        false
    }

    fn drag<H: LayoutHost>(
        &mut self,
        link: &mut Link<H>,
        held: InteractiveScrollMove,
        mouse: Point,
        screen: Frame,
        config: &Config,
    ) -> (changed: bool)
        requires
            old(self)@.moving == Some(held),
        ensures
            dragged(
                old(self)@,
                old(link).log(),
                held,
                mouse,
                screen,
                *config,
                final(self)@,
                final(link).log(),
                changed,
            ),
            grew(old(link).log(), final(link).log()),
    {
        let frames = link.calculate_layout(held.layout_id, screen, config.id);
        self.trade_places(link, held, mouse, &frames)
    }

    /// Lets the window on the move follow the mouse. Returns whether anything changed.
    pub fn update_interactive_move<H: LayoutHost>(
        &mut self,
        link: &mut Link<H>,
        mouse: Point,
        screen: Frame,
        config: &Config,
    ) -> (changed: bool)
        ensures
            move_followed(
                old(self)@,
                old(link).log(),
                mouse,
                screen,
                *config,
                final(self)@,
                final(link).log(),
                changed,
            ),
            grew(old(link).log(), final(link).log()),
    {
        let held = match self.interactive_move {
            Some(held) => held,
            None => {
                return false;
            },
        };
        if held.drag_active {
            return self.drag(link, held, mouse, screen, config);
        }
        if self.has_barely_moved(link, held.start_mouse, mouse) {
            return false;
        }
        let ghost t = link.log();
        assert(barely_moved(old(link).log(), held.start_mouse, mouse, t, false));
        let held = InteractiveScrollMove { drag_active: true, ..held };
        self.interactive_move = Some(held);
        self.drag(link, held, mouse, screen, config)
    }

    /// Ends a move with the mouse, if there is one.
    pub fn end_interactive_move<H: LayoutHost>(
        &mut self,
        link: &mut Link<H>,
        space: SpaceId,
        screen: Frame,
        config: &Config,
    )
        requires
            old(self)@.moving is Some ==> old(self)@.spaces.contains_key(space),
        ensures
            move_ended(
                old(self)@,
                old(link).log(),
                space,
                screen,
                *config,
                final(self)@,
                final(link).log(),
            ),
            grew(old(link).log(), final(link).log()),
    {
        if self.interactive_move.is_some() {
            self.interactive_move = None;
            self.release_viewport(link, space, screen, config);
        }
    }

    /// Lets go of whatever the mouse holds.
    pub fn cancel_interactive_state(&mut self)
        ensures
            final(self)@ == (State { resizing: None, moving: None, ..old(self)@ }),
    {
        self.interactive_resize = None;
        self.interactive_move = None;
    }

    /// Whether the mouse holds anything.
    pub fn has_interactive_state(&self) -> (holds: bool)
        ensures
            holds == (self@.resizing is Some || self@.moving is Some),
    {
        self.interactive_resize.is_some() || self.interactive_move.is_some()
    }
}

} // verus!
