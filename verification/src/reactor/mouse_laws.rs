//! What the reactor does with the mouse, and with commands.
//!
//! `reply` is how the host answers while an event is handled.

use vstd::prelude::*;

use crate::deeds::{
    deeds, group_deeds, is_question, lemma_deeds_join, lemma_reply, lemma_reply_part,
};
use crate::edges::ResizeEdge;
use crate::ids::{Frame, GroupBar, NodeId, Point, Real, SpaceId, WindowId};
use crate::layout::command_laws::lemma_command_grows;
use crate::layout::commands::{command_handled, LayoutCommand};
use crate::layout::grip_laws::{
    are_near_edges, is_near_edge, law_edges_of_first_frame_are_held, law_no_edge_is_held,
    law_window_under_the_mouse, lemma_edges_tried_grows, shown_frames,
};
use crate::layout::interactive::{
    edges_hit, move_begun, move_followed, point_questions, resize_begun, resize_followed,
    window_hit, window_under,
};
use crate::layout::scroll::wheel_handled;
use crate::layout::state::{InteractiveScrollMove, State};
use crate::layout::viewport::{frames_and_groups_shown, frames_shown};
use crate::layout::wheel_laws::lemma_wheel_grows;
use crate::link::{answer, answered_by, ask, asked_until, grew, Log, Rep, Req};
use crate::messages::{AnimationMode, WindowMove};
use crate::reactor::event::{Command, Event};
use crate::reactor::event_laws::{lemma_later, lemma_raised_grows};
use crate::reactor::frame_laws::{at_home, lemma_home};
use crate::reactor::handler::{command_run, event_taken};
use crate::reactor::mouse::{window_dragged, window_gripped};
use crate::reactor::outcome::Outcome;
use crate::reactor::placement::{
    frames_applied, laid_out, layout_applied, moves_made, place_step, placed, screen_step,
    screens_laid_out,
};
use crate::reactor::raise_laws::{asks_for, law_response_is_passed_on};
use crate::reactor::raising::raised;
use crate::reactor::screens::window_space;
use crate::reactor::state::{spaces_of, Known, Screen};
use crate::response::Response;

verus! {

/// The screen that the mouse works on: the active one, or the first as long as none was
/// active; with its space.
pub open spec fn works_on(r: Known, screen: Screen, space: SpaceId) -> bool {
    let idx: int = match r.active {
        Some(idx) => idx as int,
        None => 0,
    };
    &&& 0 <= idx < r.screens.len()
    &&& screen == r.screens[idx]
    &&& screen.space == Some(space)
}

/// The button went down near an edge of a window that the active screen shows: of the first
/// of those, the edges that the mouse is near are held, unless some are held already, with
/// the column and the node of the window, from where the mouse is. Something is being
/// dragged then. Nothing is done to the tree.
pub proof fn law_button_takes_hold_of_edges(
    r: Known,
    l: Log,
    point: Point,
    r2: Known,
    l2: Log,
    outcome: Outcome,
    screen: Screen,
    space: SpaceId,
    first: int,
    window: NodeId,
    column: NodeId,
    reply: spec_fn(Req) -> Rep,
)
    requires
        event_taken(r, l, Event::LeftMouseDown(point), r2, l2, outcome),
        answered_by(reply, l2, l.len() as int),
        works_on(r, screen, space),
        r.layout.scroll_enabled,
        r.layout.spaces.contains_key(space),
        reply(Req::IsScrollLayout(r.layout.spaces[space]))->Flag_0,
        ({
            let layout = r.layout.spaces[space];
            let frames = shown_frames(reply, r.layout, space, screen.frame, r.config.id);
            &&& 0 <= first < frames.len()
            &&& is_near_edge(reply, point, frames[first].1)
            &&& forall|i: int|
                0 <= i < first ==> !is_near_edge(reply, point, (#[trigger] frames[i]).1)
            &&& reply(Req::WindowNode(layout, frames[first].0))->MaybeNode_0 == Some(window)
            &&& reply(Req::ColumnOf(layout, window))->MaybeNode_0 == Some(column)
        }),
    ensures
        deeds(l2, l.len() as int) == Seq::<Req>::empty(),
        r2 == (Known {
            layout: State { resizing: r2.layout.resizing, ..r.layout },
            in_drag: true,
            ..r
        }),
        r.layout.resizing is Some ==> r2.layout.resizing == r.layout.resizing,
        r.layout.resizing is None ==> match r2.layout.resizing {
            Some(held) => {
                let frames = shown_frames(reply, r.layout, space, screen.frame, r.config.id);
                &&& held.column_node == column
                &&& held.window_node == window
                &&& held.last_mouse == point
                &&& are_near_edges(reply, point, frames[first].1, held.edges)
            },
            None => false,
        },
{
    let n = l.len() as int;
    let (t, hit) = choose|t: Log, hit: Option<(NodeId, NodeId, ResizeEdge)>|
        {
            &&& #[trigger] edges_hit(r.layout, l, space, point, screen.frame, r.config, t, hit)
            &&& match hit {
                Some((column, window, edges)) => {
                    &&& l2 == t
                    &&& r2 == Known {
                        layout: resize_begun(
                            r.layout,
                            column,
                            window,
                            edges,
                            point,
                        ),
                        in_drag: true,
                        ..r
                    }
                },
                None => window_gripped(r, t, screen, space, point, r2, l2),
            }
        };
    if hit is None {
        let h = choose|h: Option<(WindowId, NodeId)>|
            {
                &&& #[trigger] window_hit(
                    r.layout,
                    t,
                    space,
                    point,
                    screen.frame,
                    r.config,
                    l2,
                    h,
                )
                &&& r2 == match h {
                    Some((wid, node)) => Known {
                        layout: move_begun(
                            r.layout,
                            space,
                            wid,
                            node,
                            point,
                        ),
                        in_drag: true,
                        ..r
                    },
                    None => r,
                }
            };
        lemma_window_hit_grows(r.layout, t, space, point, screen, r, l2, h);
        lemma_reply_part(reply, t, l2, n);
    }
    law_edges_of_first_frame_are_held(
        r.layout,
        l,
        space,
        point,
        screen.frame,
        r.config,
        t,
        hit,
        first,
        reply,
    );
}

proof fn lemma_window_hit_grows(
    s: State,
    l: Log,
    space: SpaceId,
    point: Point,
    screen: Screen,
    r: Known,
    l2: Log,
    hit: Option<(WindowId, NodeId)>,
)
    requires
        window_hit(s, l, space, point, screen.frame, r.config, l2, hit),
    ensures
        grew(l, l2),
{
    if s.scroll_enabled && s.spaces.contains_key(space) {
        let t = ask(l, l2, Req::IsScrollLayout(s.spaces[space]));
        if answer(t)->Flag_0 {
            let (t1, frames) = choose|t1: Log, frames: Seq<(WindowId, Frame)>| #[trigger]
                frames_shown(
                    s,
                    t,
                    space,
                    screen.frame,
                    r.config.id,
                    t1,
                    frames,
                ) && window_under(
                    t1,
                    s.spaces[space],
                    point,
                    frames,
                    l2,
                    hit,
                );
            let (t2, found) = choose|t2: Log, found: Option<int>|
                {
                    &&& #[trigger] asked_until(
                        t1,
                        point_questions(frames, point),
                        true,
                        t2,
                        found,
                    )
                    &&& match found {
                        None => l2 == t2 && hit is None,
                        Some(n) => {
                            let t1 = ask(
                                t2,
                                l2,
                                Req::WindowNode(s.spaces[space], frames[n].0),
                            );
                            l2 == t1 && hit == match answer(t1)->MaybeNode_0 {
                                None => None,
                                Some(node) => Some((frames[n].0, node)),
                            }
                        },
                    }
                };
            assert(grew(t, t1));
            assert(grew(t1, t2));
            assert(grew(t2, l2));
        }
    }
}

/// The button went down near no edge, over a window that the active screen shows: the first
/// whose frame holds the mouse is held, unless something is held already, from where the
/// mouse is, and is not on the move yet. Something is being dragged then. Over no window,
/// nothing is held. Nothing is done to the tree.
pub proof fn law_button_takes_hold_of_a_window(
    r: Known,
    l: Log,
    point: Point,
    r2: Known,
    l2: Log,
    outcome: Outcome,
    screen: Screen,
    space: SpaceId,
    reply: spec_fn(Req) -> Rep,
)
    requires
        event_taken(r, l, Event::LeftMouseDown(point), r2, l2, outcome),
        answered_by(reply, l2, l.len() as int),
        works_on(r, screen, space),
        ({
            let frames = shown_frames(reply, r.layout, space, screen.frame, r.config.id);
            forall|i: int|
                0 <= i < frames.len() ==> !is_near_edge(reply, point, (#[trigger] frames[i]).1)
        }),
    ensures
        deeds(l2, l.len() as int) == Seq::<Req>::empty(),
        ({
            let layout = r.layout.spaces[space];
            let frames = shown_frames(reply, r.layout, space, screen.frame, r.config.id);
            let holds = |i: int| reply(Req::ContainsPoint(frames[i].1, point))->Flag_0;
            let scrolls = r.layout.scroll_enabled && r.layout.spaces.contains_key(space) && reply(
                Req::IsScrollLayout(layout),
            )->Flag_0;
            &&& !scrolls ==> r2 == r
            &&& (forall|i: int| 0 <= i < frames.len() ==> !#[trigger] holds(i)) ==> r2 == r
            &&& forall|first: int|
                scrolls && 0 <= first < frames.len() && #[trigger] holds(first) && (forall|i: int|
                    0 <= i < first ==> !#[trigger] holds(i)) ==> match reply(
                    Req::WindowNode(layout, frames[first].0),
                )->MaybeNode_0 {
                    Some(node) => r2 == Known {
                        layout: if r.layout.resizing is Some || r.layout.moving is Some {
                            r.layout
                        } else {
                            State {
                                moving: Some(
                                    InteractiveScrollMove {
                                        layout_id: layout,
                                        window_id: frames[first].0,
                                        window_node: node,
                                        start_mouse: point,
                                        drag_active: false,
                                    },
                                ),
                                ..r.layout
                            }
                        },
                        in_drag: true,
                        ..r
                    },
                    None => r2 == r,
                }
        }),
{
    broadcast use group_deeds;

    let n = l.len() as int;
    let (t, hit) = choose|t: Log, hit: Option<(NodeId, NodeId, ResizeEdge)>|
        {
            &&& #[trigger] edges_hit(r.layout, l, space, point, screen.frame, r.config, t, hit)
            &&& match hit {
                Some((column, window, edges)) => {
                    &&& l2 == t
                    &&& r2 == Known {
                        layout: resize_begun(
                            r.layout,
                            column,
                            window,
                            edges,
                            point,
                        ),
                        in_drag: true,
                        ..r
                    }
                },
                None => window_gripped(r, t, screen, space, point, r2, l2),
            }
        };
    if hit is Some {
        law_no_edge_is_held(
            r.layout,
            l,
            space,
            point,
            screen.frame,
            r.config,
            t,
            hit,
            reply,
        );
        assert(false);
    }
    let h = choose|h: Option<(WindowId, NodeId)>|
        {
            &&& #[trigger] window_hit(r.layout, t, space, point, screen.frame, r.config, l2, h)
            &&& r2 == match h {
                Some((wid, node)) => Known {
                    layout: move_begun(
                        r.layout,
                        space,
                        wid,
                        node,
                        point,
                    ),
                    in_drag: true,
                    ..r
                },
                None => r,
            }
        };
    lemma_window_hit_grows(r.layout, t, space, point, screen, r, l2, h);
    lemma_reply_part(reply, t, l2, n);
    law_no_edge_is_held(r.layout, l, space, point, screen.frame, r.config, t, hit, reply);
    lemma_edges_hit_grows(r.layout, l, space, point, screen, r, t, hit);
    lemma_later(reply, l2, n, t.len() as int);
    law_window_under_the_mouse(
        r.layout,
        t,
        space,
        point,
        screen.frame,
        r.config,
        l2,
        h,
        reply,
    );
    lemma_deeds_join(l, t, l2);
}

proof fn lemma_edges_hit_grows(
    s: State,
    l: Log,
    space: SpaceId,
    point: Point,
    screen: Screen,
    r: Known,
    l2: Log,
    hit: Option<(NodeId, NodeId, ResizeEdge)>,
)
    requires
        edges_hit(s, l, space, point, screen.frame, r.config, l2, hit),
    ensures
        grew(l, l2),
{
    if s.scroll_enabled && s.spaces.contains_key(space) {
        let t = ask(l, l2, Req::IsScrollLayout(s.spaces[space]));
        if answer(t)->Flag_0 {
            lemma_edges_tried_grows(
                s,
                t,
                space,
                point,
                screen.frame,
                r.config,
                l2,
                hit,
            );
        }
    }
}

/// On a screen without a space, and while there is no screen, the mouse takes hold of nothing,
/// drags nothing and turns nothing.
pub proof fn law_mouse_needs_a_space(
    r: Known,
    l: Log,
    event: Event,
    r2: Known,
    l2: Log,
    outcome: Outcome,
)
    requires
        event_taken(r, l, event, r2, l2, outcome),
        event is LeftMouseDown || event is LeftMouseDragged || event is ScrollWheel,
        forall|screen: Screen, space: SpaceId| !#[trigger] works_on(r, screen, space),
    ensures
        r2 == r,
        l2 == l,
{
    let idx: int = match r.active {
        Some(idx) => idx as int,
        None => 0,
    };
    if idx < r.screens.len() && r.screens[idx].space is Some {
        assert(works_on(r, r.screens[idx], r.screens[idx].space->0));
    }
}

/// The button came up: nothing is being dragged any more, and on a screen with a space, the
/// mouse holds nothing.
pub proof fn law_button_lets_go(r: Known, l: Log, r2: Known, l2: Log, outcome: Outcome)
    requires
        event_taken(r, l, Event::MouseUp, r2, l2, outcome),
    ensures
        !r2.in_drag,
        r2 == (Known { layout: r2.layout, in_drag: false, ..r }),
        (exists|screen: Screen, space: SpaceId| #[trigger] works_on(r, screen, space))
            ==> r2.layout.resizing is None && r2.layout.moving is None,
        r.layout.resizing is None && r.layout.moving is None ==> r2.layout == r.layout && l2 == l,
        r2.layout == (State {
            viewports: r2.layout.viewports,
            resizing: r2.layout.resizing,
            moving: r2.layout.moving,
            ..r.layout
        }),
{
}

/// The wheel counts while the modifier is held and scroll layouts are on; otherwise nothing
/// happens. Sideways turns count before others: up and down counts where there is none. The
/// turn goes to the space of the active screen, with the settings as they were given, and what
/// comes of it is passed on.
#[verifier::rlimit(60)]
pub proof fn law_wheel_turns_the_active_screen(
    r: Known,
    l: Log,
    delta_x: Real,
    delta_y: Real,
    alt_held: bool,
    r2: Known,
    l2: Log,
    outcome: Outcome,
    screen: Screen,
    space: SpaceId,
    delta: Real,
    reply: spec_fn(Req) -> Rep,
)
    requires
        event_taken(r, l, (Event::ScrollWheel { delta_x, delta_y, alt_held }), r2, l2, outcome),
        answered_by(reply, l2, l.len() as int),
        works_on(r, screen, space),
        delta == if reply(Req::Equal(delta_x, Real(0)))->Flag_0 {
            delta_y
        } else {
            delta_x
        },
    ensures
        !alt_held || !r.config.scroll.enable ==> r2 == r && l2 == l && outcome == Outcome::Done,
        alt_held && r.config.scroll.enable ==> {
            &&& outcome == Outcome::Settle { new: None, is_resize: false }
            &&& r2 == Known { layout: r2.layout, ..r }
            &&& exists|t: Log, t2: Log, response: Response|
                {
                    &&& #[trigger] wheel_handled(
                        r.layout,
                        t,
                        space,
                        delta,
                        screen.frame,
                        r.config.scroll@,
                        r2.layout,
                        t2,
                        response,
                    )
                    &&& deeds(t, l.len() as int) == Seq::<Req>::empty()
                    &&& is_passed_on(reply, r2, t2, response, l2)
                }
        },
{
    broadcast use group_deeds;

    let n = l.len() as int;
    if alt_held && r.config.scroll.enable {
        let q = Req::Equal(delta_x, Real(0));
        let t = ask(l, l2, q);
        let turn = if answer(t)->Flag_0 {
            delta_y
        } else {
            delta_x
        };
        let (s, t2, response) = choose|s: State, t2: Log, response: Response|
            {
                &&& #[trigger] wheel_handled(
                    r.layout,
                    t,
                    space,
                    turn,
                    screen.frame,
                    r.config.scroll@,
                    s,
                    t2,
                    response,
                )
                &&& r2 == Known { layout: s, ..r }
                &&& raised(r2, t2, response, false, l2)
            };
        lemma_raised_grows(r2, t2, response, false, l2);
        if r.layout.scroll_enabled {
            lemma_wheel_grows(
                r.layout,
                t,
                space,
                turn,
                screen.frame,
                r.config.scroll@,
                s,
                t2,
                response,
            );
        }
        lemma_reply(reply, l, l2, q, n);
        lemma_later(reply, l2, n, t2.len() as int);
        law_response_is_passed_on(r2, t2, response, false, l2, reply);
        assert(turn == delta);
        assert(deeds(t, n) =~= Seq::<Req>::empty());
    }
}

/// A response that did not come of the mouse is passed on, if it asks for anything.
pub open spec fn is_passed_on(
    reply: spec_fn(Req) -> Rep,
    r: Known,
    l: Log,
    response: Response,
    l2: Log,
) -> bool {
    let done = deeds(l2, l.len() as int);
    if response.raise.len() == 0 && response.focus is None {
        done == Seq::<Req>::empty()
    } else {
        &&& done.len() == 1
        &&& done[0] is Raise
        &&& asks_for(reply, r, response, false, done[0]->Raise_0)
    }
}

/// A command for the layout goes to the space that the main window is in, with the spaces of
/// all screens, and what comes of it is passed on.
#[verifier::rlimit(60)]
pub proof fn law_command_goes_to_the_main_window(
    r: Known,
    l: Log,
    command: LayoutCommand,
    r2: Known,
    l2: Log,
    outcome: Outcome,
    home: Option<SpaceId>,
    reply: spec_fn(Req) -> Rep,
)
    requires
        event_taken(r, l, Event::Command(Command::Layout(command)), r2, l2, outcome),
        answered_by(reply, l2, l.len() as int),
        if r.main is Some && r.windows.contains_key(r.main->0) {
            at_home(reply, r.screens, r.windows[r.main->0].frame_monotonic, home)
        } else {
            home is None
        },
    ensures
        outcome == (Outcome::Settle { new: None, is_resize: false }),
        r2 == (Known { layout: r2.layout, ..r }),
        exists|t: Log, t2: Log, response: Response|
            {
                &&& #[trigger] command_handled(
                    r.layout,
                    t,
                    home,
                    spaces_of(r.screens),
                    command,
                    r2.layout,
                    t2,
                    response,
                )
                &&& deeds(t, l.len() as int) == Seq::<Req>::empty()
                &&& grew(t2, l2) ==> is_passed_on(reply, r2, t2, response, l2)
                &&& grew(t2, l2)
            },
{
    broadcast use group_deeds;

    let n = l.len() as int;
    let (t, space) = choose|t: Log, space: Option<SpaceId>| #[trigger]
        window_space(r, l, r.main, t, space) && command_run(r, t, space, command, r2, l2);
    let (s, t2, response) = choose|s: State, t2: Log, response: Response|
        {
            &&& #[trigger] command_handled(
                r.layout,
                t,
                space,
                spaces_of(r.screens),
                command,
                s,
                t2,
                response,
            )
            &&& r2 == Known { layout: s, ..r }
            &&& raised(r2, t2, response, false, l2)
        };
    lemma_raised_grows(r2, t2, response, false, l2);
    lemma_command_grows(
        r.layout,
        t,
        space,
        spaces_of(r.screens),
        command,
        s,
        t2,
        response,
    );
    assert(grew(l, t));
    lemma_reply_part(reply, t2, l2, n);
    lemma_reply_part(reply, t, t2, n);
    if r.main is Some && r.windows.contains_key(r.main->0) {
        lemma_home(
            l,
            r.screens,
            r.windows[r.main->0].frame_monotonic,
            t,
            space,
            home,
            reply,
            n,
        );
    }
    lemma_later(reply, l2, n, t2.len() as int);
    law_response_is_passed_on(r2, t2, response, false, l2, reply);
    assert(deeds(t, n) =~= Seq::<Req>::empty());
}

/// From place `from` on, what is done is to pass the bars of groups on.
pub open spec fn only_bars(log: Log, from: int) -> bool {
    forall|i: int|
        from <= i < log.len() ==> is_question((#[trigger] log[i]).req) || log[i].req is GroupsUpdated
}

proof fn lemma_bars_of_screen(
    r: Known,
    l: Log,
    space: SpaceId,
    screen: Screen,
    new_wids: Seq<WindowId>,
    moves: Seq<WindowMove>,
    r2: Known,
    l2: Log,
    moves2: Seq<WindowMove>,
)
    requires
        layout_applied(r, l, space, screen, new_wids, moves, r2, l2, moves2),
    ensures
        grew(l, l2),
        only_bars(l2, l.len() as int),
{
    let (t, frames, groups) = choose|
        t: Log,
        frames: Seq<(WindowId, Frame)>,
        groups: Seq<GroupBar>,
    |
        {
            &&& #[trigger] frames_and_groups_shown(
                r.layout,
                l,
                space,
                screen.frame,
                r.config.id,
                t,
                frames,
                groups,
            )
            &&& frames_applied(
                r,
                t,
                space,
                screen,
                new_wids,
                moves,
                frames,
                groups,
                r2,
                l2,
                moves2,
            )
        };
    let t1 = ask(t, l2, Req::GroupsUpdated(space, groups));
    lemma_placed_only_asks(r, t1, screen, new_wids, moves, frames, r2, l2, moves2);
    lemma_frames_only_ask(r.layout, l, space, screen, r, t, frames, groups);
    assert forall|i: int| l.len() <= i < l2.len() implies is_question((#[trigger] l2[i]).req)
        || l2[i].req is GroupsUpdated by {
        if i < t.len() {
            assert(l2[i] == t1[i] && t1[i] == t[i]);
            assert(is_question(t[i].req));
        } else if i == t.len() {
            assert(l2[i] == t1[i]);
        }
    }
}

proof fn lemma_frames_only_ask(
    s: State,
    l: Log,
    space: SpaceId,
    screen: Screen,
    r: Known,
    l2: Log,
    frames: Seq<(WindowId, Frame)>,
    groups: Seq<GroupBar>,
)
    requires
        frames_and_groups_shown(
            s,
            l,
            space,
            screen.frame,
            r.config.id,
            l2,
            frames,
            groups,
        ),
    ensures
        grew(l, l2),
        forall|i: int| l.len() <= i < l2.len() ==> is_question((#[trigger] l2[i]).req),
{
}

proof fn lemma_placed_only_asks(
    r: Known,
    l: Log,
    screen: Screen,
    new_wids: Seq<WindowId>,
    moves: Seq<WindowMove>,
    frames: Seq<(WindowId, Frame)>,
    r2: Known,
    l2: Log,
    moves2: Seq<WindowMove>,
)
    requires
        placed(r, l, screen, new_wids, moves, frames, r2, l2, moves2),
    ensures
        grew(l, l2),
        forall|i: int| l.len() <= i < l2.len() ==> is_question((#[trigger] l2[i]).req),
    decreases frames.len(),
{
    if frames.len() > 0 {
        let (m, t, before) = choose|m: Known, t: Log, before: Seq<WindowMove>|
            {
                &&& placed(r, l, screen, new_wids, moves, frames.drop_last(), m, t, before)
                &&& #[trigger] place_step(
                    m,
                    t,
                    screen,
                    new_wids,
                    before,
                    frames.last(),
                    r2,
                    l2,
                    moves2,
                )
            };
        lemma_placed_only_asks(
            r,
            l,
            screen,
            new_wids,
            moves,
            frames.drop_last(),
            m,
            t,
            before,
        );
        assert forall|i: int| l.len() <= i < l2.len() implies is_question(
            (#[trigger] l2[i]).req,
        ) by {
            if i < t.len() {
                assert(l2[i] == t[i]);
            }
        }
    }
}

proof fn lemma_held_screens(
    r: Known,
    l: Log,
    screens: Seq<Screen>,
    new_wids: Seq<WindowId>,
    r2: Known,
    l2: Log,
    moves: Seq<WindowMove>,
)
    requires
        screens_laid_out(r, l, screens, new_wids, true, r2, l2, moves),
    ensures
        grew(l, l2),
        only_bars(l2, l.len() as int),
    decreases screens.len(),
{
    if screens.len() > 0 {
        let (m, t, before) = choose|m: Known, t: Log, before: Seq<WindowMove>|
            {
                &&& screens_laid_out(r, l, screens.drop_last(), new_wids, true, m, t, before)
                &&& #[trigger] screen_step(
                    m,
                    t,
                    screens.last(),
                    new_wids,
                    true,
                    before,
                    r2,
                    l2,
                    moves,
                )
            };
        lemma_held_screens(r, l, screens.drop_last(), new_wids, m, t, before);
        if let Some(space) = screens.last().space {
            lemma_bars_of_screen(m, t, space, screens.last(), new_wids, before, r2, l2, moves);
        }
        assert forall|i: int| l.len() <= i < l2.len() implies is_question((#[trigger] l2[i]).req)
            || l2[i].req is GroupsUpdated by {
            if i < t.len() {
                assert(l2[i] == t[i]);
            }
        }
    }
}

/// Laying out while something is held leaves the viewports where they are and animates
/// nothing: what is done is to pass the bars of groups on and to put the windows in place at
/// once.
pub proof fn law_holding_still_animates_nothing(
    r: Known,
    l: Log,
    new_wids: Seq<WindowId>,
    r2: Known,
    l2: Log,
    i: int,
)
    requires
        laid_out(r, l, new_wids, true, r2, l2),
        l.len() <= i < l2.len(),
    ensures
        ({
            let req = l2[i].req;
            ||| is_question(req)
            ||| req is GroupsUpdated
            ||| req is JumpToEnd
            ||| req is Animate && req->Animate_0 == AnimationMode::SkipToEnd
        }),
{
    let (t, moves) = choose|t: Log, moves: Seq<WindowMove>| #[trigger]
        screens_laid_out(r, l, r.screens, new_wids, true, r2, t, moves) && moves_made(
            r2,
            t,
            true,
            moves,
            l2,
        );
    lemma_held_screens(r, l, r.screens, new_wids, r2, t, moves);
    if i < t.len() {
        assert(l2[i] == t[i]);
    }
}

/// While the mouse drags an edge and something comes of it, viewports stay where they are, and
/// the windows are put in place at once: nothing is animated.
pub proof fn law_dragged_edge_holds_viewports(
    r: Known,
    l: Log,
    point: Point,
    r2: Known,
    l2: Log,
    outcome: Outcome,
    screen: Screen,
    space: SpaceId,
)
    requires
        event_taken(r, l, Event::LeftMouseDragged(point), r2, l2, outcome),
        works_on(r, screen, space),
    ensures
        exists|s: State, t: Log, changed: bool|
            {
                &&& #[trigger] resize_followed(r.layout, l, point, screen.frame, s, t, changed)
                &&& changed ==> forall|i: int|
                    t.len() <= i < l2.len() ==> {
                        let req = (#[trigger] l2[i]).req;
                        ||| is_question(req)
                        ||| req is GroupsUpdated
                        ||| req is JumpToEnd
                        ||| req is Animate && req->Animate_0 == AnimationMode::SkipToEnd
                    }
                &&& !changed ==> exists|s2: State, t2: Log, moved: bool|
                    {
                        &&& #[trigger] move_followed(
                            s,
                            t,
                            point,
                            screen.frame,
                            r.config,
                            s2,
                            t2,
                            moved,
                        )
                        &&& !moved ==> r2 == Known { layout: s2, ..r } && l2 == t2
                        &&& moved ==> laid_out(
                            Known { layout: s2, ..r },
                            t2,
                            Seq::empty(),
                            false,
                            r2,
                            l2,
                        )
                    }
            },
{
    let (s, t, changed) = choose|s: State, t: Log, changed: bool|
        {
            &&& #[trigger] resize_followed(r.layout, l, point, screen.frame, s, t, changed)
            &&& if changed {
                laid_out(Known { layout: s, ..r }, t, Seq::empty(), true, r2, l2)
            } else {
                window_dragged(
                    Known { layout: s, ..r },
                    t,
                    screen,
                    point,
                    r2,
                    l2,
                )
            }
        };
    if changed {
        assert forall|i: int| t.len() <= i < l2.len() implies {
            let req = (#[trigger] l2[i]).req;
            ||| is_question(req)
            ||| req is GroupsUpdated
            ||| req is JumpToEnd
            ||| req is Animate && req->Animate_0 == AnimationMode::SkipToEnd
        } by {
            law_holding_still_animates_nothing(
                Known { layout: s, ..r },
                t,
                Seq::empty(),
                r2,
                l2,
                i,
            );
        }
    } else {
        let m = Known { layout: s, ..r };
        let (s2, t2, moved) = choose|s2: State, t2: Log, moved: bool|
            {
                &&& #[trigger] move_followed(
                    m.layout,
                    t,
                    point,
                    screen.frame,
                    m.config,
                    s2,
                    t2,
                    moved,
                )
                &&& if moved {
                    laid_out(Known { layout: s2, ..m }, t2, Seq::empty(), false, r2, l2)
                } else {
                    r2 == Known { layout: s2, ..m } && l2 == t2
                }
            };
        assert(move_followed(
            s,
            t,
            point,
            screen.frame,
            r.config,
            s2,
            t2,
            moved,
        ));
    }
}

} // verus!
