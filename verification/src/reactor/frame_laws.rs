//! What following the frames of windows is for.
//!
//! `reply` is how the host answers while an event is handled.

use vstd::prelude::*;

use crate::deeds::{
    deeds, group_deeds, is_question, lemma_deeds_join, lemma_done, lemma_each_asked,
    lemma_on_record, lemma_reply, lemma_reply_part, lemma_those_made, those_made,
};
use crate::ids::{Frame, NodeId, Real, SpaceId, WindowId};
use crate::layout::event_laws::{law_window_follows_to_new_space, lemma_resized_in_all, resizing};
use crate::layout::events::{event_handled, LayoutEventView};
use crate::layout::state::State;
use crate::link::{answer, answered_by, ask, grew, Log, Rep, Req};
use crate::reactor::event::{Event, MouseState, Requested};
use crate::reactor::frames::{
    both_followed, frame_followed, frame_followed_from, managed_screens, size_followed,
    space_followed,
};
use crate::reactor::handler::event_taken;
use crate::reactor::outcome::Outcome;
use crate::reactor::raising::{answered, told};
use crate::reactor::screens::{area_on, area_questions, best_screen, best_space};
use crate::reactor::state::{Known, Screen, WindowState};
use crate::response::{nothing, Response};

verus! {

/// How much of a frame lies on a screen.
pub open spec fn share(reply: spec_fn(Req) -> Rep, screen: Screen, frame: Frame) -> i64 {
    reply(Req::OverlapArea(screen.frame, frame))->Area_0
}

/// Whether a frame belongs to a screen: no other has more of it, and no later one as much.
pub open spec fn lies_on(
    reply: spec_fn(Req) -> Rep,
    screens: Seq<Screen>,
    frame: Frame,
    idx: int,
) -> bool {
    &&& 0 <= idx < screens.len()
    &&& forall|i: int|
        0 <= i < idx ==> share(reply, #[trigger] screens[i], frame) <= share(
            reply,
            screens[idx],
            frame,
        )
    &&& forall|i: int|
        idx < i < screens.len() ==> share(reply, #[trigger] screens[i], frame) < share(
            reply,
            screens[idx],
            frame,
        )
}

/// Whether a frame belongs to a space, or to none: to the space of the screen that it
/// belongs to.
pub open spec fn at_home(
    reply: spec_fn(Req) -> Rep,
    screens: Seq<Screen>,
    frame: Frame,
    home: Option<SpaceId>,
) -> bool {
    ||| screens.len() == 0 && home is None
    ||| exists|idx: int| #[trigger]
        lies_on(reply, screens, frame, idx) && home == screens[idx].space
}

/// The screen of a frame.
pub proof fn lemma_best_screen(
    l: Log,
    screens: Seq<Screen>,
    frame: Frame,
    l2: Log,
    best: Option<usize>,
    reply: spec_fn(Req) -> Rep,
    from: int,
)
    requires
        best_screen(l, screens, frame, l2, best),
        answered_by(reply, l2, from),
        0 <= from <= l.len(),
    ensures
        grew(l, l2),
        deeds(l2, from) == deeds(l, from),
        best is Some ==> lies_on(reply, screens, frame, best->0 as int),
        best is None <==> screens.len() == 0,
{
    broadcast use group_deeds;

    let qs = area_questions(screens, frame);
    assert forall|i: int| 0 <= i < qs.len() implies is_question(#[trigger] qs[i]) by {}
    lemma_each_asked(l, l2, qs);
    let start = l.take(from);
    assert(grew(start, l));
    lemma_deeds_join(start, l, l2);
    assert(deeds(l, from) + Seq::<Req>::empty() =~= deeds(l, from));
    assert forall|i: int| 0 <= i < screens.len() implies #[trigger] l2[l.len() + i].rep->Area_0
        == share(reply, screens[i], frame) by {
        assert(l2[l.len() + i].req == qs[i]);
    }
    if let Some(idx) = best {
        let n = screens.len() as int;
        assert forall|i: int| 0 <= i < n && i != idx implies share(
            reply,
            #[trigger] screens[i],
            frame,
        ) < share(reply, screens[idx as int], frame) || i < idx && share(reply, screens[i], frame)
            == share(reply, screens[idx as int], frame) by {
            assert(area_on(l2, l.len() as int, i) == share(
                reply,
                screens[i],
                frame,
            ));
            assert(l2[l.len() + idx].rep->Area_0 == share(reply, screens[idx as int], frame));
        }
    }
}

/// The space of a frame.
pub proof fn lemma_home(
    l: Log,
    screens: Seq<Screen>,
    frame: Frame,
    l2: Log,
    space: Option<SpaceId>,
    home: Option<SpaceId>,
    reply: spec_fn(Req) -> Rep,
    from: int,
)
    requires
        best_space(l, screens, frame, l2, space),
        answered_by(reply, l2, from),
        0 <= from <= l.len(),
        at_home(reply, screens, frame, home),
    ensures
        grew(l, l2),
        deeds(l2, from) == deeds(l, from),
        space == home,
{
    let best = choose|best: Option<usize>| #[trigger]
        best_screen(l, screens, frame, l2, best) && space == match best {
            Some(idx) => screens[idx as int].space,
            None => None,
        };
    lemma_best_screen(l, screens, frame, l2, best, reply, from);
    if screens.len() > 0 {
        let idx = choose|idx: int| #[trigger]
            lies_on(reply, screens, frame, idx) && home == screens[idx].space;
        let b = best->0 as int;
        if b < idx {
            assert(share(reply, screens[b], frame) <= share(reply, screens[idx], frame));
            assert(share(reply, screens[idx], frame) < share(reply, screens[b], frame));
        }
        if idx < b {
            assert(share(reply, screens[idx], frame) <= share(reply, screens[b], frame));
            assert(share(reply, screens[b], frame) < share(reply, screens[idx], frame));
        }
    }
}

/// Finding the space of a frame only adds to the record.
pub proof fn lemma_best_space_grows(
    l: Log,
    screens: Seq<Screen>,
    frame: Frame,
    l2: Log,
    space: Option<SpaceId>,
)
    requires
        best_space(l, screens, frame, l2, space),
    ensures
        grew(l, l2),
{
}

/// An event that asks for nothing to be raised or focused: the layout manager handles it, and
/// that is all.
pub proof fn lemma_told_quietly(r: Known, l: Log, event: LayoutEventView, r2: Known, l2: Log)
    requires
        told(r, l, event, r2, l2),
        !(event is SpaceExposed),
        !(event is MouseMovedOverWindow),
    ensures
        event_handled(r.layout, l, event, r2.layout, l2, nothing()),
        r2 == (Known { layout: r2.layout, ..r }),
{
    let (s, t, response) = choose|s: State, t: Log, response: Response|
        {
            &&& #[trigger] event_handled(r.layout, l, event, s, t, response)
            &&& r2 == Known { layout: s, ..r }
            &&& answered(r2, t, response, Seq::empty(), false, l2)
        };
    assert(response == nothing());
}

/// What the layouts of the screens are asked to do when the user gave a window another size.
pub open spec fn resizing_on(
    reply: spec_fn(Req) -> Rep,
    layout: State,
    screens: Seq<Screen>,
    wid: WindowId,
    old_frame: Frame,
    new_frame: Frame,
) -> Seq<Req> {
    those_made(
        Seq::new(
            screens.len(),
            |i: int|
                match screens[i].space {
                    Some(space) => resizing(
                        reply,
                        layout.spaces[space],
                        wid,
                        old_frame,
                        new_frame,
                        screens[i].frame,
                    ),
                    None => None,
                },
        ),
    )
}

proof fn lemma_managed(
    reply: spec_fn(Req) -> Rep,
    layout: State,
    screens: Seq<Screen>,
    wid: WindowId,
    old_frame: Frame,
    new_frame: Frame,
)
    ensures
        ({
            let managed = managed_screens(screens);
            resizing_on(reply, layout, screens, wid, old_frame, new_frame) == those_made(
                Seq::new(
                    managed.len(),
                    |i: int|
                        resizing(
                            reply,
                            layout.spaces[managed[i].0],
                            wid,
                            old_frame,
                            new_frame,
                            managed[i].1,
                        ),
                ),
            )
        }),
    decreases screens.len(),
{
    let managed = managed_screens(screens);
    let all = Seq::new(
        managed.len(),
        |i: int|
            resizing(
                reply,
                layout.spaces[managed[i].0],
                wid,
                old_frame,
                new_frame,
                managed[i].1,
            ),
    );
    let each = Seq::new(
        screens.len(),
        |i: int|
            match screens[i].space {
                Some(space) => resizing(
                    reply,
                    layout.spaces[space],
                    wid,
                    old_frame,
                    new_frame,
                    screens[i].frame,
                ),
                None => None,
            },
    );
    if screens.len() == 0 {
        assert(all =~= Seq::<Option<Req>>::empty());
        assert(each =~= Seq::<Option<Req>>::empty());
    } else {
        let front = screens.drop_last();
        lemma_managed(reply, layout, front, wid, old_frame, new_frame);
        let before = managed_screens(front);
        let all_before = Seq::new(
            before.len(),
            |i: int|
                resizing(
                    reply,
                    layout.spaces[before[i].0],
                    wid,
                    old_frame,
                    new_frame,
                    before[i].1,
                ),
        );
        assert(each.drop_last() =~= Seq::new(
            front.len(),
            |i: int|
                match front[i].space {
                    Some(space) => resizing(
                        reply,
                        layout.spaces[space],
                        wid,
                        old_frame,
                        new_frame,
                        front[i].frame,
                    ),
                    None => None,
                },
        ));
        if screens.last().space is Some {
            assert(all.drop_last() =~= all_before);
        } else {
            assert(all =~= all_before);
        }
    }
}

/// The user gave a window another frame: it is known to have it. Where the window went to
/// a screen with another space, it follows to that space's layout. Where its size is another,
/// every layout on screen that has it is resized, from the frame that the window was known
/// to have to the one that it has now. Where only its place is another while the button is
/// down, it is being dragged.
#[verifier::rlimit(60)]
pub proof fn law_layout_follows_the_user(
    r: Known,
    l: Log,
    wid: WindowId,
    frame: Frame,
    mouse: Option<MouseState>,
    r2: Known,
    l2: Log,
    outcome: Outcome,
    from: Option<SpaceId>,
    to: Option<SpaceId>,
    reply: spec_fn(Req) -> Rep,
)
    requires
        event_taken(
            r,
            l,
            Event::WindowFrameChanged(
                wid,
                frame,
                r.windows[wid].last_sent_txid,
                Requested(false),
                mouse,
            ),
            r2,
            l2,
            outcome,
        ),
        answered_by(reply, l2, l.len() as int),
        at_home(reply, r.screens, r.windows[wid].frame_monotonic, from),
        at_home(reply, r.screens, frame, to),
    ensures
        ({
            let before = r.windows[wid].frame_monotonic;
            let done = deeds(l2, l.len() as int);
            let known = r.windows.insert(
                wid,
                WindowState { frame_monotonic: frame, ..r.windows[wid] },
            );
            let taken = if from is Some && to is Some && from != to {
                match reply(Req::WindowNode(r.layout.spaces[from->0], wid))->MaybeNode_0 {
                    Some(node) => seq![
                        Req::MoveNodeAfter(
                            reply(Req::Selection(r.layout.spaces[to->0]))->Node_0,
                            node,
                        ),
                    ],
                    None => Seq::empty(),
                }
            } else {
                Seq::empty()
            };
            if reply(Req::SameFrame(before, frame))->Flag_0 {
                &&& r2 == Known { windows: known, ..r }
                &&& done == Seq::<Req>::empty()
                &&& outcome == Outcome::Done
            } else if reply(Req::SameSize(before.size, frame.size))->Flag_0 {
                &&& r2 == Known {
                    windows: known,
                    in_drag: r.in_drag || mouse == Some(MouseState::Down),
                    ..r
                }
                &&& done == taken
                &&& outcome == Outcome::Settle { new: None, is_resize: false }
            } else {
                &&& r2 == Known { windows: known, ..r }
                &&& done == taken + resizing_on(
                    reply,
                    r.layout,
                    r.screens,
                    wid,
                    before,
                    frame,
                )
                &&& outcome == Outcome::Settle { new: None, is_resize: true }
            }
        }),
{
    broadcast use group_deeds;

    let n = l.len() as int;
    let before = r.windows[wid].frame_monotonic;
    let m = Known {
        windows: r.windows.insert(
            wid,
            WindowState { frame_monotonic: frame, ..r.windows[wid] },
        ),
        ..r
    };
    let q = Req::SameFrame(before, frame);
    let t = ask(l, l2, q);
    if answer(t)->Flag_0 {
        lemma_reply(reply, l, l2, q, n);
    } else {
        lemma_frame_followed_grows(m, t, wid, before, frame, mouse, r2, l2, outcome);
        lemma_reply(reply, l, l2, q, n);
        lemma_frame_followed(
            m,
            t,
            wid,
            before,
            frame,
            mouse,
            r2,
            l2,
            outcome,
            from,
            to,
            reply,
            n,
        );
        assert(deeds(t, n) =~= Seq::<Req>::empty());
    }
}

proof fn lemma_size_followed_grows(
    r: Known,
    l: Log,
    wid: WindowId,
    old_frame: Frame,
    new_frame: Frame,
    mouse: Option<MouseState>,
    r2: Known,
    l2: Log,
    outcome: Outcome,
)
    requires
        size_followed(r, l, wid, old_frame, new_frame, mouse, r2, l2, outcome),
    ensures
        grew(ask(l, l2, Req::SameSize(old_frame.size, new_frame.size)), l2),
        grew(l, l2),
{
    let t = ask(l, l2, Req::SameSize(old_frame.size, new_frame.size));
    if !answer(t)->Flag_0 {
        let screens = managed_screens(r.screens);
        lemma_told_quietly(
            r,
            t,
            LayoutEventView::WindowResized { wid, old_frame, new_frame, screens },
            r2,
            l2,
        );
        lemma_resized_in_all(
            r.layout,
            t,
            wid,
            old_frame,
            new_frame,
            screens,
            l2,
            |req: Req| Rep::Unit,
            0,
        );
    }
}

proof fn lemma_space_followed_grows(
    r: Known,
    l: Log,
    wid: WindowId,
    from: Option<SpaceId>,
    to: Option<SpaceId>,
    r2: Known,
    l2: Log,
)
    requires
        space_followed(r, l, wid, from, to, r2, l2),
    ensures
        grew(l, l2),
        r2 == r,
{
    if from is Some && to is Some && from != to {
        lemma_told_quietly(
            r,
            l,
            LayoutEventView::WindowSpaceChanged { wid, added: to->0, removed: from->0 },
            r2,
            l2,
        );
    }
}

proof fn lemma_frame_followed_grows(
    r: Known,
    l: Log,
    wid: WindowId,
    old_frame: Frame,
    new_frame: Frame,
    mouse: Option<MouseState>,
    r2: Known,
    l2: Log,
    outcome: Outcome,
)
    requires
        frame_followed(r, l, wid, old_frame, new_frame, mouse, r2, l2, outcome),
    ensures
        grew(l, l2),
{
    let (t, from) = choose|t: Log, from: Option<SpaceId>| #[trigger]
        best_space(l, r.screens, old_frame, t, from) && frame_followed_from(
            r,
            t,
            wid,
            old_frame,
            new_frame,
            from,
            mouse,
            r2,
            l2,
            outcome,
        );
    let (t2, to) = choose|t2: Log, to: Option<SpaceId>| #[trigger]
        best_space(t, r.screens, new_frame, t2, to) && both_followed(
            r,
            t2,
            wid,
            old_frame,
            new_frame,
            from,
            to,
            mouse,
            r2,
            l2,
            outcome,
        );
    let (m, t3) = choose|m: Known, t3: Log| #[trigger]
        space_followed(r, t2, wid, from, to, m, t3) && size_followed(
            m,
            t3,
            wid,
            old_frame,
            new_frame,
            mouse,
            r2,
            l2,
            outcome,
        );
    lemma_best_space_grows(l, r.screens, old_frame, t, from);
    lemma_best_space_grows(t, r.screens, new_frame, t2, to);
    lemma_space_followed_grows(r, t2, wid, from, to, m, t3);
    lemma_size_followed_grows(m, t3, wid, old_frame, new_frame, mouse, r2, l2, outcome);
}

/// What is done with a window that went from one space to another: it is put behind the
/// selection of the space that it went to, if the layout of the other has it.
pub open spec fn taken_along(
    reply: spec_fn(Req) -> Rep,
    layout: State,
    wid: WindowId,
    from: Option<SpaceId>,
    to: Option<SpaceId>,
) -> Seq<Req> {
    if from is Some && to is Some && from != to {
        match reply(Req::WindowNode(layout.spaces[from->0], wid))->MaybeNode_0 {
            Some(node) => seq![
                Req::MoveNodeAfter(
                    reply(Req::Selection(layout.spaces[to->0]))->Node_0,
                    node,
                ),
            ],
            None => Seq::empty(),
        }
    } else {
        Seq::empty()
    }
}

proof fn lemma_both_followed_grows(
    r: Known,
    l: Log,
    wid: WindowId,
    old_frame: Frame,
    new_frame: Frame,
    from: Option<SpaceId>,
    to: Option<SpaceId>,
    mouse: Option<MouseState>,
    r2: Known,
    l2: Log,
    outcome: Outcome,
)
    requires
        both_followed(r, l, wid, old_frame, new_frame, from, to, mouse, r2, l2, outcome),
    ensures
        grew(l, l2),
{
    let (m, t) = choose|m: Known, t: Log| #[trigger]
        space_followed(r, l, wid, from, to, m, t) && size_followed(
            m,
            t,
            wid,
            old_frame,
            new_frame,
            mouse,
            r2,
            l2,
            outcome,
        );
    lemma_space_followed_grows(r, l, wid, from, to, m, t);
    lemma_size_followed_grows(m, t, wid, old_frame, new_frame, mouse, r2, l2, outcome);
}

proof fn lemma_both_followed(
    r: Known,
    l: Log,
    wid: WindowId,
    old_frame: Frame,
    new_frame: Frame,
    from: Option<SpaceId>,
    to: Option<SpaceId>,
    mouse: Option<MouseState>,
    r2: Known,
    l2: Log,
    outcome: Outcome,
    reply: spec_fn(Req) -> Rep,
    at: int,
)
    requires
        both_followed(r, l, wid, old_frame, new_frame, from, to, mouse, r2, l2, outcome),
        answered_by(reply, l2, at),
        0 <= at <= l.len(),
    ensures
        if reply(Req::SameSize(old_frame.size, new_frame.size))->Flag_0 {
            &&& r2 == Known { in_drag: r.in_drag || mouse == Some(MouseState::Down), ..r }
            &&& deeds(l2, at) == deeds(l, at) + taken_along(reply, r.layout, wid, from, to)
            &&& outcome == Outcome::Settle { new: None, is_resize: false }
        } else {
            &&& r2 == r
            &&& deeds(l2, at) == deeds(l, at) + (taken_along(reply, r.layout, wid, from, to)
                + resizing_on(reply, r.layout, r.screens, wid, old_frame, new_frame))
            &&& outcome == Outcome::Settle { new: None, is_resize: true }
        },
{
    let (m, t) = choose|m: Known, t: Log| #[trigger]
        space_followed(r, l, wid, from, to, m, t) && size_followed(
            m,
            t,
            wid,
            old_frame,
            new_frame,
            mouse,
            r2,
            l2,
            outcome,
        );
    lemma_space_followed_grows(r, l, wid, from, to, m, t);
    lemma_size_followed_grows(m, t, wid, old_frame, new_frame, mouse, r2, l2, outcome);
    lemma_size_followed(m, t, wid, old_frame, new_frame, mouse, r2, l2, outcome, reply, at);
    lemma_reply_part(reply, t, l2, at);
    lemma_space_followed(r, l, wid, from, to, t, reply, at);
    let start = l.take(at);
    assert(grew(start, l));
    lemma_deeds_join(start, l, t);
    let taken = taken_along(reply, r.layout, wid, from, to);
    let sized = resizing_on(reply, r.layout, r.screens, wid, old_frame, new_frame);
    assert(deeds(l, at) + taken + sized =~= deeds(l, at) + (taken + sized));
}

proof fn lemma_followed_from(
    r: Known,
    l: Log,
    wid: WindowId,
    old_frame: Frame,
    new_frame: Frame,
    from: Option<SpaceId>,
    mouse: Option<MouseState>,
    r2: Known,
    l2: Log,
    outcome: Outcome,
    there: Option<SpaceId>,
    reply: spec_fn(Req) -> Rep,
    at: int,
)
    requires
        frame_followed_from(r, l, wid, old_frame, new_frame, from, mouse, r2, l2, outcome),
        answered_by(reply, l2, at),
        0 <= at <= l.len(),
        at_home(reply, r.screens, new_frame, there),
    ensures
        grew(l, l2),
        if reply(Req::SameSize(old_frame.size, new_frame.size))->Flag_0 {
            &&& r2 == Known { in_drag: r.in_drag || mouse == Some(MouseState::Down), ..r }
            &&& deeds(l2, at) == deeds(l, at) + taken_along(reply, r.layout, wid, from, there)
            &&& outcome == Outcome::Settle { new: None, is_resize: false }
        } else {
            &&& r2 == r
            &&& deeds(l2, at) == deeds(l, at) + (taken_along(reply, r.layout, wid, from, there)
                + resizing_on(reply, r.layout, r.screens, wid, old_frame, new_frame))
            &&& outcome == Outcome::Settle { new: None, is_resize: true }
        },
{
    let (t, to) = choose|t: Log, to: Option<SpaceId>| #[trigger]
        best_space(l, r.screens, new_frame, t, to) && both_followed(
            r,
            t,
            wid,
            old_frame,
            new_frame,
            from,
            to,
            mouse,
            r2,
            l2,
            outcome,
        );
    lemma_best_space_grows(l, r.screens, new_frame, t, to);
    lemma_both_followed_grows(
        r,
        t,
        wid,
        old_frame,
        new_frame,
        from,
        to,
        mouse,
        r2,
        l2,
        outcome,
    );
    lemma_reply_part(reply, t, l2, at);
    lemma_home(l, r.screens, new_frame, t, to, there, reply, at);
    lemma_both_followed(
        r,
        t,
        wid,
        old_frame,
        new_frame,
        from,
        to,
        mouse,
        r2,
        l2,
        outcome,
        reply,
        at,
    );
}

proof fn lemma_frame_followed(
    r: Known,
    l: Log,
    wid: WindowId,
    old_frame: Frame,
    new_frame: Frame,
    mouse: Option<MouseState>,
    r2: Known,
    l2: Log,
    outcome: Outcome,
    home: Option<SpaceId>,
    there: Option<SpaceId>,
    reply: spec_fn(Req) -> Rep,
    at: int,
)
    requires
        frame_followed(r, l, wid, old_frame, new_frame, mouse, r2, l2, outcome),
        answered_by(reply, l2, at),
        0 <= at <= l.len(),
        at_home(reply, r.screens, old_frame, home),
        at_home(reply, r.screens, new_frame, there),
    ensures
        if reply(Req::SameSize(old_frame.size, new_frame.size))->Flag_0 {
            &&& r2 == Known { in_drag: r.in_drag || mouse == Some(MouseState::Down), ..r }
            &&& deeds(l2, at) == deeds(l, at) + taken_along(reply, r.layout, wid, home, there)
            &&& outcome == Outcome::Settle { new: None, is_resize: false }
        } else {
            &&& r2 == r
            &&& deeds(l2, at) == deeds(l, at) + (taken_along(reply, r.layout, wid, home, there)
                + resizing_on(reply, r.layout, r.screens, wid, old_frame, new_frame))
            &&& outcome == Outcome::Settle { new: None, is_resize: true }
        },
{
    let (t, from) = choose|t: Log, from: Option<SpaceId>| #[trigger]
        best_space(l, r.screens, old_frame, t, from) && frame_followed_from(
            r,
            t,
            wid,
            old_frame,
            new_frame,
            from,
            mouse,
            r2,
            l2,
            outcome,
        );
    lemma_best_space_grows(l, r.screens, old_frame, t, from);
    lemma_followed_from(
        r,
        t,
        wid,
        old_frame,
        new_frame,
        from,
        mouse,
        r2,
        l2,
        outcome,
        there,
        reply,
        at,
    );
    lemma_reply_part(reply, t, l2, at);
    lemma_home(l, r.screens, old_frame, t, from, home, reply, at);
}

proof fn lemma_size_followed(
    r: Known,
    l: Log,
    wid: WindowId,
    old_frame: Frame,
    new_frame: Frame,
    mouse: Option<MouseState>,
    r2: Known,
    l2: Log,
    outcome: Outcome,
    reply: spec_fn(Req) -> Rep,
    at: int,
)
    requires
        size_followed(r, l, wid, old_frame, new_frame, mouse, r2, l2, outcome),
        answered_by(reply, l2, at),
        0 <= at <= l.len(),
    ensures
        if reply(Req::SameSize(old_frame.size, new_frame.size))->Flag_0 {
            &&& r2 == Known { in_drag: r.in_drag || mouse == Some(MouseState::Down), ..r }
            &&& deeds(l2, at) == deeds(l, at)
            &&& outcome == Outcome::Settle { new: None, is_resize: false }
        } else {
            &&& r2 == r
            &&& deeds(l2, at) == deeds(l, at) + resizing_on(
                reply,
                r.layout,
                r.screens,
                wid,
                old_frame,
                new_frame,
            )
            &&& outcome == Outcome::Settle { new: None, is_resize: true }
        },
{
    broadcast use group_deeds;

    lemma_size_followed_grows(r, l, wid, old_frame, new_frame, mouse, r2, l2, outcome);
    let q = Req::SameSize(old_frame.size, new_frame.size);
    let t = ask(l, l2, q);
    lemma_reply(reply, l, l2, q, at);
    if !answer(t)->Flag_0 {
        let screens = managed_screens(r.screens);
        lemma_told_quietly(
            r,
            t,
            LayoutEventView::WindowResized { wid, old_frame, new_frame, screens },
            r2,
            l2,
        );
        lemma_resized_in_all(
            r.layout,
            t,
            wid,
            old_frame,
            new_frame,
            screens,
            l2,
            reply,
            at,
        );
        lemma_managed(reply, r.layout, r.screens, wid, old_frame, new_frame);
        let start = l.take(at);
        assert(grew(start, t));
        lemma_deeds_join(start, t, l2);
    }
}

proof fn lemma_space_followed(
    r: Known,
    l: Log,
    wid: WindowId,
    from: Option<SpaceId>,
    to: Option<SpaceId>,
    l2: Log,
    reply: spec_fn(Req) -> Rep,
    at: int,
)
    requires
        space_followed(r, l, wid, from, to, r, l2),
        answered_by(reply, l2, at),
        0 <= at <= l.len(),
    ensures
        deeds(l2, l.len() as int) == taken_along(reply, r.layout, wid, from, to),
{
    broadcast use group_deeds;

    if from is Some && to is Some && from != to {
        let event = LayoutEventView::WindowSpaceChanged { wid, added: to->0, removed: from->0 };
        lemma_told_quietly(r, l, event, r, l2);
        law_window_follows_to_new_space(
            r.layout,
            l,
            wid,
            to->0,
            from->0,
            r.layout,
            l2,
            nothing(),
            reply,
        );
    }
}

/// A layout tree that follows resizes: the node of a window that is resized from one frame
/// to another gets wider by as much as the window did. `value` is what a number is worth.
pub open spec fn follows_resizes(
    widths: Seq<Map<NodeId, int>>,
    value: spec_fn(Real) -> int,
    log: Log,
    from: int,
) -> bool {
    &&& widths.len() == log.len() + 1
    &&& forall|i: int|
        from <= i < log.len() ==> widths[i + 1] == match (#[trigger] log[i]).req {
            Req::SetFrameFromResize(node, old_frame, new_frame, _) => widths[i].insert(
                node,
                widths[i][node] + value(new_frame.size.width) - value(old_frame.size.width),
            ),
            _ => widths[i],
        }
}

/// A window that the user makes wider is wider in the layout: no node gets narrower, and the
/// node of the window gets wider in every layout on screen that has the window, unless the
/// sizes do not fit on that screen or the window fills or filled it.
#[verifier::rlimit(60)]
pub proof fn law_wider_window_is_wider_in_layout(
    r: Known,
    l: Log,
    wid: WindowId,
    frame: Frame,
    mouse: Option<MouseState>,
    r2: Known,
    l2: Log,
    outcome: Outcome,
    from: Option<SpaceId>,
    to: Option<SpaceId>,
    reply: spec_fn(Req) -> Rep,
    widths: Seq<Map<NodeId, int>>,
    value: spec_fn(Real) -> int,
)
    requires
        event_taken(
            r,
            l,
            Event::WindowFrameChanged(
                wid,
                frame,
                r.windows[wid].last_sent_txid,
                Requested(false),
                mouse,
            ),
            r2,
            l2,
            outcome,
        ),
        answered_by(reply, l2, l.len() as int),
        at_home(reply, r.screens, r.windows[wid].frame_monotonic, from),
        at_home(reply, r.screens, frame, to),
        !reply(Req::SameFrame(r.windows[wid].frame_monotonic, frame))->Flag_0,
        !reply(Req::SameSize(r.windows[wid].frame_monotonic.size, frame.size))->Flag_0,
        follows_resizes(widths, value, l2, l.len() as int),
        value(frame.size.width) > value(r.windows[wid].frame_monotonic.size.width),
    ensures
        forall|node: NodeId| #[trigger]
            widths.last()[node] >= widths[l.len() as int][node],
        forall|i: int|
            0 <= i < r.screens.len() && (#[trigger] r.screens[i]).space is Some ==> {
                let screen = r.screens[i].frame;
                let found = reply(
                    Req::WindowNode(r.layout.spaces[r.screens[i].space->0], wid),
                )->MaybeNode_0;
                &&& found is Some
                &&& reply(
                    Req::ContainsSize(screen.size, r.windows[wid].frame_monotonic.size),
                )->Flag_0
                &&& reply(Req::ContainsSize(screen.size, frame.size))->Flag_0
                &&& !reply(Req::SameFrame(frame, screen))->Flag_0
                &&& !reply(Req::IsFullscreen(found->0))->Flag_0
            } ==> widths.last()[reply(
                Req::WindowNode(r.layout.spaces[r.screens[i].space->0], wid),
            )->MaybeNode_0->0] > widths[l.len() as int][reply(
                Req::WindowNode(r.layout.spaces[r.screens[i].space->0], wid),
            )->MaybeNode_0->0],
{
    let n = l.len() as int;
    let before = r.windows[wid].frame_monotonic;
    law_layout_follows_the_user(r, l, wid, frame, mouse, r2, l2, outcome, from, to, reply);
    let m = Known {
        windows: r.windows.insert(
            wid,
            WindowState { frame_monotonic: frame, ..r.windows[wid] },
        ),
        ..r
    };
    let t = ask(l, l2, Req::SameFrame(before, frame));
    if answer(t)->Flag_0 {
        lemma_reply(reply, l, l2, Req::SameFrame(before, frame), n);
        assert(false);
    }
    lemma_frame_followed_grows(m, t, wid, before, frame, mouse, r2, l2, outcome);
    assert(grew(l, l2));
    let done = deeds(l2, n);
    let sized = resizing_on(reply, r.layout, r.screens, wid, before, frame);
    let each = Seq::new(
        r.screens.len(),
        |i: int|
            match r.screens[i].space {
                Some(space) => resizing(
                    reply,
                    r.layout.spaces[space],
                    wid,
                    before,
                    frame,
                    r.screens[i].frame,
                ),
                None => None,
            },
    );
    assert forall|i: int|
        n <= i < l2.len() && (#[trigger] l2[i]).req is SetFrameFromResize implies l2[i].req->SetFrameFromResize_1
        == before && l2[i].req->SetFrameFromResize_2 == frame by {
        let req = l2[i].req;
        lemma_done(l2, n, i);
        let k = choose|k: int| 0 <= k < done.len() && done[k] == req;
        let taken_len = done.len() - sized.len();
        assert(k >= taken_len);
        assert(sized[k - taken_len] == req);
        assert(sized.contains(req));
        lemma_those_made(each, req);
        let j = choose|j: int| 0 <= j < each.len() && each[j] == Some(req);
        assert(each[j] is Some);
    }
    assert forall|node: NodeId| #[trigger] widths.last()[node] >= widths[n][node] by {
        lemma_never_narrower(widths, value, l2, n, n, l2.len() as int, before, frame, node);
    }
    assert forall|i: int| 0 <= i < r.screens.len() && (#[trigger] r.screens[i]).space is Some && {
        let screen = r.screens[i].frame;
        let found = reply(
            Req::WindowNode(r.layout.spaces[r.screens[i].space->0], wid),
        )->MaybeNode_0;
        &&& found is Some
        &&& reply(Req::ContainsSize(screen.size, before.size))->Flag_0
        &&& reply(Req::ContainsSize(screen.size, frame.size))->Flag_0
        &&& !reply(Req::SameFrame(frame, screen))->Flag_0
        &&& !reply(Req::IsFullscreen(found->0))->Flag_0
    } implies widths.last()[reply(
        Req::WindowNode(r.layout.spaces[r.screens[i].space->0], wid),
    )->MaybeNode_0->0] > widths[n][reply(
        Req::WindowNode(r.layout.spaces[r.screens[i].space->0], wid),
    )->MaybeNode_0->0] by {
        let node = reply(
            Req::WindowNode(r.layout.spaces[r.screens[i].space->0], wid),
        )->MaybeNode_0->0;
        let req = Req::SetFrameFromResize(node, before, frame, r.screens[i].frame);
        assert(each[i] == Some(req));
        lemma_those_made(each, req);
        let k = choose|k: int| 0 <= k < sized.len() && sized[k] == req;
        assert(done[done.len() - sized.len() + k] == req);
        lemma_on_record(l2, n, req);
        let j = choose|j: int| n <= j < l2.len() && (#[trigger] l2[j]).req == req;
        lemma_never_narrower(widths, value, l2, n, n, j, before, frame, node);
        lemma_never_narrower(
            widths,
            value,
            l2,
            n,
            j + 1,
            l2.len() as int,
            before,
            frame,
            node,
        );
    }
}

proof fn lemma_never_narrower(
    widths: Seq<Map<NodeId, int>>,
    value: spec_fn(Real) -> int,
    log: Log,
    from: int,
    a: int,
    b: int,
    old_frame: Frame,
    new_frame: Frame,
    node: NodeId,
)
    requires
        follows_resizes(widths, value, log, from),
        value(new_frame.size.width) > value(old_frame.size.width),
        0 <= from <= a <= b <= log.len(),
        forall|i: int|
            from <= i < log.len() && (#[trigger] log[i]).req is SetFrameFromResize
                ==> log[i].req->SetFrameFromResize_1 == old_frame
                && log[i].req->SetFrameFromResize_2 == new_frame,
    ensures
        widths[b][node] >= widths[a][node],
    decreases b - a,
{
    if a < b {
        lemma_never_narrower(
            widths,
            value,
            log,
            from,
            a,
            b - 1,
            old_frame,
            new_frame,
            node,
        );
        let last = log[b - 1];
        assert(widths[(b - 1) + 1] == widths[b]);
        assert(last.req is SetFrameFromResize ==> last.req->SetFrameFromResize_1 == old_frame
            && last.req->SetFrameFromResize_2 == new_frame);
    }
}

} // verus!
