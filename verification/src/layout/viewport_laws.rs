//! What viewports and settings are for.
//!
//! `reply` is how the host answers at that time.

use vstd::prelude::*;

use crate::config::Config;
use crate::deeds::{deeds, group_deeds, lemma_deeds_join, lemma_each_asked, lemma_reply};
use crate::ids::{ConfigId, Frame, GroupBar, LayoutId, SpaceId, WindowId};
use crate::layout::conversion::config_set;
use crate::layout::event_laws::lemma_with;
use crate::layout::interactive::{move_ended, resize_ended};
use crate::layout::events::scrolling_cleared;
use crate::layout::state::State;
use crate::layout::viewport::{
    bar_questions, below_floats, column_place, frame_of, frames_and_groups_shown, in_motion,
    motion_questions, scrolled_to, selection_followed, viewport_followed, viewport_open,
};
use crate::link::{answer, answered_by, ask, asked_until, grew, Log, Rep, Req};

verus! {

/// Whether the viewport of a space is to follow its selection: its layout scrolls, scroll
/// layouts are on, and the user is not scrolling it.
pub open spec fn is_to_follow(reply: spec_fn(Req) -> Rep, s: State, space: SpaceId) -> bool {
    let layout = s.spaces[space];
    &&& s.scroll_enabled
    &&& reply(Req::IsScrollLayout(layout))->Flag_0
    &&& !(s.viewports.contains(layout) && reply(Req::IsUserScrolling(layout))->Flag_0)
}

/// What a viewport is asked for first: it is opened if it is not, and gets the width of
/// its screen.
pub open spec fn opening(s: State, layout: LayoutId, screen: Frame) -> Seq<Req> {
    if s.viewports.contains(layout) {
        seq![Req::SetScreenWidth(layout, screen.size.width)]
    } else {
        seq![
            Req::OpenViewport(layout, screen.size.width),
            Req::SetScreenWidth(layout, screen.size.width),
        ]
    }
}

proof fn lemma_selection_followed_grows(
    s: State,
    l: Log,
    layout: LayoutId,
    screen: Frame,
    config: Config,
    s2: State,
    l2: Log,
)
    requires
        selection_followed(s, l, layout, screen, config, s2, l2),
    ensures
        grew(l, l2),
{
    let t1 = ask(l, l2, Req::CalculateLayout(layout, screen, config.id));
    let t2 = ask(t1, l2, Req::Selection(layout));
    let t3 = ask(t2, l2, Req::WindowAt(answer(t2)->Node_0));
    let t4 = ask(t3, l2, Req::Columns(layout));
    let t5 = ask(t4, l2, Req::ColumnOf(layout, answer(t2)->Node_0));
    let frame = match answer(t3)->MaybeWindow_0 {
        Some(wid) => frame_of(answer(t1)->Frames_0, wid),
        None => None,
    };
    let place = match answer(t5)->MaybeNode_0 {
        Some(column) => Some(column_place(answer(t4)->Nodes_0, column)),
        None => None,
    };
    lemma_scrolled_to_grows(s, t5, layout, screen, config, frame, place, s2, l2);
}

proof fn lemma_scrolled_to_grows(
    s: State,
    l: Log,
    layout: LayoutId,
    screen: Frame,
    config: Config,
    frame: Option<Frame>,
    place: Option<int>,
    s2: State,
    l2: Log,
)
    requires
        scrolled_to(s, l, layout, screen, config, frame, place, s2, l2),
    ensures
        grew(l, l2),
        s2 == (State { viewports: s2.viewports, ..s }),
        forall|x: LayoutId| #[trigger]
            s2.viewports.contains(x) <==> s.viewports.contains(x) || x == layout,
        forall|at: int|
            0 <= at <= l.len() ==> #[trigger] deeds(l2, at) == deeds(l, at) + opening(
                s,
                layout,
                screen,
            ) + match (frame, place) {
                (Some(frame), Some(place)) => seq![
                    Req::EnsureColumnVisible(
                        layout,
                        place as usize,
                        frame.origin.x,
                        frame.size.width,
                        config.scroll.center_focused_column,
                        config.inner_gap,
                    ),
                ],
                _ => Seq::empty(),
            },
{
    broadcast use group_deeds;

    let t = choose|t: Log|
        {
            let t1 = ask(t, l2, Req::SetScreenWidth(layout, screen.size.width));
            &&& #[trigger] viewport_open(s, l, layout, screen.size.width, s2, t)
            &&& l2 == match (frame, place) {
                (Some(frame), Some(place)) => ask(
                    t1,
                    l2,
                    Req::EnsureColumnVisible(
                        layout,
                        place as usize,
                        frame.origin.x,
                        frame.size.width,
                        config.scroll.center_focused_column,
                        config.inner_gap,
                    ),
                ),
                _ => t1,
            }
        };
    lemma_with(s.viewports, layout);
    assert forall|at: int| 0 <= at <= l.len() implies #[trigger] deeds(l2, at) == deeds(l, at)
        + opening(s, layout, screen) + match (frame, place) {
        (Some(frame), Some(place)) => seq![
            Req::EnsureColumnVisible(
                layout,
                place as usize,
                frame.origin.x,
                frame.size.width,
                config.scroll.center_focused_column,
                config.inner_gap,
            ),
        ],
        _ => Seq::empty(),
    } by {
        let t1 = ask(t, l2, Req::SetScreenWidth(layout, screen.size.width));
        assert(deeds(t1, at) =~= deeds(l, at) + opening(s, layout, screen));
    }
}

/// The viewport of a space whose layout scrolls goes to the selected column. It is given
/// the width of the screen, and shows the column at its place among the columns, by the frame
/// that the layout has for the selected window. `entry` is where that frame is in the list
/// of frames, and `place` the place of the column, the first where it is in no place.
#[verifier::rlimit(40)]
pub proof fn law_viewport_goes_to_the_selection(
    s: State,
    l: Log,
    space: SpaceId,
    screen: Frame,
    config: Config,
    s2: State,
    l2: Log,
    wid: WindowId,
    entry: int,
    place: int,
    reply: spec_fn(Req) -> Rep,
)
    requires
        viewport_followed(s, l, space, screen, config, s2, l2),
        answered_by(reply, l2, l.len() as int),
        is_to_follow(reply, s, space),
        ({
            let layout = s.spaces[space];
            let selection = reply(Req::Selection(layout))->Node_0;
            let frames = reply(Req::CalculateLayout(layout, screen, config.id))->Frames_0;
            let columns = reply(Req::Columns(layout))->Nodes_0;
            let column = reply(Req::ColumnOf(layout, selection))->MaybeNode_0;
            &&& reply(Req::WindowAt(selection))->MaybeWindow_0 == Some(wid)
            &&& column is Some
            &&& 0 <= entry < frames.len()
            &&& frames[entry].0 == wid
            &&& forall|i: int| 0 <= i < entry ==> (#[trigger] frames[i]).0 != wid
            &&& if columns.contains(column->0) {
                &&& 0 <= place < columns.len()
                &&& columns[place] == column->0
                &&& forall|i: int| 0 <= i < place ==> #[trigger] columns[i] != column->0
            } else {
                place == 0
            }
        }),
    ensures
        ({
            let layout = s.spaces[space];
            let frames = reply(Req::CalculateLayout(layout, screen, config.id))->Frames_0;
            &&& s2 == State { viewports: s2.viewports, ..s }
            &&& forall|x: LayoutId| #[trigger]
                s2.viewports.contains(x) <==> s.viewports.contains(x) || x == layout
            &&& deeds(l2, l.len() as int) == opening(s, layout, screen) + seq![
                Req::EnsureColumnVisible(
                    layout,
                    place as usize,
                    frames[entry].1.origin.x,
                    frames[entry].1.size.width,
                    config.scroll.center_focused_column,
                    config.inner_gap,
                ),
            ]
        }),
{
    broadcast use group_deeds;

    let n = l.len() as int;
    let layout = s.spaces[space];
    let t = lemma_followed_from(s, l, space, screen, config, s2, l2, reply);
    let q1 = Req::CalculateLayout(layout, screen, config.id);
    let t1 = ask(t, l2, q1);
    let q2 = Req::Selection(layout);
    let t2 = ask(t1, l2, q2);
    let q3 = Req::WindowAt(answer(t2)->Node_0);
    let t3 = ask(t2, l2, q3);
    let q4 = Req::Columns(layout);
    let t4 = ask(t3, l2, q4);
    let q5 = Req::ColumnOf(layout, answer(t2)->Node_0);
    let t5 = ask(t4, l2, q5);
    let frame = match answer(t3)->MaybeWindow_0 {
        Some(wid) => frame_of(answer(t1)->Frames_0, wid),
        None => None,
    };
    let at = match answer(t5)->MaybeNode_0 {
        Some(column) => Some(column_place(answer(t4)->Nodes_0, column)),
        None => None,
    };
    lemma_scrolled_to_grows(s, t5, layout, screen, config, frame, at, s2, l2);
    lemma_reply(reply, t4, l2, q5, n);
    lemma_reply(reply, t3, l2, q4, n);
    lemma_reply(reply, t2, l2, q3, n);
    lemma_reply(reply, t1, l2, q2, n);
    lemma_reply(reply, t, l2, q1, n);
    let frames = answer(t1)->Frames_0;
    let wids = frames.map_values(|entry: (WindowId, Frame)| entry.0);
    wids.index_of_first_ensures(wid);
    assert(wids[entry] == wid);
    let first = wids.index_of_first(wid)->0;
    assert(wids[first] == frames[first].0);
    assert(first == entry) by {
        if first < entry {
            assert(frames[first].0 != wid);
        }
    }
    let columns = answer(t4)->Nodes_0;
    let column = answer(t5)->MaybeNode_0->0;
    if columns.contains(column) {
        columns.index_of_first_ensures(column);
    }
    assert(deeds(t5, n) =~= Seq::<_>::empty());
    assert(deeds(t5, n) + opening(s, layout, screen) =~= opening(s, layout, screen));
}

/// Where following begins.
proof fn lemma_followed_from(
    s: State,
    l: Log,
    space: SpaceId,
    screen: Frame,
    config: Config,
    s2: State,
    l2: Log,
    reply: spec_fn(Req) -> Rep,
) -> (t: Log)
    requires
        viewport_followed(s, l, space, screen, config, s2, l2),
        answered_by(reply, l2, l.len() as int),
        is_to_follow(reply, s, space),
    ensures
        grew(l, t),
        grew(t, l2),
        deeds(t, l.len() as int) == Seq::<Req>::empty(),
        selection_followed(s, t, s.spaces[space], screen, config, s2, l2),
{
    broadcast use group_deeds;

    let n = l.len() as int;
    let layout = s.spaces[space];
    let q1 = Req::IsScrollLayout(layout);
    let t1 = ask(l, l2, q1);
    if !answer(t1)->Flag_0 {
        lemma_reply(reply, l, l2, q1, n);
        assert(false);
    }
    if s.viewports.contains(layout) {
        let q2 = Req::IsUserScrolling(layout);
        let t2 = ask(t1, l2, q2);
        if answer(t2)->Flag_0 {
            lemma_reply(reply, t1, l2, q2, n);
            assert(false);
        }
        lemma_selection_followed_grows(s, t2, layout, screen, config, s2, l2);
        t2
    } else {
        lemma_selection_followed_grows(s, t1, layout, screen, config, s2, l2);
        t1
    }
}

/// A viewport that is not to follow is left alone.
pub proof fn law_viewport_is_left_alone(
    s: State,
    l: Log,
    space: SpaceId,
    screen: Frame,
    config: Config,
    s2: State,
    l2: Log,
    reply: spec_fn(Req) -> Rep,
)
    requires
        viewport_followed(s, l, space, screen, config, s2, l2),
        answered_by(reply, l2, l.len() as int),
        !is_to_follow(reply, s, space),
    ensures
        s2 == s,
        deeds(l2, l.len() as int) == Seq::<Req>::empty(),
{
    broadcast use group_deeds;

    let n = l.len() as int;
    let layout = s.spaces[space];
    if s.scroll_enabled {
        let q1 = Req::IsScrollLayout(layout);
        let t1 = ask(l, l2, q1);
        if answer(t1)->Flag_0 {
            if s.viewports.contains(layout) {
                let q2 = Req::IsUserScrolling(layout);
                let t2 = ask(t1, l2, q2);
                if !answer(t2)->Flag_0 {
                    lemma_selection_followed_grows(s, t2, layout, screen, config, s2, l2);
                }
                lemma_reply(reply, t1, l2, q2, n);
            } else {
                lemma_selection_followed_grows(s, t1, layout, screen, config, s2, l2);
            }
            lemma_reply(reply, l, l2, q1, n);
        }
    }
}

/// Where the mouse lets go of edges or of a window, nothing is held any more, the viewport
/// of the space counts as scrolled by the user no longer, and it follows from there on.
pub proof fn law_letting_go_follows_again(
    s: State,
    l: Log,
    space: SpaceId,
    screen: Frame,
    config: Config,
    s2: State,
    l2: Log,
)
    ensures
        resize_ended(s, l, space, screen, config, s2, l2) && s.resizing is Some ==> {
            let free = State { resizing: None, ..s };
            exists|t: Log|
                {
                    &&& #[trigger] viewport_followed(free, t, space, screen, config, s2, l2)
                    &&& deeds(t, l.len() as int) == if s.viewports.contains(s.spaces[space]) {
                        seq![Req::StopUserScrolling(s.spaces[space])]
                    } else {
                        Seq::empty()
                    }
                    &&& s2.resizing is None
                }
        },
        move_ended(s, l, space, screen, config, s2, l2) && s.moving is Some ==> {
            let free = State { moving: None, ..s };
            exists|t: Log|
                {
                    &&& #[trigger] viewport_followed(free, t, space, screen, config, s2, l2)
                    &&& deeds(t, l.len() as int) == if s.viewports.contains(s.spaces[space]) {
                        seq![Req::StopUserScrolling(s.spaces[space])]
                    } else {
                        Seq::empty()
                    }
                    &&& s2.moving is None
                }
        },
        resize_ended(s, l, space, screen, config, s2, l2) && s.resizing is None ==> s2 == s && l2
            == l,
        move_ended(s, l, space, screen, config, s2, l2) && s.moving is None ==> s2 == s && l2 == l,
{
    broadcast use group_deeds;

    if resize_ended(s, l, space, screen, config, s2, l2) && s.resizing is Some {
        let free = State { resizing: None, ..s };
        let t = choose|t: Log| #[trigger]
            scrolling_cleared(free, l, space, t) && viewport_followed(
                free,
                t,
                space,
                screen,
                config,
                s2,
                l2,
            );
        lemma_follow_keeps(free, t, space, screen, config, s2, l2);
    }
    if move_ended(s, l, space, screen, config, s2, l2) && s.moving is Some {
        let free = State { moving: None, ..s };
        let t = choose|t: Log| #[trigger]
            scrolling_cleared(free, l, space, t) && viewport_followed(
                free,
                t,
                space,
                screen,
                config,
                s2,
                l2,
            );
        lemma_follow_keeps(free, t, space, screen, config, s2, l2);
    }
}

/// Following changes nothing but which layouts have viewports.
proof fn lemma_follow_keeps(
    s: State,
    l: Log,
    space: SpaceId,
    screen: Frame,
    config: Config,
    s2: State,
    l2: Log,
)
    requires
        viewport_followed(s, l, space, screen, config, s2, l2),
    ensures
        s2 == (State { viewports: s2.viewports, ..s }),
{
}

/// Some viewport is in motion exactly if scroll layouts are on and the host says so of one.
pub proof fn law_motion_is_of_some_viewport(
    s: State,
    l: Log,
    l2: Log,
    moving: bool,
    reply: spec_fn(Req) -> Rep,
)
    requires
        in_motion(s, l, l2, moving),
        answered_by(reply, l2, l.len() as int),
    ensures
        deeds(l2, l.len() as int) == Seq::<Req>::empty(),
        moving <==> s.scroll_enabled && exists|i: int|
            0 <= i < s.viewports.len() && reply(
                Req::IsAnimating(#[trigger] s.viewports[i]),
            )->Flag_0,
{
    broadcast use group_deeds;

    if s.scroll_enabled {
        let qs = motion_questions(s.viewports);
        let found = choose|found: Option<int>| #[trigger]
            asked_until(l, qs, true, l2, found) && moving == (found is Some);
        let made: int = match found {
            Some(i) => i + 1,
            None => qs.len() as int,
        };
        lemma_each_asked(l, l2, qs.take(made));
        assert forall|i: int| 0 <= i < made implies #[trigger] l2[l.len() + i].rep == reply(
            Req::IsAnimating(s.viewports[i]),
        ) by {
            assert(l2[l.len() + i].req == qs.take(made)[i]);
        }
        if let Some(i) = found {
            assert(qs[i] == qs[i]);
            assert(l2[l.len() + i].rep->Flag_0);
            assert(reply(Req::IsAnimating(s.viewports[i]))->Flag_0);
        } else {
            assert forall|i: int| 0 <= i < s.viewports.len() implies !reply(
                Req::IsAnimating(#[trigger] s.viewports[i]),
            )->Flag_0 by {
                assert(qs[i] == qs[i]);
                assert(!l2[l.len() + i].rep->Flag_0);
            }
        }
    }
}

/// A configuration takes effect: its checked settings of scroll layouts count from then on,
/// and a new space gets its default kind of layout, or a tree while scroll layouts are off.
/// Where they are on, the tree is left alone.
pub proof fn law_configuration_takes_effect(s: State, l: Log, config: Config, s2: State, l2: Log)
    requires
        config_set(s, l, config, s2, l2),
        config.valid_scroll.enable,
    ensures
        l2 == l,
        s2 == (State {
            scroll: config.valid_scroll@,
            scroll_enabled: true,
            default_kind: config.default_layout_kind,
            ..s
        }),
{
}

/// The frames of the windows of a space are those of its layout on its screen, seen through
/// the viewport where the layout scrolls and has one. No bar of a group is on top while a
/// floating window has the focus; and bars are seen through the viewport as well.
pub proof fn law_frames_are_seen_through_the_viewport(
    s: State,
    l: Log,
    space: SpaceId,
    screen: Frame,
    config: ConfigId,
    l2: Log,
    frames: Seq<(WindowId, Frame)>,
    groups: Seq<GroupBar>,
    reply: spec_fn(Req) -> Rep,
)
    requires
        frames_and_groups_shown(s, l, space, screen, config, l2, frames, groups),
        answered_by(reply, l2, l.len() as int),
    ensures
        ({
            let layout = s.spaces[space];
            let asked = Req::CalculateLayoutAndGroups(layout, screen, config);
            let plain = reply(asked)->Groups_0;
            let bars = reply(asked)->Groups_1;
            let through = s.scroll_enabled && reply(Req::IsScrollLayout(layout))->Flag_0
                && s.viewports.contains(layout);
            &&& deeds(l2, l.len() as int) == Seq::<Req>::empty()
            &&& frames == if through {
                reply(Req::ApplyViewport(layout, screen, plain))->Frames_0
            } else {
                plain
            }
            &&& groups.len() == bars.len()
            &&& forall|i: int|
                0 <= i < bars.len() ==> #[trigger] groups[i] == (GroupBar {
                    is_on_top: bars[i].is_on_top && !s.is_floating(),
                    indicator_frame: if through {
                        reply(Req::OffsetRect(layout, bars[i].indicator_frame))->Rect_0
                    } else {
                        bars[i].indicator_frame
                    },
                    ..bars[i]
                })
        }),
{
    broadcast use group_deeds;

    let n = l.len() as int;
    let layout = s.spaces[space];
    let q1 = Req::CalculateLayoutAndGroups(layout, screen, config);
    let t1 = ask(l, l2, q1);
    let plain = answer(t1)->Groups_0;
    let bars = below_floats(answer(t1)->Groups_1, s.is_floating());
    if s.scroll_enabled {
        let q2 = Req::IsScrollLayout(layout);
        let t2 = ask(t1, l2, q2);
        if answer(t2)->Flag_0 && s.viewports.contains(layout) {
            let q3 = Req::ApplyViewport(layout, screen, plain);
            let t3 = ask(t2, l2, q3);
            let qs = bar_questions(layout, bars);
            lemma_each_asked(t3, l2, qs);
            lemma_deeds_join(l, t3, l2);
            assert forall|i: int| 0 <= i < bars.len() implies #[trigger] l2[t3.len() + i].rep
                == reply(Req::OffsetRect(layout, bars[i].indicator_frame)) by {
                assert(l2[t3.len() + i].req == qs[i]);
            }
            lemma_reply(reply, t2, l2, q3, n);
        }
        lemma_reply(reply, t1, l2, q2, n);
    }
    lemma_reply(reply, l, l2, q1, n);
}

} // verus!
