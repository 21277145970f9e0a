//! The frames of the windows, and the viewports through which scroll layouts are seen.

use vstd::prelude::*;

use crate::collections::{position, with};
use crate::config::Config;
use crate::ids::{ConfigId, Frame, GroupBar, LayoutId, NodeId, Real, SpaceId, WindowId};
use crate::layout::state::{LayoutManager, State};
use crate::link::{
    answer, ask, ask_each, asked_in_vain, asked_until, grew, lemma_asked_all, lemma_asked_none,
    lemma_asked_on, LayoutHost, Link, Log, Rep, Req,
};

verus! {

/// The frames of the windows of `space`: those of its layout, or what the viewport
/// makes of them where the layout scrolls.
pub open spec fn frames_shown(
    s: State,
    l: Log,
    space: SpaceId,
    screen: Frame,
    config: ConfigId,
    l2: Log,
    frames: Seq<(WindowId, Frame)>,
) -> bool {
    let layout = s.spaces[space];
    let t1 = ask(l, l2, Req::CalculateLayout(layout, screen, config));
    let plain = answer(t1)->Frames_0;
    if s.scroll_enabled {
        let t2 = ask(t1, l2, Req::IsScrollLayout(layout));
        if answer(t2)->Flag_0 && s.viewports.contains(layout) {
            let t3 = ask(t2, l2, Req::ApplyViewport(layout, screen, plain));
            l2 == t3 && frames == answer(t3)->Frames_0
        } else {
            l2 == t2 && frames == plain
        }
    } else {
        l2 == t1 && frames == plain
    }
}

/// Group bars, none of them on top while a floating window has the focus.
pub open spec fn below_floats(groups: Seq<GroupBar>, floating: bool) -> Seq<GroupBar> {
    groups.map_values(|group: GroupBar| GroupBar { is_on_top: group.is_on_top && !floating, ..group })
}

/// The questions where the bars are, seen through the viewport.
pub open spec fn bar_questions(layout: LayoutId, groups: Seq<GroupBar>) -> Seq<Req> {
    groups.map_values(|group: GroupBar| Req::OffsetRect(layout, group.indicator_frame))
}

/// The bars where the answers from `start` on say they are.
pub open spec fn bars_moved(groups: Seq<GroupBar>, answers: Log, start: int) -> Seq<GroupBar> {
    Seq::new(
        groups.len(),
        |i: int| GroupBar { indicator_frame: answers[start + i].rep->Rect_0, ..groups[i] },
    )
}

/// The frames of the windows of `space` and the bars of its groups, seen through
/// the viewport where the layout scrolls.
pub open spec fn frames_and_groups_shown(
    s: State,
    l: Log,
    space: SpaceId,
    screen: Frame,
    config: ConfigId,
    l2: Log,
    frames: Seq<(WindowId, Frame)>,
    groups: Seq<GroupBar>,
) -> bool {
    let layout = s.spaces[space];
    let t1 = ask(l, l2, Req::CalculateLayoutAndGroups(layout, screen, config));
    let plain = answer(t1)->Groups_0;
    let bars = below_floats(answer(t1)->Groups_1, s.is_floating());
    if s.scroll_enabled {
        let t2 = ask(t1, l2, Req::IsScrollLayout(layout));
        if answer(t2)->Flag_0 && s.viewports.contains(layout) {
            let t3 = ask(t2, l2, Req::ApplyViewport(layout, screen, plain));
            &&& l2 == ask_each(t3, l2, bar_questions(layout, bars))
            &&& frames == answer(t3)->Frames_0
            &&& groups == bars_moved(bars, l2, t3.len() as int)
        } else {
            l2 == t2 && frames == plain && groups == bars
        }
    } else {
        l2 == t1 && frames == plain && groups == bars
    }
}

/// The layout has a viewport; where it had none, one is made.
pub open spec fn viewport_open(
    s: State,
    l: Log,
    layout: LayoutId,
    width: Real,
    s2: State,
    l2: Log,
) -> bool {
    &&& s2 == State { viewports: with(s.viewports, layout), ..s }
    &&& l2 == if s.viewports.contains(layout) {
        l
    } else {
        ask(l, l2, Req::OpenViewport(layout, width))
    }
}

/// The first frame that `frames` gives to `wid`.
pub open spec fn frame_of(frames: Seq<(WindowId, Frame)>, wid: WindowId) -> Option<Frame> {
    let wids = frames.map_values(|entry: (WindowId, Frame)| entry.0);
    if wids.contains(wid) {
        Some(frames[wids.index_of_first(wid)->0].1)
    } else {
        None
    }
}

/// Where `column` stands among `columns`; the first place if it does not.
pub open spec fn column_place(columns: Seq<NodeId>, column: NodeId) -> int {
    if columns.contains(column) {
        columns.index_of_first(column)->0
    } else {
        0
    }
}

/// The viewport, whose screen may have changed, scrolls to the selected column.
pub open spec fn scrolled_to(
    s: State,
    l: Log,
    layout: LayoutId,
    screen: Frame,
    config: Config,
    frame: Option<Frame>,
    place: Option<int>,
    s2: State,
    l2: Log,
) -> bool {
    exists|t: Log|
        {
            let t1 = ask(t, l2, Req::SetScreenWidth(layout, screen.size.width));
            &&& #[trigger] viewport_open(s, l, layout, screen.size.width, s2, t)
            &&& l2 == match (frame, place) {
                (Some(frame), Some(place)) => ask(
                    t1,
                    l2,
                    Req::EnsureColumnVisible(
                        layout,
                        place as usize,
                        frame.origin.x,
                        frame.size.width,
                        config.scroll.center_focused_column,
                        config.inner_gap,
                    ),
                ),
                _ => t1,
            }
        }
}

/// The viewport of a scroll layout follows its selection.
pub open spec fn selection_followed(
    s: State,
    l: Log,
    layout: LayoutId,
    screen: Frame,
    config: Config,
    s2: State,
    l2: Log,
) -> bool {
    let t1 = ask(l, l2, Req::CalculateLayout(layout, screen, config.id));
    let t2 = ask(t1, l2, Req::Selection(layout));
    let t3 = ask(t2, l2, Req::WindowAt(answer(t2)->Node_0));
    let t4 = ask(t3, l2, Req::Columns(layout));
    let t5 = ask(t4, l2, Req::ColumnOf(layout, answer(t2)->Node_0));
    let frame = match answer(t3)->MaybeWindow_0 {
        Some(wid) => frame_of(answer(t1)->Frames_0, wid),
        None => None,
    };
    let place = match answer(t5)->MaybeNode_0 {
        Some(column) => Some(column_place(answer(t4)->Nodes_0, column)),
        None => None,
    };
    scrolled_to(s, t5, layout, screen, config, frame, place, s2, l2)
}

/// The viewport of `space`, where its layout scrolls, follows the selection, unless
/// the user is scrolling it.
pub open spec fn viewport_followed(
    s: State,
    l: Log,
    space: SpaceId,
    screen: Frame,
    config: Config,
    s2: State,
    l2: Log,
) -> bool {
    if !s.scroll_enabled {
        s2 == s && l2 == l
    } else {
        let layout = s.spaces[space];
        let t1 = ask(l, l2, Req::IsScrollLayout(layout));
        if !answer(t1)->Flag_0 {
            s2 == s && l2 == t1
        } else if s.viewports.contains(layout) {
            let t2 = ask(t1, l2, Req::IsUserScrolling(layout));
            if answer(t2)->Flag_0 {
                s2 == s && l2 == t2
            } else {
                selection_followed(s, t2, layout, screen, config, s2, l2)
            }
        } else {
            selection_followed(s, t1, layout, screen, config, s2, l2)
        }
    }
}

/// The questions which viewports are in motion.
pub open spec fn motion_questions(viewports: Seq<LayoutId>) -> Seq<Req> {
    viewports.map_values(|layout: LayoutId| Req::IsAnimating(layout))
}

/// Whether some viewport is in motion; never while scroll layouts are off.
pub open spec fn in_motion(s: State, l: Log, l2: Log, moving: bool) -> bool {
    if !s.scroll_enabled {
        l2 == l && !moving
    } else {
        exists|found: Option<int>| #[trigger]
            asked_until(l, motion_questions(s.viewports), true, l2, found) && moving == (
            found is Some)
    }
}

/// The requests that move all viewports on.
pub open spec fn ticks(viewports: Seq<LayoutId>) -> Seq<Req> {
    viewports.map_values(|layout: LayoutId| Req::Tick(layout))
}

/// The first frame that `frames` gives to `wid`.
fn find_frame(frames: &Vec<(WindowId, Frame)>, wid: WindowId) -> (frame: Option<Frame>)
    ensures
        frame == frame_of(frames@, wid),
{
    let ghost wids = frames@.map_values(|entry: (WindowId, Frame)| entry.0);
    let mut i: usize = 0;
    while i < frames.len()
        invariant
            i <= frames@.len(),
            wids == frames@.map_values(|entry: (WindowId, Frame)| entry.0),
            forall|j: int| 0 <= j < i ==> wids[j] != wid,
        decreases frames@.len() - i,
    {
        assert(wids[i as int] == frames@[i as int].0);
        if frames[i].0 == wid {
            proof {
                wids.index_of_first_ensures(wid);
            }
            return Some(frames[i].1);
        }
        i += 1;
    }
    None
}

fn place_of(columns: &Vec<NodeId>, column: NodeId) -> (place: usize)
    ensures
        place == column_place(columns@, column),
{
    match position(columns.as_slice(), column) {
        Some(place) => {
            proof {
                columns@.index_of_first_ensures(column);
                let first = columns@.index_of_first(column)->0;
                if first < place {
                    assert(columns@.take(place as int)[first] == column);
                }
            }
            place
        },
        None => 0,
    }
}

impl LayoutManager {
    /// The frame of each window of `space` on `screen`.
    pub fn calculate_layout<H: LayoutHost>(
        &self,
        link: &mut Link<H>,
        space: SpaceId,
        screen: Frame,
        config: &Config,
    ) -> (frames: Vec<(WindowId, Frame)>)
        requires
            self@.spaces.contains_key(space),
        ensures
            frames_shown(
                self@,
                old(link).log(),
                space,
                screen,
                config.id,
                final(link).log(),
                frames@,
            ),
            grew(old(link).log(), final(link).log()),
    {
        let layout = self.layout(space);
        let frames = link.calculate_layout(layout, screen, config.id);
        if self.scroll_enabled && link.is_scroll_layout(layout) {
            if self.viewports.contains(layout) {
                return link.apply_viewport(layout, screen, &frames);
            }
        }
        frames
    }

    /// The frame of each window of `space` on `screen`, and the bars of its groups.
    pub fn calculate_layout_and_groups<H: LayoutHost>(
        &self,
        link: &mut Link<H>,
        space: SpaceId,
        screen: Frame,
        config: &Config,
    ) -> (shown: (Vec<(WindowId, Frame)>, Vec<GroupBar>))
        requires
            self@.spaces.contains_key(space),
        ensures
            frames_and_groups_shown(
                self@,
                old(link).log(),
                space,
                screen,
                config.id,
                final(link).log(),
                shown.0@,
                shown.1@,
            ),
            grew(old(link).log(), final(link).log()),
    {
        let layout = self.layout(space);
        let (sizes, plain_groups) = link.calculate_layout_and_groups(layout, screen, config.id);
        let floating = self.is_floating();
        let mut groups: Vec<GroupBar> = Vec::new();
        let mut i: usize = 0;
        while i < plain_groups.len()
            invariant
                i <= plain_groups@.len(),
                groups@ == below_floats(plain_groups@, floating).take(i as int),
            decreases plain_groups@.len() - i,
        {
            // Group bars do not cover the floating windows.
            let group = plain_groups[i];
            groups.push(GroupBar { is_on_top: group.is_on_top && !floating, ..group });
            assert(groups@ =~= below_floats(plain_groups@, floating).take(i + 1));
            i += 1;
        }
        assert(groups@ =~= below_floats(plain_groups@, floating));
        if self.scroll_enabled && link.is_scroll_layout(layout) {
            if self.viewports.contains(layout) {
                let transformed = link.apply_viewport(layout, screen, &sizes);
                let moved = self.move_bars(link, layout, &groups);
                return (transformed, moved);
            }
        }
        (sizes, groups)
    }

    /// The bars as seen through the viewport.
    fn move_bars<H: LayoutHost>(&self, link: &mut Link<H>, layout: LayoutId, groups: &Vec<GroupBar>) -> (moved:
        Vec<GroupBar>)
        ensures
            final(link).log() == ask_each(
                old(link).log(),
                final(link).log(),
                bar_questions(layout, groups@),
            ),
            moved@ == bars_moved(groups@, final(link).log(), old(link).log().len() as int),
            grew(old(link).log(), final(link).log()),
    {
        let ghost l = link.log();
        let ghost reqs = bar_questions(layout, groups@);
        let mut moved: Vec<GroupBar> = Vec::new();
        let mut i: usize = 0;
        assert(link.log() =~= ask_each(l, link.log(), reqs.take(0)));
        while i < groups.len()
            invariant
                i <= groups@.len(),
                reqs == bar_questions(layout, groups@),
                link.log() == ask_each(l, link.log(), reqs.take(i as int)),
                moved@ == bars_moved(groups@, link.log(), l.len() as int).take(i as int),
                grew(l, link.log()),
            decreases groups@.len() - i,
        {
            let group = groups[i];
            let indicator_frame = link.offset_rect(layout, group.indicator_frame);
            moved.push(GroupBar { indicator_frame, ..group });
            assert(link.log() =~= ask_each(l, link.log(), reqs.take(i + 1)));
            assert(moved@ =~= bars_moved(groups@, link.log(), l.len() as int).take(i + 1));
            i += 1;
        }
        assert(reqs.take(i as int) =~= reqs);
        assert(moved@ =~= bars_moved(groups@, link.log(), l.len() as int));
        moved
    }

    /// The layout under whose name the host keeps its viewport, if it has one.
    pub fn viewport(&self, layout: LayoutId) -> (viewport: Option<LayoutId>)
        ensures
            viewport == if self@.viewports.contains(layout) {
                Some(layout)
            } else {
                None
            },
    {
        if self.viewports.contains(layout) {
            Some(layout)
        } else {
            None
        }
    }

    /// Makes sure that the layout has a viewport.
    pub fn viewport_mut<H: LayoutHost>(
        &mut self,
        link: &mut Link<H>,
        layout: LayoutId,
        screen_width: Real,
    ) -> (viewport: LayoutId)
        ensures
            viewport_open(
                old(self)@,
                old(link).log(),
                layout,
                screen_width,
                final(self)@,
                final(link).log(),
            ),
            viewport == layout,
            grew(old(link).log(), final(link).log()),
    {
        if !self.viewports.contains(layout) {
            link.open_viewport(layout, screen_width);
        }
        self.viewports.insert(layout);
        layout
    }

    fn follow_selection<H: LayoutHost>(
        &mut self,
        link: &mut Link<H>,
        layout: LayoutId,
        screen: Frame,
        config: &Config,
    )
        ensures
            selection_followed(
                old(self)@,
                old(link).log(),
                layout,
                screen,
                *config,
                final(self)@,
                final(link).log(),
            ),
            grew(old(link).log(), final(link).log()),
    {
        let ghost s = self@;
        let frames = link.calculate_layout(layout, screen, config.id);
        let selection = link.selection(layout);
        let wid = link.window_at(selection);
        let columns = link.columns(layout);
        let column = link.column_of(layout, selection);
        let frame = match wid {
            Some(wid) => find_frame(&frames, wid),
            None => None,
        };
        let place = match column {
            Some(column) => Some(place_of(&columns, column)),
            None => None,
        };
        let ghost l = link.log();
        let _ = self.viewport_mut(link, layout, screen.size.width);
        let ghost t = link.log();
        link.set_screen_width(layout, screen.size.width);
        if let Some(frame) = frame {
            if let Some(place) = place {
                link.ensure_column_visible(
                    layout,
                    place,
                    frame.origin.x,
                    frame.size.width,
                    config.scroll.center_focused_column,
                    config.inner_gap,
                );
            }
        }
        proof {
            let at: Option<int> = match place {
                Some(place) => Some(place as int),
                None => None,
            };
            assert(viewport_open(s, l, layout, screen.size.width, self@, t));
            assert(scrolled_to(s, l, layout, screen, *config, frame, at, self@, link.log()));
        }
    }

    /// Lets the viewport of `space` show the selected column.
    pub fn update_viewport_for_focus<H: LayoutHost>(
        &mut self,
        link: &mut Link<H>,
        space: SpaceId,
        screen: Frame,
        config: &Config,
    )
        requires
            old(self)@.scroll_enabled ==> old(self)@.spaces.contains_key(space),
        ensures
            viewport_followed(
                old(self)@,
                old(link).log(),
                space,
                screen,
                *config,
                final(self)@,
                final(link).log(),
            ),
            grew(old(link).log(), final(link).log()),
    {
        if !self.scroll_enabled {
            return;
        }
        let layout = self.layout(space);
        if !link.is_scroll_layout(layout) {
            return;
        }
        if self.viewports.contains(layout) && link.is_user_scrolling(layout) {
            return;
        }
        self.follow_selection(link, layout, screen, config);
    }

    /// Whether some viewport is in motion.
    pub fn has_active_scroll_animation<H: LayoutHost>(&self, link: &mut Link<H>) -> (moving: bool)
        ensures
            in_motion(self@, old(link).log(), final(link).log(), moving),
            grew(old(link).log(), final(link).log()),
    {
        if !self.scroll_enabled {
            return false;
        }
        let viewports = self.viewports.items();
        let ghost l = link.log();
        let ghost reqs = motion_questions(viewports@);
        let mut i: usize = 0;
        proof {
            lemma_asked_none(l, reqs, true);
        }
        while i < viewports.len()
            invariant
                l == old(link).log(),
                self@.scroll_enabled,
                viewports@ == self@.viewports,
                reqs == motion_questions(viewports@),
                i <= viewports@.len(),
                asked_in_vain(l, reqs, true, i as int, link.log()),
                grew(l, link.log()),
            decreases viewports@.len() - i,
        {
            let ghost t = link.log();
            let moving = link.is_animating(viewports[i]);
            proof {
                assert(reqs[i as int] == Req::IsAnimating(viewports@[i as int]));
                lemma_asked_on(l, reqs, true, i as int, t, Rep::Flag(moving));
            }
            if moving {
                assert(asked_until(l, reqs, true, link.log(), Some(i as int)));
                return true;
            }
            i += 1;
        }
        proof {
            lemma_asked_all(l, reqs, true, link.log());
        }
        false
    }

    /// Moves all viewports on.
    pub fn tick_viewports<H: LayoutHost>(&self, link: &mut Link<H>)
        ensures
            final(link).log() == ask_each(
                old(link).log(),
                final(link).log(),
                ticks(self@.viewports),
            ),
            grew(old(link).log(), final(link).log()),
    {
        let viewports = self.viewports.items();
        let ghost l = link.log();
        let ghost reqs = ticks(viewports@);
        let mut i: usize = 0;
        assert(link.log() =~= ask_each(l, link.log(), reqs.take(0)));
        while i < viewports.len()
            invariant
                reqs == ticks(viewports@),
                i <= viewports@.len(),
                link.log() == ask_each(l, link.log(), reqs.take(i as int)),
                grew(l, link.log()),
            decreases viewports@.len() - i,
        {
            link.tick(viewports[i]);
            assert(link.log() =~= ask_each(l, link.log(), reqs.take(i + 1)));
            i += 1;
        }
        assert(reqs.take(i as int) =~= reqs);
    }
}

} // verus!
