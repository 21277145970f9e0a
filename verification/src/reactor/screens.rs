//! Which screen a window belongs to.

use vstd::prelude::*;

use crate::ids::{Frame, SpaceId, WindowId};
use crate::link::{ask, ask_each, grew, Link, Log, ReactorHost, Req};
use crate::reactor::state::{Known, Reactor, Screen};

verus! {

/// The questions how much of `frame` lies on each screen.
pub open spec fn area_questions(screens: Seq<Screen>, frame: Frame) -> Seq<Req> {
    screens.map_values(|screen: Screen| Req::OverlapArea(screen.frame, frame))
}

/// The area on screen `i`, by the answers from `start` on.
pub open spec fn area_on(answers: Log, start: int, i: int) -> i64 {
    answers[start + i].rep->Area_0
}

/// No screen has more of the frame than screen `idx` does, and no later one has as much.
pub open spec fn has_most(answers: Log, start: int, n: int, idx: int) -> bool {
    &&& 0 <= idx < n
    &&& forall|i: int|
        0 <= i < n && i != idx ==> #[trigger] area_on(answers, start, i) < area_on(
            answers,
            start,
            idx,
        ) || i < idx && area_on(answers, start, i) == area_on(answers, start, idx)
}

/// The screen that has most of `frame`, if there is any screen. Of several, it is the last.
pub open spec fn best_screen(
    l: Log,
    screens: Seq<Screen>,
    frame: Frame,
    l2: Log,
    best: Option<usize>,
) -> bool {
    &&& l2 == ask_each(l, l2, area_questions(screens, frame))
    &&& match best {
        Some(idx) => has_most(l2, l.len() as int, screens.len() as int, idx as int),
        None => screens.len() == 0,
    }
}

/// The space of the screen that has most of `frame`.
pub open spec fn best_space(
    l: Log,
    screens: Seq<Screen>,
    frame: Frame,
    l2: Log,
    space: Option<SpaceId>,
) -> bool {
    exists|best: Option<usize>| #[trigger]
        best_screen(l, screens, frame, l2, best) && space == match best {
            Some(idx) => screens[idx as int].space,
            None => None,
        }
}

/// The space that a window is in, if the window is known.
pub open spec fn window_space(r: Known, l: Log, wid: Option<WindowId>, l2: Log, space: Option<SpaceId>) -> bool {
    match wid {
        Some(wid) if r.windows.contains_key(wid) => best_space(
            l,
            r.screens,
            r.windows[wid].frame_monotonic,
            l2,
            space,
        ),
        _ => l2 == l && space is None,
    }
}

/// The screen with number `idx` is the active one. The status display hears of it
/// where that is news.
pub open spec fn activated(r: Known, l: Log, best: Option<usize>, r2: Known, l2: Log) -> bool {
    match best {
        None => r2 == r && l2 == l,
        Some(idx) => {
            &&& r2 == Known { active: Some(idx as u16), ..r }
            &&& l2 == if r.active == Some(idx as u16) {
                l
            } else {
                ask(l, l2, Req::FocusedScreenChanged)
            }
        },
    }
}

/// The screen of a frame becomes the active one.
pub open spec fn screen_activated(r: Known, l: Log, frame: Frame, r2: Known, l2: Log) -> bool {
    exists|t: Log, best: Option<usize>| #[trigger]
        best_screen(l, r.screens, frame, t, best) && activated(r, t, best, r2, l2)
}

/// The screen of the main window becomes the active one.
pub open spec fn active_updated(r: Known, l: Log, r2: Known, l2: Log) -> bool {
    match r.main {
        Some(wid) if r.windows.contains_key(wid) => screen_activated(
            r,
            l,
            r.windows[wid].frame_monotonic,
            r2,
            l2,
        ),
        _ => r2 == r && l2 == l,
    }
}

impl Known {
    /// The active screen; the first as long as none was active.
    pub open spec fn active_screen(self) -> Option<Screen> {
        let idx: int = match self.active {
            Some(idx) => idx as int,
            None => 0,
        };
        if idx < self.screens.len() {
            Some(self.screens[idx])
        } else {
            None
        }
    }
}

impl Reactor {
    /// The screen that has most of `frame`.
    pub fn best_screen_idx_for_window<H: ReactorHost>(&self, link: &mut Link<H>, frame: &Frame) -> (best:
        Option<usize>)
        ensures
            best_screen(old(link).log(), self@.screens, *frame, final(link).log(), best),
            grew(old(link).log(), final(link).log()),
    {
        let ghost l = link.log();
        let ghost reqs = area_questions(self.screens@, *frame);
        let ghost start = l.len() as int;
        let mut best: Option<usize> = None;
        let mut most: i64 = 0;
        let mut i: usize = 0;
        assert(link.log() =~= ask_each(l, link.log(), reqs.take(0)));
        while i < self.screens.len()
            invariant
                i <= self.screens@.len(),
                start == l.len(),
                reqs == area_questions(self.screens@, *frame),
                link.log() == ask_each(l, link.log(), reqs.take(i as int)),
                grew(l, link.log()),
                match best {
                    Some(idx) => has_most(link.log(), start, i as int, idx as int) && most == area_on(
                        link.log(),
                        start,
                        idx as int,
                    ),
                    None => i == 0,
                },
            decreases self.screens@.len() - i,
        {
            let ghost before = link.log();
            let area: i64 = link.overlap_area(self.screens[i].frame, *frame);
            proof {
                assert(link.log() =~= ask_each(l, link.log(), reqs.take(i + 1)));
                assert forall|j: int| 0 <= j < i implies #[trigger] area_on(link.log(), start, j)
                    == area_on(before, start, j) by {}
                assert(area_on(link.log(), start, i as int) == area);
            }
            if best.is_none() || area >= most {
                best = Some(i);
                most = area;
            }
            i += 1;
        }
        assert(reqs.take(i as int) =~= reqs);
        best
    }

    /// The space of the screen that has most of `frame`.
    pub fn best_space_for_window<H: ReactorHost>(&self, link: &mut Link<H>, frame: &Frame) -> (space: Option<
        SpaceId,
    >)
        ensures
            best_space(old(link).log(), self@.screens, *frame, final(link).log(), space),
            grew(old(link).log(), final(link).log()),
    {
        let best = self.best_screen_idx_for_window(link, frame);
        let space = match best {
            Some(idx) => self.screens[idx].space,
            None => None,
        };
        assert(best_screen(old(link).log(), self@.screens, *frame, link.log(), best));
        space
    }

    /// Makes the screen of the main window the active one.
    pub fn update_active_screen<H: ReactorHost>(&mut self, link: &mut Link<H>)
        ensures
            active_updated(old(self)@, old(link).log(), final(self)@, final(link).log()),
            grew(old(link).log(), final(link).log()),
    {
        let frame = match self.main_window {
            Some(wid) => match self.windows.get(wid) {
                Some(window) => window.frame_monotonic,
                None => {
                    return;
                },
            },
            None => {
                return;
            },
        };
        let ghost l = link.log();
        let best = self.best_screen_idx_for_window(link, &frame);
        let ghost t = link.log();
        if let Some(idx) = best {
            let screen: u16 = idx as u16;
            let changed = self.active_screen_idx != Some(screen);
            self.active_screen_idx = Some(screen);
            if changed {
                link.focused_screen_changed();
            }
        }
        assert(activated(old(self)@, t, best, self@, link.log()));
        assert(screen_activated(old(self)@, l, frame, self@, link.log()));
    }

    /// The active screen; the first as long as none was active.
    pub fn active_screen(&self) -> (screen: Option<Screen>)
        ensures
            screen == self@.active_screen(),
    {
        let idx: usize = match self.active_screen_idx {
            Some(idx) => idx as usize,
            None => 0,
        };
        if idx < self.screens.len() {
            Some(self.screens[idx])
        } else {
            None
        }
    }

    /// Whether the layout manager hears of a window. It hears of all of them and
    /// decides itself what to keep.
    pub fn window_is_tracked(&self, _id: WindowId) -> (heard: bool)
        ensures
            heard,
    {
        true
    }

    /// The main window of the active application, if any.
    pub fn main_window(&self) -> (wid: Option<WindowId>)
        ensures
            wid == self@.main,
    {
        self.main_window
    }

    /// The space that the main window is in.
    pub fn main_window_space<H: ReactorHost>(&self, link: &mut Link<H>) -> (space: Option<SpaceId>)
        ensures
            window_space(self@, old(link).log(), self@.main, final(link).log(), space),
            grew(old(link).log(), final(link).log()),
    {
        match self.main_window {
            Some(wid) => match self.windows.get(wid) {
                Some(window) => {
                    let frame = window.frame_monotonic;
                    self.best_space_for_window(link, &frame)
                },
                None => None,
            },
            None => None,
        }
    }
}

} // verus!
