//! Windows that get another frame.

use vstd::prelude::*;

use crate::ids::{Frame, SpaceId, WindowId};
use crate::layout::events::{screens_exposed, LayoutEvent, LayoutEventView};
use crate::link::{answer, ask, grew, Link, Log, ReactorHost, Req};
use crate::messages::TransactionId;
use crate::reactor::discovery::lemma_told_keeps;
use crate::reactor::event::{MouseState, Requested};
use crate::reactor::outcome::{lemma_best_space_exposed, plain, Outcome};
use crate::reactor::raising::told;
use crate::reactor::screens::best_space;
use crate::reactor::state::{spaces_exposed, Known, Reactor, Screen, WindowState};

verus! {

/// The screens that have a space, each with it.
pub open spec fn managed_screens(screens: Seq<Screen>) -> Seq<(SpaceId, Frame)>
    decreases screens.len(),
{
    if screens.len() == 0 {
        Seq::empty()
    } else {
        let front = managed_screens(screens.drop_last());
        match screens.last().space {
            Some(space) => front.push((space, screens.last().frame)),
            None => front,
        }
    }
}

proof fn lemma_managed_exposed(r: Known, screens: Seq<Screen>)
    requires
        spaces_exposed(r.layout, screens),
    ensures
        screens_exposed(r.layout, managed_screens(screens)),
    decreases screens.len(),
{
    if screens.len() > 0 {
        let front = screens.drop_last();
        assert forall|i: int| 0 <= i < front.len() && (#[trigger] front[i]).space is Some implies r.layout.spaces.contains_key(
        front[i].space->0) by {
            assert(screens[i].space is Some);
        }
        lemma_managed_exposed(r, front);
        assert(screens[screens.len() - 1] == screens.last());
    }
}

/// The frame that a window is known to have.
pub open spec fn frame_known(r: Known, wid: WindowId, frame: Frame) -> Known {
    Known {
        windows: r.windows.insert(
            wid,
            WindowState { frame_monotonic: frame, ..r.windows[wid] },
        ),
        ..r
    }
}

/// A window that went to another space is taken to the layout there.
pub open spec fn space_followed(
    r: Known,
    l: Log,
    wid: WindowId,
    from: Option<SpaceId>,
    to: Option<SpaceId>,
    r2: Known,
    l2: Log,
) -> bool {
    match (from, to) {
        (Some(removed), Some(added)) if removed != added => told(
            r,
            l,
            LayoutEventView::WindowSpaceChanged { wid, added, removed },
            r2,
            l2,
        ),
        _ => r2 == r && l2 == l,
    }
}

/// A window that got another size takes the layout along. One that was only moved
/// may be dragged.
pub open spec fn size_followed(
    r: Known,
    l: Log,
    wid: WindowId,
    old_frame: Frame,
    new_frame: Frame,
    mouse: Option<MouseState>,
    r2: Known,
    l2: Log,
    outcome: Outcome,
) -> bool {
    let t = ask(l, l2, Req::SameSize(old_frame.size, new_frame.size));
    if answer(t)->Flag_0 {
        &&& r2 == Known { in_drag: r.in_drag || mouse == Some(MouseState::Down), ..r }
        &&& l2 == t
        &&& outcome == plain()
    } else {
        &&& told(
            r,
            t,
            LayoutEventView::WindowResized {
                wid,
                old_frame,
                new_frame,
                screens: managed_screens(r.screens),
            },
            r2,
            l2,
        )
        &&& outcome == Outcome::Settle { new: None, is_resize: true }
    }
}

/// After a window went from one space to another, or stayed: its size is looked at.
pub open spec fn both_followed(
    r: Known,
    l: Log,
    wid: WindowId,
    old_frame: Frame,
    new_frame: Frame,
    from: Option<SpaceId>,
    to: Option<SpaceId>,
    mouse: Option<MouseState>,
    r2: Known,
    l2: Log,
    outcome: Outcome,
) -> bool {
    exists|m: Known, t: Log| #[trigger]
        space_followed(r, l, wid, from, to, m, t) && size_followed(
            m,
            t,
            wid,
            old_frame,
            new_frame,
            mouse,
            r2,
            l2,
            outcome,
        )
}

/// The space of the new frame is found.
pub open spec fn frame_followed_from(
    r: Known,
    l: Log,
    wid: WindowId,
    old_frame: Frame,
    new_frame: Frame,
    from: Option<SpaceId>,
    mouse: Option<MouseState>,
    r2: Known,
    l2: Log,
    outcome: Outcome,
) -> bool {
    exists|t: Log, to: Option<SpaceId>| #[trigger]
        best_space(l, r.screens, new_frame, t, to) && both_followed(
            r,
            t,
            wid,
            old_frame,
            new_frame,
            from,
            to,
            mouse,
            r2,
            l2,
            outcome,
        )
}

/// The spaces of the old and of the new frame are found.
pub open spec fn frame_followed(
    r: Known,
    l: Log,
    wid: WindowId,
    old_frame: Frame,
    new_frame: Frame,
    mouse: Option<MouseState>,
    r2: Known,
    l2: Log,
    outcome: Outcome,
) -> bool {
    exists|t: Log, from: Option<SpaceId>| #[trigger]
        best_space(l, r.screens, old_frame, t, from) && frame_followed_from(
            r,
            t,
            wid,
            old_frame,
            new_frame,
            from,
            mouse,
            r2,
            l2,
            outcome,
        )
}

/// A window has another frame.
///
/// Reads from before the last write are ignored, and so are changes that the
/// reactor asked for.
pub open spec fn frame_changed(
    r: Known,
    l: Log,
    wid: WindowId,
    new_frame: Frame,
    last_seen: TransactionId,
    requested: Requested,
    mouse: Option<MouseState>,
    r2: Known,
    l2: Log,
    outcome: Outcome,
) -> bool {
    let window = r.windows[wid];
    let old_frame = window.frame_monotonic;
    if last_seen != window.last_sent_txid || requested.0 {
        r2 == r && l2 == l && outcome == Outcome::Done
    } else {
        let m = frame_known(r, wid, new_frame);
        let t = ask(l, l2, Req::SameFrame(old_frame, new_frame));
        if answer(t)->Flag_0 {
            r2 == m && l2 == t && outcome == Outcome::Done
        } else {
            frame_followed(m, t, wid, old_frame, new_frame, mouse, r2, l2, outcome)
        }
    }
}

impl Reactor {
    /// The screens that have a space, each with it.
    fn list_managed_screens(&self) -> (managed: Vec<(SpaceId, Frame)>)
        ensures
            managed@ == managed_screens(self@.screens),
    {
        let mut managed: Vec<(SpaceId, Frame)> = Vec::new();
        let mut i: usize = 0;
        assert(self.screens@.take(0) == Seq::<Screen>::empty());
        while i < self.screens.len()
            invariant
                i <= self.screens@.len(),
                managed@ == managed_screens(self.screens@.take(i as int)),
            decreases self.screens@.len() - i,
        {
            assert(self.screens@.take(i + 1).drop_last() == self.screens@.take(i as int));
            let screen = self.screens[i];
            if let Some(space) = screen.space {
                managed.push((space, screen.frame));
            }
            i += 1;
        }
        assert(self.screens@.take(i as int) == self.screens@);
        managed
    }

    fn follow_space<H: ReactorHost>(
        &mut self,
        link: &mut Link<H>,
        wid: WindowId,
        from: Option<SpaceId>,
        to: Option<SpaceId>,
    )
        requires
            old(self)@.coherent(),
            from is Some ==> old(self)@.layout.spaces.contains_key(from->0),
            to is Some ==> old(self)@.layout.spaces.contains_key(to->0),
        ensures
            space_followed(
                old(self)@,
                old(link).log(),
                wid,
                from,
                to,
                final(self)@,
                final(link).log(),
            ),
            final(self)@.coherent(),
            grew(old(link).log(), final(link).log()),
    {
        if let Some(removed) = from {
            if let Some(added) = to {
                if removed != added {
                    let ghost r = self@;
                    let ghost l = link.log();
                    let event = LayoutEvent::WindowSpaceChanged { wid, added, removed };
                    let ghost heard = event@;
                    self.send_layout_event(link, event);
                    proof {
                        lemma_told_keeps(r, l, heard, Seq::empty(), false, self@, link.log());
                    }
                }
            }
        }
    }

    fn follow_size<H: ReactorHost>(
        &mut self,
        link: &mut Link<H>,
        wid: WindowId,
        old_frame: Frame,
        new_frame: Frame,
        mouse: Option<MouseState>,
    ) -> (outcome: Outcome)
        requires
            old(self)@.coherent(),
        ensures
            size_followed(
                old(self)@,
                old(link).log(),
                wid,
                old_frame,
                new_frame,
                mouse,
                final(self)@,
                final(link).log(),
                outcome,
            ),
            final(self)@.coherent(),
            grew(old(link).log(), final(link).log()),
    {
        if link.same_size(old_frame.size, new_frame.size) {
            if mouse == Some(MouseState::Down) {
                self.in_drag = true;
            }
            return Outcome::Settle { new: None, is_resize: false };
        }
        let ghost r = self@;
        let ghost l = link.log();
        let screens = self.list_managed_screens();
        proof {
            lemma_managed_exposed(r, r.screens);
        }
        let event = LayoutEvent::WindowResized { wid, old_frame, new_frame, screens };
        let ghost heard = event@;
        // This is ignored if the window is not in the layout.
        self.send_layout_event(link, event);
        proof {
            lemma_told_keeps(r, l, heard, Seq::empty(), false, self@, link.log());
        }
        Outcome::Settle { new: None, is_resize: true }
    }

    fn follow_frame<H: ReactorHost>(
        &mut self,
        link: &mut Link<H>,
        wid: WindowId,
        old_frame: Frame,
        new_frame: Frame,
        mouse: Option<MouseState>,
    ) -> (outcome: Outcome)
        requires
            old(self)@.coherent(),
        ensures
            frame_followed(
                old(self)@,
                old(link).log(),
                wid,
                old_frame,
                new_frame,
                mouse,
                final(self)@,
                final(link).log(),
                outcome,
            ),
            final(self)@.coherent(),
            grew(old(link).log(), final(link).log()),
    {
        let ghost r = self@;
        let ghost l = link.log();
        let from = self.best_space_for_window(link, &old_frame);
        let ghost t = link.log();
        let to = self.best_space_for_window(link, &new_frame);
        let ghost t1 = link.log();
        proof {
            lemma_best_space_exposed(r, l, old_frame, t, from);
            lemma_best_space_exposed(r, t, new_frame, t1, to);
        }
        self.follow_space(link, wid, from, to);
        let ghost m = self@;
        let ghost t2 = link.log();
        let outcome = self.follow_size(link, wid, old_frame, new_frame, mouse);
        assert(space_followed(r, t1, wid, from, to, m, t2));
        assert(both_followed(
            r,
            t1,
            wid,
            old_frame,
            new_frame,
            from,
            to,
            mouse,
            self@,
            link.log(),
            outcome,
        ));
        assert(frame_followed_from(
            r,
            t,
            wid,
            old_frame,
            new_frame,
            from,
            mouse,
            self@,
            link.log(),
            outcome,
        ));
        outcome
    }

    /// Takes over the frame that a window was seen to have.
    pub fn on_frame_changed<H: ReactorHost>(
        &mut self,
        link: &mut Link<H>,
        wid: WindowId,
        new_frame: Frame,
        last_seen: TransactionId,
        requested: Requested,
        mouse: Option<MouseState>,
    ) -> (outcome: Outcome)
        requires
            old(self)@.coherent(),
            old(self)@.windows.contains_key(wid),
        ensures
            frame_changed(
                old(self)@,
                old(link).log(),
                wid,
                new_frame,
                last_seen,
                requested,
                mouse,
                final(self)@,
                final(link).log(),
                outcome,
            ),
            final(self)@.coherent(),
            grew(old(link).log(), final(link).log()),
    {
        let window = self.windows.get(wid).unwrap();
        let old_frame = window.frame_monotonic;
        if last_seen != window.last_sent_txid {
            // Otherwise the layout would be changed by what it has overtaken.
            return Outcome::Done;
        }
        if requested.0 {
            return Outcome::Done;
        }
        let ghost before = self.windows@;
        if let Some(window) = self.windows.remove(wid) {
            let mut window = window;
            window.frame_monotonic = new_frame;
            self.windows.insert(wid, window);
            assert(self.windows@ =~= before.insert(wid, window));
        }
        if link.same_frame(old_frame, new_frame) {
            return Outcome::Done;
        }
        self.follow_frame(link, wid, old_frame, new_frame, mouse)
    }
}

} // verus!
