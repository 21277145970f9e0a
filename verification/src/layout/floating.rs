//! Windows that float above the layout.

use vstd::prelude::*;

use crate::collections::{lemma_filter_each_once, lemma_filter_step, with, without, VecSet};
use crate::ids::{SpaceId, WindowId};
use crate::layout::state::{ActiveFloat, LayoutManager, State};
use crate::link::{answer, ask, grew, LayoutHost, Link, Log, Req};

verus! {

/// `wid` floats. Where a space is given, it is on screen there.
pub open spec fn float_added(s: State, wid: WindowId, space: Option<SpaceId>) -> State {
    State {
        floating: with(s.floating, wid),
        active_floating: match space {
            Some(space) => with(s.active_floating, ActiveFloat { space, pid: wid.pid, wid }),
            None => s.active_floating,
        },
        ..s
    }
}

/// All of `wids` float and are on screen in `space`.
pub open spec fn floats_added(s: State, wids: Seq<WindowId>, space: SpaceId) -> State
    decreases wids.len(),
{
    if wids.len() == 0 {
        s
    } else {
        float_added(floats_added(s, wids.drop_last(), space), wids.last(), Some(space))
    }
}

/// `wid` floats no longer. Where a space is given, it is put back into its layout,
/// behind the selection, and selected.
pub open spec fn float_removed(
    s: State,
    l: Log,
    wid: WindowId,
    space: Option<SpaceId>,
    s2: State,
    l2: Log,
) -> bool {
    match space {
        Some(space) => {
            let layout = s.spaces[space];
            let t1 = ask(l, l2, Req::Selection(layout));
            let t2 = ask(t1, l2, Req::AddWindowAfter(layout, answer(t1)->Node_0, wid));
            &&& l2 == ask(t2, l2, Req::Select(answer(t2)->Node_0))
            &&& s2 == State {
                floating: without(s.floating, wid),
                active_floating: without(
                    s.active_floating,
                    ActiveFloat { space, pid: wid.pid, wid },
                ),
                ..s
            }
        },
        None => l2 == l && s2 == State { floating: without(s.floating, wid), ..s },
    }
}

/// The floating windows on screen in `space`.
pub open spec fn floats_in(active: Seq<ActiveFloat>, space: SpaceId) -> Seq<WindowId> {
    active.filter(|f: ActiveFloat| f.space == space).map_values(|f: ActiveFloat| f.wid)
}

/// Whether a floating window is noted for another space or another application.
pub open spec fn noted_elsewhere(space: SpaceId, pid: i32) -> spec_fn(ActiveFloat) -> bool {
    |f: ActiveFloat| f.space != space || f.pid != pid
}

/// The windows of other applications.
pub open spec fn of_other_apps(wids: Seq<WindowId>, pid: i32) -> Seq<WindowId> {
    wids.filter(|wid: WindowId| wid.pid != pid)
}

impl LayoutManager {
    pub(crate) fn add_floating_window(&mut self, wid: WindowId, space: Option<SpaceId>)
        ensures
            final(self)@ == float_added(old(self)@, wid, space),
    {
        if let Some(space) = space {
            self.active_floating_windows.insert(ActiveFloat { space, pid: wid.pid, wid });
        }
        self.floating_windows.insert(wid);
    }

    pub(crate) fn remove_floating_window<H: LayoutHost>(
        &mut self,
        link: &mut Link<H>,
        wid: WindowId,
        space: Option<SpaceId>,
    )
        requires
            space is Some ==> old(self)@.spaces.contains_key(space->0),
        ensures
            float_removed(old(self)@, old(link).log(), wid, space, final(self)@, final(link).log()),
            grew(old(link).log(), final(link).log()),
    {
        if let Some(space) = space {
            let layout = self.layout(space);
            let selection = link.selection(layout);
            let node = link.add_window_after(layout, selection, wid);
            link.select(node);
            self.active_floating_windows.remove(ActiveFloat { space, pid: wid.pid, wid });
        }
        self.floating_windows.remove(wid);
    }

    /// Forgets the floating windows that were on screen for an application.
    pub(crate) fn clear_active_floats(&mut self, space: SpaceId, pid: i32)
        ensures
            final(self)@ == (State {
                active_floating: old(self)@.active_floating.filter(noted_elsewhere(space, pid)),
                ..old(self)@
            }),
    {
        let mut kept: Vec<ActiveFloat> = Vec::new();
        let items = self.active_floating_windows.items();
        let ghost keep = noted_elsewhere(space, pid);
        let mut i: usize = 0;
        proof {
            reveal(Seq::filter);
            assert(items@.take(0).filter(keep) == Seq::<ActiveFloat>::empty());
        }
        while i < items.len()
            invariant
                i <= items@.len(),
                keep == noted_elsewhere(space, pid),
                kept@ == items@.take(i as int).filter(keep),
            decreases items@.len() - i,
        {
            proof {
                lemma_filter_step(items@, i as int, keep);
            }
            let item = items[i];
            if item.space != space || item.pid != pid {
                kept.push(item);
            }
            i += 1;
        }
        proof {
            assert(items@.take(i as int) == items@);
            lemma_filter_each_once(items@, keep);
        }
        self.active_floating_windows = VecSet::from_items(kept);
    }

    /// Lets no window of an application float any longer.
    pub(crate) fn remove_floats_of_app(&mut self, pid: i32)
        ensures
            final(self)@ == (State {
                floating: of_other_apps(old(self)@.floating, pid),
                ..old(self)@
            }),
    {
        let mut kept: Vec<WindowId> = Vec::new();
        let items = self.floating_windows.items();
        let ghost keep = |wid: WindowId| wid.pid != pid;
        let mut i: usize = 0;
        proof {
            reveal(Seq::filter);
            assert(items@.take(0).filter(keep) == Seq::<WindowId>::empty());
        }
        while i < items.len()
            invariant
                i <= items@.len(),
                keep == (|wid: WindowId| wid.pid != pid),
                kept@ == items@.take(i as int).filter(keep),
            decreases items@.len() - i,
        {
            proof {
                lemma_filter_step(items@, i as int, keep);
            }
            if items[i].pid != pid {
                kept.push(items[i]);
            }
            i += 1;
        }
        proof {
            assert(items@.take(i as int) == items@);
            lemma_filter_each_once(items@, keep);
        }
        self.floating_windows = VecSet::from_items(kept);
    }

    /// The floating windows on screen in `space`.
    pub(crate) fn active_floats(&self, space: SpaceId) -> (wids: Vec<WindowId>)
        ensures
            wids@ == floats_in(self@.active_floating, space),
    {
        let mut wids: Vec<WindowId> = Vec::new();
        let items = self.active_floating_windows.items();
        let ghost keep = |f: ActiveFloat| f.space == space;
        let mut i: usize = 0;
        proof {
            reveal(Seq::filter);
            assert(wids@ =~= floats_in(items@.take(0), space));
        }
        while i < items.len()
            invariant
                i <= items@.len(),
                keep == (|f: ActiveFloat| f.space == space),
                wids@ == floats_in(items@.take(i as int), space),
            decreases items@.len() - i,
        {
            proof {
                lemma_filter_step(items@, i as int, keep);
            }
            if items[i].space == space {
                wids.push(items[i].wid);
            }
            assert(wids@ =~= floats_in(items@.take(i + 1), space));
            i += 1;
        }
        assert(items@.take(i as int) == items@);
        wids
    }
}

} // verus!
