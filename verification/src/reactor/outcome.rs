//! What is left to do after an event.

use vstd::prelude::*;

use crate::ids::{Frame, SpaceId, WindowId};
use crate::link::Log;
use crate::reactor::screens::{best_screen, best_space};
use crate::reactor::state::Known;

verus! {

/// What is left to do after an event.
#[derive(Clone, Copy, Debug, PartialEq, Eq, Structural)]
pub enum Outcome {
    /// Nothing.
    Done,
    /// The focus and the layout are to be brought up to date. `new` is a window that
    /// has just come up; `is_resize` says that the user is resizing a window.
    Settle { new: Option<WindowId>, is_resize: bool },
}

/// The focus and the layout are to be brought up to date, with nothing special.
pub open spec fn plain() -> Outcome {
    Outcome::Settle { new: None, is_resize: false }
}

/// The space that a window is in was exposed to the layout manager.
pub proof fn lemma_best_space_exposed(r: Known, l: Log, frame: Frame, l2: Log, space: Option<SpaceId>)
    requires
        r.coherent(),
        best_space(l, r.screens, frame, l2, space),
    ensures
        space is Some ==> r.layout.spaces.contains_key(space->0),
{
    let best = choose|best: Option<usize>| #[trigger]
        best_screen(l, r.screens, frame, l2, best) && space == match best {
            Some(idx) => r.screens[idx as int].space,
            None => None,
        };
    if let Some(idx) = best {
        assert(r.screens[idx as int].space == space);
    }
}

} // verus!
