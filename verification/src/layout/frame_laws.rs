//! What holds of the frames and the group bars of a space.

use vstd::prelude::*;

use crate::ids::{ConfigId, Frame, GroupBar, SpaceId, WindowId};
use crate::layout::state::State;
use crate::layout::viewport::{frames_and_groups_shown, frames_shown};
use crate::link::{answered_by, Log, Rep, Req};

verus! {

/// The frames of a space are the same with the group bars and without, and no bar is
/// on top while a floating window has the focus. `reply` is how the host answers at
/// that time; the tree gives the same frames either way.
pub proof fn law_frames_do_not_depend_on_bars(
    s: State,
    space: SpaceId,
    screen: Frame,
    config: ConfigId,
    l: Log,
    l2: Log,
    frames: Seq<(WindowId, Frame)>,
    m: Log,
    m2: Log,
    frames_and_bars: (Seq<(WindowId, Frame)>, Seq<GroupBar>),
    reply: spec_fn(Req) -> Rep,
)
    requires
        frames_shown(s, l, space, screen, config, l2, frames),
        frames_and_groups_shown(
            s,
            m,
            space,
            screen,
            config,
            m2,
            frames_and_bars.0,
            frames_and_bars.1,
        ),
        answered_by(reply, l2, l.len() as int),
        answered_by(reply, m2, m.len() as int),
        reply(Req::CalculateLayoutAndGroups(s.spaces[space], screen, config))->Groups_0 == reply(
            Req::CalculateLayout(s.spaces[space], screen, config),
        )->Frames_0,
    ensures
        frames_and_bars.0 == frames,
        s.is_floating() ==> forall|i: int|
            0 <= i < frames_and_bars.1.len() ==> !(#[trigger] frames_and_bars.1[i]).is_on_top,
{
    let n = l.len() as int;
    let k = m.len() as int;
    let layout = s.spaces[space];
    assert(l2[n].req == Req::CalculateLayout(layout, screen, config));
    assert(m2[k].req == Req::CalculateLayoutAndGroups(layout, screen, config));
    if s.scroll_enabled {
        assert(l2[n + 1].req == Req::IsScrollLayout(layout));
        assert(m2[k + 1].req == Req::IsScrollLayout(layout));
        if l2[n + 1].rep->Flag_0 && s.viewports.contains(layout) {
            assert(l2[n + 2].req is ApplyViewport);
            assert(m2[k + 2].req is ApplyViewport);
        }
    }
}

} // verus!
