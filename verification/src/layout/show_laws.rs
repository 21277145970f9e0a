//! What is shown, told and kept of a layout manager.

use vstd::prelude::*;

use crate::deeds::{deeds, group_deeds, lemma_reply};
use crate::ids::{LayoutId, SpaceId, WindowId};
use crate::layout::floating::floats_in;
use crate::layout::saved::{keeps, selection_told, shown_of, spaces_from, SavedView};
use crate::layout::state::{ActiveFloat, State};
use crate::layout::update_laws::lemma_filtered;
use crate::link::{answer, answered_by, ask, Log, Rep, Req};

verus! {

/// The windows that float on screen in a space are those noted for it.
pub proof fn law_floats_are_those_noted(active: Seq<ActiveFloat>, space: SpaceId, wid: WindowId)
    ensures
        floats_in(active, space).contains(wid) <==> exists|i: int|
            0 <= i < active.len() && (#[trigger] active[i]).space == space && active[i].wid == wid,
{
    let here = |f: ActiveFloat| f.space == space;
    let name = |f: ActiveFloat| f.wid;
    let kept = active.filter(here);
    assert forall|f: ActiveFloat| #[trigger] kept.contains(f) <==> active.contains(f) && f.space
        == space by {
        lemma_filtered(active, here, f);
    }
    let floats = floats_in(active, space);
    assert(floats == kept.map_values(name));
    if floats.contains(wid) {
        let k = choose|k: int| 0 <= k < floats.len() && floats[k] == wid;
        let f = kept[k];
        assert(kept.contains(f));
        let i = choose|i: int| 0 <= i < active.len() && active[i] == f;
        assert(active[i].space == space && active[i].wid == wid);
    }
    if exists|i: int|
        0 <= i < active.len() && (#[trigger] active[i]).space == space && active[i].wid == wid {
        let i = choose|i: int|
            0 <= i < active.len() && (#[trigger] active[i]).space == space && active[i].wid == wid;
        assert(active.contains(active[i]));
        assert(kept.contains(active[i]));
        let k = choose|k: int| 0 <= k < kept.len() && kept[k] == active[i];
        assert(floats[k] == wid);
    }
}

/// What is shown of a space is its own: its layout, if it has one, and the windows that float
/// on screen there.
pub proof fn law_space_is_shown(
    s: State,
    space: SpaceId,
    desc: Seq<char>,
    print: bool,
    wid: WindowId,
)
    ensures
        ({
            let shown = shown_of(s, space, desc, print);
            &&& shown.space == space
            &&& shown.desc == desc
            &&& shown.print == print
            &&& shown.layout is Some <==> s.spaces.contains_key(space)
            &&& s.spaces.contains_key(space) ==> shown.layout == Some(s.spaces[space])
            &&& shown.floating.contains(wid) <==> exists|i: int|
                0 <= i < s.active_floating.len() && (#[trigger] s.active_floating[i]).space == space
                    && s.active_floating[i].wid == wid
        }),
{
    law_floats_are_those_noted(s.active_floating, space, wid);
}

/// The selected window of a space is the one in the selected node of its layout; to tell it
/// changes nothing.
pub proof fn law_selected_window_is_told(
    s: State,
    l: Log,
    space: SpaceId,
    l2: Log,
    wid: Option<WindowId>,
    reply: spec_fn(Req) -> Rep,
)
    requires
        selection_told(s, l, space, l2, wid),
        answered_by(reply, l2, l.len() as int),
    ensures
        wid == reply(Req::WindowAt(reply(Req::Selection(s.spaces[space]))->Node_0))->MaybeWindow_0,
        deeds(l2, l.len() as int) == Seq::<Req>::empty(),
{
    broadcast use group_deeds;

    let n = l.len() as int;
    let q = Req::Selection(s.spaces[space]);
    let t = ask(l, l2, q);
    lemma_reply(reply, l, l2, q, n);
    lemma_reply(reply, t, l2, Req::WindowAt(answer(t)->Node_0), n);
}

/// The last entry for a space counts.
pub proof fn law_last_entry_counts(entries: Seq<(SpaceId, LayoutId)>, i: int)
    requires
        0 <= i < entries.len(),
        forall|j: int| i < j < entries.len() ==> (#[trigger] entries[j]).0 != entries[i].0,
    ensures
        spaces_from(entries).contains_key(entries[i].0),
        spaces_from(entries)[entries[i].0] == entries[i].1,
    decreases entries.len(),
{
    let front = entries.drop_last();
    let last = entries.len() - 1;
    if i < last {
        assert(entries[last].0 != entries[i].0);
        assert forall|j: int| i < j < front.len() implies (#[trigger] front[j]).0 != front[i].0 by {
            assert(entries[j].0 != entries[i].0);
        }
        law_last_entry_counts(front, i);
    }
}

/// A space without an entry gets no layout.
pub proof fn law_only_entries_count(entries: Seq<(SpaceId, LayoutId)>, space: SpaceId)
    requires
        forall|i: int| 0 <= i < entries.len() ==> (#[trigger] entries[i]).0 != space,
    ensures
        !spaces_from(entries).contains_key(space),
    decreases entries.len(),
{
    if entries.len() > 0 {
        let front = entries.drop_last();
        assert forall|i: int| 0 <= i < front.len() implies (#[trigger] front[i]).0 != space by {
            assert(entries[i].0 != space);
        }
        law_only_entries_count(front, space);
        assert(entries[entries.len() - 1].0 != space);
    }
}

/// What is kept names every space that has a layout, with that layout, and no other space;
/// and it names every floating window once.
pub proof fn law_all_is_kept(s: State, saved: SavedView, space: SpaceId, i: int)
    requires
        keeps(saved, s),
        0 <= i < saved.spaces.len(),
        forall|j: int|
            i < j < saved.spaces.len() ==> (#[trigger] saved.spaces[j]).0 != saved.spaces[i].0,
    ensures
        s.spaces.contains_key(saved.spaces[i].0),
        s.spaces[saved.spaces[i].0] == saved.spaces[i].1,
        s.spaces.contains_key(space) ==> exists|k: int|
            0 <= k < saved.spaces.len() && (#[trigger] saved.spaces[k]).0 == space,
        forall|wid: WindowId| #[trigger] s.floating.contains(wid) <==> saved.floating.contains(wid),
        saved.floating.no_duplicates(),
{
    law_last_entry_counts(saved.spaces, i);
    if forall|k: int| 0 <= k < saved.spaces.len() ==> (#[trigger] saved.spaces[k]).0 != space {
        law_only_entries_count(saved.spaces, space);
    }
}

} // verus!
