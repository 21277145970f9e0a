//! What is kept of a layout manager between two runs, and what is shown of it.

use vstd::prelude::*;

use crate::collections::{each_once, VecMap, VecSet};
use crate::config::{ScrollConfig, ScrollView};
use crate::ids::{LayoutId, LayoutKind, SpaceId, WindowId};
use crate::layout::floating::floats_in;
use crate::layout::state::{fresh, LayoutManager, State};
use crate::link::{answer, ask, grew, LayoutHost, Link, Log, Req};

verus! {

/// The part of a layout manager that is written to a file. The layouts themselves
/// are kept by the host.
#[derive(Debug)]
pub struct SavedLayout {
    pub spaces: Vec<(SpaceId, LayoutId)>,
    pub floating_windows: Vec<WindowId>,
}

/// What a [`SavedLayout`] says.
pub struct SavedView {
    pub spaces: Seq<(SpaceId, LayoutId)>,
    pub floating: Seq<WindowId>,
}

impl View for SavedLayout {
    type V = SavedView;

    open spec fn view(&self) -> SavedView {
        SavedView { spaces: self.spaces@, floating: self.floating_windows@ }
    }
}

/// What there is to show of a space: its layout and its floating windows.
#[derive(Debug)]
pub struct Shown {
    pub space: SpaceId,
    /// What the occasion is.
    pub desc: &'static str,
    pub layout: Option<LayoutId>,
    pub floating: Vec<WindowId>,
    /// Whether it is to be shown to the user, or only noted.
    pub print: bool,
}

/// What a [`Shown`] says.
pub struct ShownView {
    pub space: SpaceId,
    pub desc: Seq<char>,
    pub layout: Option<LayoutId>,
    pub floating: Seq<WindowId>,
    pub print: bool,
}

impl View for Shown {
    type V = ShownView;

    open spec fn view(&self) -> ShownView {
        ShownView {
            space: self.space,
            desc: self.desc@,
            layout: self.layout,
            floating: self.floating@,
            print: self.print,
        }
    }
}

/// What there is to show of `space`.
pub open spec fn shown_of(s: State, space: SpaceId, desc: Seq<char>, print: bool) -> ShownView {
    ShownView {
        space,
        desc,
        layout: if s.spaces.contains_key(space) {
            Some(s.spaces[space])
        } else {
            None
        },
        floating: floats_in(s.active_floating, space),
        print,
    }
}

/// The spaces that a list of entries gives layouts to; later entries win.
pub open spec fn spaces_from(entries: Seq<(SpaceId, LayoutId)>) -> Map<SpaceId, LayoutId>
    decreases entries.len(),
{
    if entries.len() == 0 {
        Map::empty()
    } else {
        spaces_from(entries.drop_last()).insert(entries.last().0, entries.last().1)
    }
}

/// What is kept of a layout manager: the layout of each space, and which windows float.
pub open spec fn keeps(saved: SavedView, s: State) -> bool {
    &&& spaces_from(saved.spaces) == s.spaces
    &&& saved.floating == s.floating
    &&& saved.floating.no_duplicates()
}

/// A layout manager that knows what was saved and nothing else.
pub open spec fn restored(saved: SavedView, scroll: ScrollView) -> State {
    State { spaces: spaces_from(saved.spaces), floating: each_once(saved.floating), ..fresh(scroll) }
}

/// A list without repetitions is what it gives, each once.
pub proof fn lemma_each_once_already(wids: Seq<WindowId>)
    requires
        wids.no_duplicates(),
    ensures
        each_once(wids) == wids,
    decreases wids.len(),
{
    if wids.len() > 0 {
        let front = wids.drop_last();
        lemma_each_once_already(front);
        assert(!front.contains(wids.last()));
        assert(wids =~= front.push(wids.last()));
    } else {
        assert(wids =~= Seq::empty());
    }
}

/// Entries for the keys of a map, each once, with their values, give the map.
proof fn lemma_spaces_again(entries: Seq<(SpaceId, LayoutId)>, n: int, map: Map<SpaceId, LayoutId>)
    requires
        0 <= n <= entries.len(),
        forall|i: int|
            0 <= i < entries.len() ==> map.contains_key((#[trigger] entries[i]).0)
                && map[entries[i].0] == entries[i].1,
    ensures
        forall|space: SpaceId| #[trigger]
            spaces_from(entries.take(n)).contains_key(space) <==> exists|i: int|
                0 <= i < n && (#[trigger] entries[i]).0 == space,
        forall|space: SpaceId|
            spaces_from(entries.take(n)).contains_key(space) ==> map.contains_key(space)
                && #[trigger] spaces_from(entries.take(n))[space] == map[space],
    decreases n,
{
    if n > 0 {
        lemma_spaces_again(entries, n - 1, map);
        assert(entries.take(n).drop_last() == entries.take(n - 1));
        let last = entries[n - 1];
        assert(entries.take(n).last() == last);
        let before = spaces_from(entries.take(n - 1));
        let now = spaces_from(entries.take(n));
        assert(now == before.insert(last.0, last.1));
        assert forall|space: SpaceId| #[trigger] now.contains_key(space) <==> exists|i: int|
            0 <= i < n && (#[trigger] entries[i]).0 == space by {
            if space == last.0 {
                assert(entries[n - 1].0 == space);
            }
        }
    } else {
        assert(entries.take(0) =~= Seq::empty());
    }
}

/// The selected window of `space` is `wid`, if a window is selected there.
pub open spec fn selection_told(
    s: State,
    l: Log,
    space: SpaceId,
    l2: Log,
    wid: Option<WindowId>,
) -> bool {
    let t = ask(l, l2, Req::Selection(s.spaces[space]));
    &&& l2 == ask(t, l2, Req::WindowAt(answer(t)->Node_0))
    &&& wid == answer(l2)->MaybeWindow_0
}

impl LayoutManager {
    /// What is kept for the next run.
    pub fn saved(&self) -> (saved: SavedLayout)
        ensures
            keeps(saved@, self@),
    {
        let keys = self.layout_mapping.keys();
        let mut spaces: Vec<(SpaceId, LayoutId)> = Vec::new();
        let mut i: usize = 0;
        while i < keys.len()
            invariant
                i <= keys@.len(),
                spaces@.len() == i,
                forall|space: SpaceId| #[trigger]
                    keys@.contains(space) <==> self@.spaces.contains_key(space),
                forall|j: int|
                    0 <= j < i ==> (#[trigger] spaces@[j]).0 == keys@[j]
                        && self@.spaces.contains_key(keys@[j]) && spaces@[j].1
                        == self@.spaces[keys@[j]],
            decreases keys@.len() - i,
        {
            assert(keys@.contains(keys@[i as int]));
            let space = keys[i];
            spaces.push((space, self.layout(space)));
            i += 1;
        }
        proof {
            lemma_spaces_again(spaces@, spaces@.len() as int, self@.spaces);
            assert(spaces@.take(spaces@.len() as int) == spaces@);
            assert forall|space: SpaceId| self@.spaces.contains_key(space) implies #[trigger] spaces_from(
                spaces@,
            ).contains_key(space) by {
                assert(keys@.contains(space));
                let j = choose|j: int| 0 <= j < keys@.len() && keys@[j] == space;
                assert(spaces@[j].0 == space);
            }
            assert(spaces_from(spaces@) =~= self@.spaces);
        }
        let floating = self.floating_windows.items();
        let mut floating_windows: Vec<WindowId> = Vec::new();
        let mut j: usize = 0;
        while j < floating.len()
            invariant
                j <= floating@.len(),
                floating_windows@ == floating@.take(j as int),
            decreases floating@.len() - j,
        {
            floating_windows.push(floating[j]);
            assert(floating_windows@ =~= floating@.take(j + 1));
            j += 1;
        }
        assert(floating_windows@ =~= floating@);
        SavedLayout { spaces, floating_windows }
    }

    /// A layout manager that goes on from what was kept. What was on screen, the
    /// focus and whatever the mouse held are forgotten.
    pub fn restore(saved: SavedLayout, scroll_cfg: ScrollConfig) -> (manager: Self)
        ensures
            manager@ == restored(saved@, scroll_cfg@),
    {
        let entries = saved.spaces;
        let mut layout_mapping: VecMap<SpaceId, LayoutId> = VecMap::new();
        let mut i: usize = 0;
        assert(entries@.take(0) == Seq::<(SpaceId, LayoutId)>::empty());
        while i < entries.len()
            invariant
                i <= entries@.len(),
                layout_mapping@ == spaces_from(entries@.take(i as int)),
            decreases entries@.len() - i,
        {
            assert(entries@.take(i + 1).drop_last() == entries@.take(i as int));
            let (space, layout) = entries[i];
            layout_mapping.insert(space, layout);
            i += 1;
        }
        assert(entries@.take(i as int) == entries@);
        let mut manager = LayoutManager::new(scroll_cfg);
        manager.layout_mapping = layout_mapping;
        manager.floating_windows = VecSet::from_list(&saved.floating_windows);
        manager
    }

    /// What there is to note of `space`.
    pub fn debug_tree(&self, space: SpaceId) -> (shown: Shown)
        ensures
            shown@ == shown_of(self@, space, ""@, false),
    {
        self.debug_tree_desc(space, "", false)
    }

    /// What there is to show of `space` on some occasion.
    pub fn debug_tree_desc(&self, space: SpaceId, desc: &'static str, print: bool) -> (shown: Shown)
        ensures
            shown@ == shown_of(self@, space, desc@, print),
    {
        Shown {
            space,
            desc,
            layout: self.try_layout(space),
            floating: self.active_floats(space),
            print,
        }
    }

    /// The selected window of `space`.
    pub fn selected_window<H: LayoutHost>(&self, link: &mut Link<H>, space: SpaceId) -> (wid: Option<
        WindowId,
    >)
        requires
            self@.spaces.contains_key(space),
        ensures
            selection_told(self@, old(link).log(), space, final(link).log(), wid),
            grew(old(link).log(), final(link).log()),
    {
        let layout = self.layout(space);
        let selection = link.selection(layout);
        link.window_at(selection)
    }

    /// How the layout of `space` arranges its windows.
    pub fn active_layout_kind<H: LayoutHost>(&self, link: &mut Link<H>, space: SpaceId) -> (kind:
        LayoutKind)
        requires
            self@.spaces.contains_key(space),
        ensures
            final(link).log() == ask(
                old(link).log(),
                final(link).log(),
                Req::LayoutKind(self@.spaces[space]),
            ),
            kind == answer(final(link).log())->Kind_0,
            grew(old(link).log(), final(link).log()),
    {
        let layout = self.layout(space);
        link.layout_kind(layout)
    }
}

/// A layout manager that is saved and restored knows its spaces and its floating
/// windows again, and starts afresh otherwise.
pub proof fn law_saved_and_restored(s: State, saved: SavedView, scroll: ScrollView)
    requires
        keeps(saved, s),
    ensures
        restored(saved, scroll) == (State {
            spaces: s.spaces,
            floating: s.floating,
            ..fresh(scroll)
        }),
{
    lemma_each_once_already(saved.floating);
}

} // verus!
