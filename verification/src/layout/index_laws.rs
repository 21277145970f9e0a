//! What holds of going through the layouts of a space.

use vstd::prelude::*;

use crate::ids::{LayoutId, SpaceId};
use crate::layout::commands::{index_changed, layout_selected};
use crate::layout::state::State;
use crate::link::{answer, ask, Log, Req};

verus! {

/// The host has `layouts` for the space: it names them in this order, knows which of
/// them is active, and activates the one that it is told to.
pub open spec fn has_layouts(
    s: State,
    l: Log,
    l2: Log,
    space: SpaceId,
    layouts: Seq<LayoutId>,
) -> bool {
    forall|i: int|
        l.len() <= i < l2.len() ==> match (#[trigger] l2[i]).req {
            Req::Layouts(of) => of == space ==> l2[i].rep->Layouts_0 == layouts,
            Req::ActiveLayoutIndex(of) => of == space ==> {
                &&& (l2[i].rep->Index_0 as int) < layouts.len()
                &&& layouts[l2[i].rep->Index_0 as int] == s.spaces[space]
            },
            Req::SelectLayout(of, layout) => of == space ==> l2[i].rep->Layout_0 == layout,
            _ => true,
        }
}

/// The place `i` steps after place `at` in a circle of `n`, for once round at most.
proof fn lemma_round(at: int, i: int, n: int)
    requires
        0 <= at < n,
        -1 <= i <= n,
    ensures
        (at + i) % n == if at + i < 0 {
            at + i + n
        } else if at + i < n {
            at + i
        } else {
            at + i - n
        },
{
    if at + i < 0 {
        vstd::arithmetic::div_mod::lemma_mod_add_multiples_vanish(at + i, n);
        vstd::arithmetic::div_mod::lemma_small_mod((at + i + n) as nat, n as nat);
    } else if at + i < n {
        vstd::arithmetic::div_mod::lemma_small_mod((at + i) as nat, n as nat);
    } else {
        vstd::arithmetic::div_mod::lemma_mod_add_multiples_vanish(at + i - n, n);
        vstd::arithmetic::div_mod::lemma_small_mod((at + i - n) as nat, n as nat);
    }
}

/// One step takes the layout next to the active one, and that is active then.
proof fn lemma_step(
    s: State,
    l: Log,
    space: SpaceId,
    offset: int,
    s2: State,
    l2: Log,
    layout: LayoutId,
    layouts: Seq<LayoutId>,
    at: int,
)
    requires
        index_changed(s, l, space, offset, true, s2, l2, layout),
        has_layouts(s, l, l2, space, layouts),
        layouts.no_duplicates(),
        0 <= at < layouts.len(),
        layouts[at] == s.spaces[space],
        s.spaces.contains_key(space),
        offset == 1 || offset == -1,
    ensures
        layout == layouts[(at + offset) % (layouts.len() as int)],
        s2 == (State { spaces: s.spaces.insert(space, layout), ..s }),
{
    let n = layouts.len() as int;
    lemma_round(at, offset, n);
    let t1 = ask(l, l2, Req::Layouts(space));
    assert(l2[l.len() as int].req == Req::Layouts(space));
    assert(answer(t1)->Layouts_0 == layouts);
    if n <= 1 {
        assert(s.spaces.insert(space, layout) =~= s.spaces);
    } else {
        let t2 = ask(t1, l2, Req::ActiveLayoutIndex(space));
        let index = answer(t2)->Index_0 as int;
        assert(layout_selected(s, t2, space, layout, s2, l2));
        assert(l2[l.len() as int + 1].req == Req::ActiveLayoutIndex(space));
        assert(index == at);
        assert(offset * 1 == offset);
        assert(l2[l.len() as int + 2].req == Req::SelectLayout(space, layout));
    }
}

/// Where scroll layouts are allowed, a step through the layouts of a space and the
/// step back leave everything as it was.
pub proof fn law_step_and_back(
    s: State,
    l: Log,
    space: SpaceId,
    offset: int,
    m: State,
    t: Log,
    there: LayoutId,
    s2: State,
    l2: Log,
    back: LayoutId,
    layouts: Seq<LayoutId>,
)
    requires
        index_changed(s, l, space, offset, true, m, t, there),
        index_changed(m, t, space, -offset, true, s2, l2, back),
        has_layouts(s, l, t, space, layouts),
        has_layouts(m, t, l2, space, layouts),
        layouts.no_duplicates(),
        s.spaces.contains_key(space),
        layouts.contains(s.spaces[space]),
        offset == 1 || offset == -1,
    ensures
        back == s.spaces[space],
        s2 == s,
{
    let n = layouts.len() as int;
    let at = choose|i: int| 0 <= i < n && layouts[i] == s.spaces[space];
    lemma_step(s, l, space, offset, m, t, there, layouts, at);
    lemma_round(at, offset, n);
    let next = (at + offset) % n;
    lemma_step(m, t, space, -offset, s2, l2, back, layouts, next);
    lemma_round(next, -offset, n);
    assert(s2.spaces =~= s.spaces);
}

/// After `i` steps forward the layout `i` places on is active.
proof fn lemma_walk(
    space: SpaceId,
    layouts: Seq<LayoutId>,
    states: Seq<State>,
    logs: Seq<Log>,
    taken: Seq<LayoutId>,
    at: int,
    i: int,
)
    requires
        layouts.no_duplicates(),
        0 <= at < layouts.len(),
        states.len() == layouts.len() + 1,
        logs.len() == layouts.len() + 1,
        taken.len() == layouts.len(),
        states[0].spaces.contains_key(space),
        layouts[at] == states[0].spaces[space],
        forall|k: int|
            0 <= k < layouts.len() ==> index_changed(
                states[k],
                logs[k],
                space,
                1,
                true,
                states[k + 1],
                logs[k + 1],
                #[trigger] taken[k],
            ) && has_layouts(states[k], logs[k], logs[k + 1], space, layouts),
        0 <= i <= layouts.len(),
    ensures
        states[i] == (State {
            spaces: states[0].spaces.insert(space, layouts[(at + i) % (layouts.len() as int)]),
            ..states[0]
        }),
        i > 0 ==> taken[i - 1] == layouts[(at + i) % (layouts.len() as int)],
    decreases i,
{
    let n = layouts.len() as int;
    lemma_round(at, i, n);
    if i == 0 {
        assert(states[0].spaces =~= states[0].spaces.insert(space, layouts[at]));
    } else {
        lemma_walk(space, layouts, states, logs, taken, at, i - 1);
        lemma_round(at, i - 1, n);
        let before = (at + i - 1) % n;
        assert((at + (i - 1)) == at + i - 1);
        lemma_step(
            states[i - 1],
            logs[i - 1],
            space,
            1,
            states[i],
            logs[i],
            taken[i - 1],
            layouts,
            before,
        );
        lemma_round(before, 1, n);
        assert(states[i].spaces =~= states[0].spaces.insert(
            space,
            layouts[(at + i) % n],
        ));
    }
}

/// Where scroll layouts are allowed, as many steps forward as a space has layouts
/// take each of them once and end where they began.
pub proof fn law_once_round(
    space: SpaceId,
    layouts: Seq<LayoutId>,
    states: Seq<State>,
    logs: Seq<Log>,
    taken: Seq<LayoutId>,
)
    requires
        layouts.no_duplicates(),
        states.len() == layouts.len() + 1,
        logs.len() == layouts.len() + 1,
        taken.len() == layouts.len(),
        states[0].spaces.contains_key(space),
        layouts.contains(states[0].spaces[space]),
        forall|k: int|
            0 <= k < layouts.len() ==> index_changed(
                states[k],
                logs[k],
                space,
                1,
                true,
                states[k + 1],
                logs[k + 1],
                #[trigger] taken[k],
            ) && has_layouts(states[k], logs[k], logs[k + 1], space, layouts),
    ensures
        taken.no_duplicates(),
        forall|layout: LayoutId| #[trigger] taken.contains(layout) <==> layouts.contains(layout),
        states[layouts.len() as int] == states[0],
{
    let n = layouts.len() as int;
    let at = choose|i: int| 0 <= i < n && layouts[i] == states[0].spaces[space];
    assert forall|i: int| 0 <= i < n implies #[trigger] taken[i] == layouts[if at + i + 1 < n {
        at + i + 1
    } else {
        at + i + 1 - n
    }] by {
        lemma_walk(space, layouts, states, logs, taken, at, i + 1);
        lemma_round(at, i + 1, n);
    }
    assert forall|layout: LayoutId| #[trigger]
        taken.contains(layout) <==> layouts.contains(layout) by {
        if layouts.contains(layout) {
            let k = choose|k: int| 0 <= k < n && layouts[k] == layout;
            let i = if k > at {
                k - at - 1
            } else {
                k - at - 1 + n
            };
            assert(taken[i] == layout);
        }
        if taken.contains(layout) {
            let i = choose|i: int| 0 <= i < n && taken[i] == layout;
            assert(layouts.contains(taken[i]));
        }
    }
    lemma_walk(space, layouts, states, logs, taken, at, n);
    lemma_round(at, n, n);
    assert(states[n].spaces =~= states[0].spaces);
}

} // verus!
