//! What asking for windows to be raised is for.
//!
//! `reply` is how the host answers while an event is handled.

use vstd::prelude::*;

use crate::collections::each_once;
use crate::deeds::{deeds, group_deeds, lemma_reply, lemma_reply_part};
use crate::ids::{Frame, SpaceId, WindowId};
use crate::layout::event_laws::lemma_with;
use crate::layout::update_laws::lemma_filtered;
use crate::link::{answered_by, grew, Log, Rep, Req};
use crate::messages::{AppContact, RaiseRequestView};
use crate::reactor::frame_laws::{
    at_home, lemma_best_screen, lemma_best_space_grows, lies_on, share,
};
use crate::reactor::laws::{law_piles_keep_windows, lemma_each_once_members};
use crate::reactor::raising::{
    all_windows, by_pile, handles_for, pile_step, piled, piles_of, raised, request_sent, windows_in,
    Pile, Sheet,
};
use crate::reactor::screens::{best_screen, best_space};
use crate::reactor::state::{AppState, Known, Screen};
use crate::response::Response;

verus! {

/// Piling windows only asks where they are.
pub proof fn lemma_piled_grows(r: Known, l: Log, wids: Seq<WindowId>, l2: Log, sheets: Seq<Sheet>)
    requires
        piled(r, l, wids, l2, sheets),
    ensures
        grew(l, l2),
    decreases wids.len(),
{
    if wids.len() > 0 {
        let (t, before) = choose|t: Log, before: Seq<Sheet>|
            piled(r, l, wids.drop_last(), t, before) && #[trigger] pile_step(
                r,
                t,
                before,
                wids.last(),
                l2,
                sheets,
            );
        lemma_piled_grows(r, l, wids.drop_last(), t, before);
        lemma_pile_step_grows(r, t, before, wids.last(), l2, sheets);
    }
}

proof fn lemma_pile_step_grows(
    r: Known,
    l: Log,
    sheets: Seq<Sheet>,
    wid: WindowId,
    l2: Log,
    sheets2: Seq<Sheet>,
)
    requires
        pile_step(r, l, sheets, wid, l2, sheets2),
    ensures
        grew(l, l2),
{
    if r.windows.contains_key(wid) {
        let space = choose|space: Option<SpaceId>|
            {
                &&& #[trigger] best_space(
                    l,
                    r.screens,
                    r.windows[wid].frame_monotonic,
                    l2,
                    space,
                )
                &&& sheets2 == sheets.push(Sheet { pile: Pile { pid: wid.pid, space }, wid })
            };
        lemma_best_space_grows(l, r.screens, r.windows[wid].frame_monotonic, l2, space);
    }
}

/// Whether a known window is at home in a space.
pub open spec fn window_at_home(
    reply: spec_fn(Req) -> Rep,
    r: Known,
    wid: WindowId,
    home: Option<SpaceId>,
) -> bool {
    at_home(reply, r.screens, r.windows[wid].frame_monotonic, home)
}

/// The sheets are the known windows, in order, each with its application and its home.
spec fn are_sheets_of(
    reply: spec_fn(Req) -> Rep,
    r: Known,
    wids: Seq<WindowId>,
    sheets: Seq<Sheet>,
) -> bool {
    &&& forall|i: int|
        0 <= i < sheets.len() ==> {
            let sheet = #[trigger] sheets[i];
            &&& wids.contains(sheet.wid)
            &&& r.windows.contains_key(sheet.wid)
            &&& sheet.pile.pid == sheet.wid.pid
            &&& window_at_home(reply, r, sheet.wid, sheet.pile.space)
        }
    &&& forall|k: int|
        0 <= k < wids.len() && r.windows.contains_key(#[trigger] wids[k]) ==> exists|i: int|
            0 <= i < sheets.len() && (#[trigger] sheets[i]).wid == wids[k]
}

proof fn lemma_sheets(
    r: Known,
    l: Log,
    wids: Seq<WindowId>,
    l2: Log,
    sheets: Seq<Sheet>,
    reply: spec_fn(Req) -> Rep,
    from: int,
)
    requires
        piled(r, l, wids, l2, sheets),
        answered_by(reply, l2, from),
        0 <= from <= l.len(),
    ensures
        deeds(l2, from) == deeds(l, from),
        are_sheets_of(reply, r, wids, sheets),
    decreases wids.len(),
{
    if wids.len() > 0 {
        let front = wids.drop_last();
        let wid = wids.last();
        let (t, before) = choose|t: Log, before: Seq<Sheet>|
            piled(r, l, front, t, before) && #[trigger] pile_step(r, t, before, wid, l2, sheets);
        lemma_piled_grows(r, l, front, t, before);
        lemma_pile_step_grows(r, t, before, wid, l2, sheets);
        lemma_reply_part(reply, t, l2, from);
        lemma_sheets(r, l, front, t, before, reply, from);
        assert(wids[wids.len() - 1] == wid);
        assert forall|w: WindowId| #[trigger] front.contains(w) implies wids.contains(w) by {
            let k = choose|k: int| 0 <= k < front.len() && front[k] == w;
            assert(wids[k] == w);
        }
        if r.windows.contains_key(wid) {
            let space = choose|space: Option<SpaceId>|
                {
                    &&& #[trigger] best_space(
                        t,
                        r.screens,
                        r.windows[wid].frame_monotonic,
                        l2,
                        space,
                    )
                    &&& sheets == before.push(Sheet { pile: Pile { pid: wid.pid, space }, wid })
                };
            lemma_is_home(
                t,
                r.screens,
                r.windows[wid].frame_monotonic,
                l2,
                space,
                reply,
                from,
            );
            assert(sheets[before.len() as int].wid == wid);
        }
        assert forall|i: int| 0 <= i < sheets.len() implies {
            let sheet = #[trigger] sheets[i];
            &&& wids.contains(sheet.wid)
            &&& r.windows.contains_key(sheet.wid)
            &&& sheet.pile.pid == sheet.wid.pid
            &&& window_at_home(reply, r, sheet.wid, sheet.pile.space)
        } by {
            if i < before.len() {
                assert(sheets[i] == before[i]);
            }
        }
        assert forall|k: int|
            0 <= k < wids.len() && r.windows.contains_key(#[trigger] wids[k]) implies exists|
            i: int,
        |
            0 <= i < sheets.len() && (#[trigger] sheets[i]).wid == wids[k] by {
            if k < front.len() {
                assert(front[k] == wids[k]);
                let i = choose|i: int|
                    0 <= i < before.len() && (#[trigger] before[i]).wid == front[k];
                assert(sheets[i].wid == wids[k]);
            }
        }
    }
}

/// The space that is found is the home.
pub proof fn lemma_is_home(
    l: Log,
    screens: Seq<Screen>,
    frame: Frame,
    l2: Log,
    space: Option<SpaceId>,
    reply: spec_fn(Req) -> Rep,
    from: int,
)
    requires
        best_space(l, screens, frame, l2, space),
        answered_by(reply, l2, from),
        0 <= from <= l.len(),
    ensures
        at_home(reply, screens, frame, space),
        deeds(l2, from) == deeds(l, from),
        grew(l, l2),
{
    let best = choose|best: Option<usize>| #[trigger]
        best_screen(l, screens, frame, l2, best) && space == match best {
            Some(idx) => screens[idx as int].space,
            None => None,
        };
    lemma_best_screen(l, screens, frame, l2, best, reply, from);
    if let Some(idx) = best {
        assert(lies_on(reply, screens, frame, idx as int));
    }
}

/// A frame has one home.
pub proof fn lemma_one_home(
    reply: spec_fn(Req) -> Rep,
    screens: Seq<Screen>,
    frame: Frame,
    a: Option<SpaceId>,
    b: Option<SpaceId>,
)
    requires
        at_home(reply, screens, frame, a),
        at_home(reply, screens, frame, b),
    ensures
        a == b,
{
    if screens.len() > 0 {
        let i = choose|idx: int| #[trigger]
            lies_on(reply, screens, frame, idx) && a == screens[idx].space;
        let j = choose|idx: int| #[trigger]
            lies_on(reply, screens, frame, idx) && b == screens[idx].space;
        if i < j {
            assert(share(reply, screens[i], frame) <= share(reply, screens[j], frame));
            assert(share(reply, screens[j], frame) < share(reply, screens[i], frame));
        }
        if j < i {
            assert(share(reply, screens[j], frame) <= share(reply, screens[i], frame));
            assert(share(reply, screens[i], frame) < share(reply, screens[j], frame));
        }
    }
}

/// Which applications are named for windows.
proof fn lemma_handles(apps: Map<i32, AppState>, wids: Seq<WindowId>, contact: AppContact)
    ensures
        handles_for(apps, wids).contains(contact) <==> apps.contains_key(contact.pid)
            && apps[contact.pid].handle == contact.handle && exists|i: int|
            0 <= i < wids.len() && (#[trigger] wids[i]).pid == contact.pid,
    decreases wids.len(),
{
    if wids.len() > 0 {
        let front = wids.drop_last();
        lemma_handles(apps, front, contact);
        let pid = wids.last().pid;
        if apps.contains_key(pid) {
            lemma_with(handles_for(apps, front), AppContact { pid, handle: apps[pid].handle });
        }
        if exists|i: int| 0 <= i < front.len() && (#[trigger] front[i]).pid == contact.pid {
            let i = choose|i: int| 0 <= i < front.len() && (#[trigger] front[i]).pid == contact.pid;
            assert(wids[i].pid == contact.pid);
        }
        if exists|i: int| 0 <= i < wids.len() && (#[trigger] wids[i]).pid == contact.pid {
            let i = choose|i: int| 0 <= i < wids.len() && (#[trigger] wids[i]).pid == contact.pid;
            if i < front.len() {
                assert(front[i].pid == contact.pid);
            }
        }
        if contact.pid == pid {
            assert(wids[wids.len() - 1].pid == contact.pid);
        }
    }
}

/// Whether a response speaks of a window.
pub open spec fn speaks_of(response: Response, wid: WindowId) -> bool {
    response.raise.contains(wid) || response.focus == Some(wid)
}

/// What a request to raise windows says: the window to focus is focused, and the mouse
/// jumps to the middle of its frame where the settings want that, it was not the mouse that
/// moved the focus, and the window is known. The applications of all windows, and no others,
/// are named with their handles. The known windows to raise, and no others, are raised, those
/// of one application in one space together.
pub open spec fn asks_for(
    reply: spec_fn(Req) -> Rep,
    r: Known,
    response: Response,
    from_mouse: bool,
    request: RaiseRequestView,
) -> bool {
    let groups = request.raise_windows;
    &&& request.focus_window == match response.focus {
        Some(wid) => Some(
            (
                wid,
                if r.config.mouse_follows_focus && !from_mouse && r.windows.contains_key(wid) {
                    Some(reply(Req::Middle(r.windows[wid].frame_monotonic))->Place_0)
                } else {
                    None
                },
            ),
        ),
        None => None,
    }
    &&& forall|contact: AppContact| #[trigger]
        request.app_handles.contains(contact) <==> r.apps.contains_key(contact.pid)
            && r.apps[contact.pid].handle == contact.handle && exists|wid: WindowId| #[trigger]
            speaks_of(response, wid) && wid.pid == contact.pid
    &&& forall|wid: WindowId|
        (exists|g: int| 0 <= g < groups.len() && (#[trigger] groups[g]).contains(wid)) <==> (
        #[trigger] response.raise.contains(wid) && r.windows.contains_key(wid))
    &&& forall|g: int, h: int, v: WindowId, w: WindowId|
        0 <= g < groups.len() && 0 <= h < groups.len() && (#[trigger] groups[g].contains(v)) && (
        #[trigger] groups[h].contains(w)) ==> (g == h <==> v.pid == w.pid && exists|
            home: Option<SpaceId>,
        | #[trigger]
            window_at_home(reply, r, v, home) && window_at_home(reply, r, w, home))
}

/// A response is passed on as one request that asks for what it says; where it asks for
/// nothing, nothing is done.
#[verifier::rlimit(60)]
pub proof fn law_response_is_passed_on(
    r: Known,
    l: Log,
    response: Response,
    from_mouse: bool,
    l2: Log,
    reply: spec_fn(Req) -> Rep,
)
    requires
        raised(r, l, response, from_mouse, l2),
        answered_by(reply, l2, l.len() as int),
    ensures
        ({
            let done = deeds(l2, l.len() as int);
            if response.raise.len() == 0 && response.focus is None {
                done == Seq::<Req>::empty()
            } else {
                &&& done.len() == 1
                &&& done[0] is Raise
                &&& asks_for(reply, r, response, from_mouse, done[0]->Raise_0)
            }
        }),
{
    broadcast use group_deeds;

    let n = l.len() as int;
    if response.raise.len() > 0 || response.focus is Some {
        let (t, sheets) = choose|t: Log, sheets: Seq<Sheet>| #[trigger]
            piled(r, l, response.raise, t, sheets) && request_sent(
                r,
                t,
                response,
                sheets,
                from_mouse,
                l2,
            );
        lemma_piled_grows(r, l, response.raise, t, sheets);
        assert(grew(t, l2));
        lemma_reply_part(reply, t, l2, n);
        lemma_sheets(r, l, response.raise, t, sheets, reply, n);
        if r.config.mouse_follows_focus && !from_mouse && response.focus is Some
            && r.windows.contains_key(response.focus->0) {
            lemma_reply(
                reply,
                t,
                l2,
                Req::Middle(r.windows[response.focus->0].frame_monotonic),
                n,
            );
        }
        let request = l2.last().req->Raise_0;
        lemma_groups(reply, r, response.raise, sheets);
        let all = all_windows(response);
        assert forall|wid: WindowId| #[trigger] all.contains(wid) <==> speaks_of(response, wid) by {
            if let Some(focus) = response.focus {
                assert(all[response.raise.len() as int] == focus);
                if response.raise.contains(wid) {
                    let i = choose|i: int|
                        0 <= i < response.raise.len() && response.raise[i] == wid;
                    assert(all[i] == wid);
                }
                if all.contains(wid) && wid != focus {
                    let i = choose|i: int| 0 <= i < all.len() && all[i] == wid;
                    assert(response.raise[i] == wid);
                }
            }
        }
        assert forall|contact: AppContact| #[trigger]
            request.app_handles.contains(contact) <==> r.apps.contains_key(contact.pid)
                && r.apps[contact.pid].handle == contact.handle && exists|wid: WindowId| #[trigger]
                speaks_of(response, wid) && wid.pid == contact.pid by {
            lemma_handles(r.apps, all, contact);
            if exists|i: int| 0 <= i < all.len() && (#[trigger] all[i]).pid == contact.pid {
                let i = choose|i: int| 0 <= i < all.len() && (#[trigger] all[i]).pid == contact.pid;
                assert(all.contains(all[i]));
                assert(speaks_of(response, all[i]));
            }
            if exists|wid: WindowId| #[trigger] speaks_of(response, wid) && wid.pid == contact.pid {
                let wid = choose|wid: WindowId| #[trigger]
                    speaks_of(response, wid) && wid.pid == contact.pid;
                assert(all.contains(wid));
                let i = choose|i: int| 0 <= i < all.len() && all[i] == wid;
                assert(all[i].pid == contact.pid);
            }
        }
        let done = deeds(l2, n);
        assert(done.len() == 1);
        assert(done[0] == l2.last().req);
        assert(done[0] is Raise);
        assert(request.raise_windows == by_pile(sheets));
        assert(request.focus_window == match response.focus {
            Some(wid) => Some(
                (
                    wid,
                    if r.config.mouse_follows_focus && !from_mouse && r.windows.contains_key(wid) {
                        Some(reply(Req::Middle(r.windows[wid].frame_monotonic))->Place_0)
                    } else {
                        None
                    },
                ),
            ),
            None => None,
        });
        assert(asks_for(reply, r, response, from_mouse, request));
    }
}

/// The windows of a pile.
proof fn lemma_in_pile(sheets: Seq<Sheet>, pile: Pile, wid: WindowId)
    ensures
        windows_in(sheets, pile).contains(wid) <==> exists|i: int|
            0 <= i < sheets.len() && (#[trigger] sheets[i]).pile == pile && sheets[i].wid == wid,
{
    let here = |sheet: Sheet| sheet.pile == pile;
    let kept = sheets.filter(here);
    let wids = windows_in(sheets, pile);
    if wids.contains(wid) {
        let k = choose|k: int| 0 <= k < wids.len() && wids[k] == wid;
        assert(kept.contains(kept[k]));
        lemma_filtered(sheets, here, kept[k]);
        let i = choose|i: int| 0 <= i < sheets.len() && sheets[i] == kept[k];
        assert(sheets[i].pile == pile && sheets[i].wid == wid);
    }
    if exists|i: int|
        0 <= i < sheets.len() && (#[trigger] sheets[i]).pile == pile && sheets[i].wid == wid {
        let i = choose|i: int|
            0 <= i < sheets.len() && (#[trigger] sheets[i]).pile == pile && sheets[i].wid == wid;
        assert(sheets.contains(sheets[i]));
        lemma_filtered(sheets, here, sheets[i]);
        let k = choose|k: int| 0 <= k < kept.len() && kept[k] == sheets[i];
        assert(wids[k] == wid);
    }
}

/// The groups that windows are raised in.
proof fn lemma_groups(
    reply: spec_fn(Req) -> Rep,
    r: Known,
    wids: Seq<WindowId>,
    sheets: Seq<Sheet>,
)
    requires
        are_sheets_of(reply, r, wids, sheets),
    ensures
        ({
            let groups = by_pile(sheets);
            &&& forall|wid: WindowId|
                (exists|g: int| 0 <= g < groups.len() && (#[trigger] groups[g]).contains(wid))
                    <==> (#[trigger] wids.contains(wid) && r.windows.contains_key(wid))
            &&& forall|g: int, h: int, v: WindowId, w: WindowId|
                0 <= g < groups.len() && 0 <= h < groups.len() && (#[trigger] groups[g].contains(
                    v,
                )) && (#[trigger] groups[h].contains(w)) ==> (g == h <==> v.pid == w.pid && exists|
                    home: Option<SpaceId>,
                | #[trigger]
                    window_at_home(reply, r, v, home) && window_at_home(reply, r, w, home))
        }),
{
    let groups = by_pile(sheets);
    let piles = piles_of(sheets);
    assert forall|wid: WindowId|
        (exists|g: int| 0 <= g < groups.len() && (#[trigger] groups[g]).contains(wid)) <==> (
        #[trigger] wids.contains(wid) && r.windows.contains_key(wid)) by {
        if exists|g: int| 0 <= g < groups.len() && (#[trigger] groups[g]).contains(wid) {
            let g = choose|g: int| 0 <= g < groups.len() && (#[trigger] groups[g]).contains(wid);
            lemma_in_pile(sheets, piles[g], wid);
            let i = choose|i: int|
                0 <= i < sheets.len() && (#[trigger] sheets[i]).pile == piles[g] && sheets[i].wid
                    == wid;
            assert(wids.contains(sheets[i].wid));
        }
        if wids.contains(wid) && r.windows.contains_key(wid) {
            let k = choose|k: int| 0 <= k < wids.len() && wids[k] == wid;
            assert(r.windows.contains_key(wids[k]));
            let i = choose|i: int| 0 <= i < sheets.len() && (#[trigger] sheets[i]).wid == wids[k];
            law_piles_keep_windows(sheets, i);
            let g = choose|g: int| 0 <= g < piles.len() && piles[g] == sheets[i].pile;
            assert(groups[g] == windows_in(sheets, piles[g]));
            assert(groups[g].contains(wid));
        }
    }
    assert forall|g: int, h: int, v: WindowId, w: WindowId|
        0 <= g < groups.len() && 0 <= h < groups.len() && (#[trigger] groups[g].contains(v)) && (
        #[trigger] groups[h].contains(w)) implies (g == h <==> v.pid == w.pid && exists|
        home: Option<SpaceId>,
    | #[trigger] window_at_home(reply, r, v, home) && window_at_home(reply, r, w, home)) by {
        lemma_in_pile(sheets, piles[g], v);
        lemma_in_pile(sheets, piles[h], w);
        let i = choose|i: int|
            0 <= i < sheets.len() && (#[trigger] sheets[i]).pile == piles[g] && sheets[i].wid == v;
        let j = choose|j: int|
            0 <= j < sheets.len() && (#[trigger] sheets[j]).pile == piles[h] && sheets[j].wid == w;
        law_piles_keep_windows(sheets, i);
        assert(window_at_home(reply, r, v, piles[g].space));
        assert(window_at_home(reply, r, w, piles[h].space));
        if v.pid == w.pid && exists|home: Option<SpaceId>| #[trigger]
            window_at_home(reply, r, v, home) && window_at_home(reply, r, w, home) {
            let home = choose|home: Option<SpaceId>| #[trigger]
                window_at_home(reply, r, v, home) && window_at_home(reply, r, w, home);
            lemma_one_home(
                reply,
                r.screens,
                r.windows[v].frame_monotonic,
                home,
                piles[g].space,
            );
            lemma_one_home(
                reply,
                r.screens,
                r.windows[w].frame_monotonic,
                home,
                piles[h].space,
            );
            assert(piles[g] == piles[h]);
        }
    }
}

/// The places of the windows in the list that they were taken from go up.
proof fn lemma_sheet_places(
    r: Known,
    l: Log,
    wids: Seq<WindowId>,
    l2: Log,
    sheets: Seq<Sheet>,
) -> (places: Seq<int>)
    requires
        piled(r, l, wids, l2, sheets),
    ensures
        places.len() == sheets.len(),
        forall|i: int|
            0 <= i < sheets.len() ==> 0 <= #[trigger] places[i] < wids.len() && wids[places[i]]
                == sheets[i].wid,
        forall|i: int, j: int|
            0 <= i < j < places.len() ==> #[trigger] places[i] < #[trigger] places[j],
    decreases wids.len(),
{
    if wids.len() == 0 {
        Seq::empty()
    } else {
        let front = wids.drop_last();
        let (t, before) = choose|t: Log, before: Seq<Sheet>|
            piled(r, l, front, t, before) && #[trigger] pile_step(
                r,
                t,
                before,
                wids.last(),
                l2,
                sheets,
            );
        let places = lemma_sheet_places(r, l, front, t, before);
        if r.windows.contains_key(wids.last()) {
            places.push(wids.len() - 1)
        } else {
            places
        }
    }
}

/// The places of the members that are kept go up, and are all the places that there are.
proof fn lemma_kept_places<K>(list: Seq<K>, keep: spec_fn(K) -> bool) -> (places: Seq<int>)
    ensures
        places.len() == list.filter(keep).len(),
        forall|i: int|
            0 <= i < places.len() ==> 0 <= #[trigger] places[i] < list.len() && list[places[i]]
                == list.filter(keep)[i],
        forall|i: int, j: int|
            0 <= i < j < places.len() ==> #[trigger] places[i] < #[trigger] places[j],
        forall|k: int| 0 <= k < list.len() && keep(#[trigger] list[k]) ==> places.contains(k),
        forall|i: int| 0 <= i < places.len() ==> keep(list[#[trigger] places[i]]),
    decreases list.len(),
{
    reveal(Seq::filter);
    if list.len() == 0 {
        Seq::empty()
    } else {
        let front = list.drop_last();
        let before = lemma_kept_places(front, keep);
        let last = list.len() - 1;
        let places = if keep(list.last()) {
            before.push(last)
        } else {
            before
        };
        assert forall|k: int| 0 <= k < list.len() && keep(#[trigger] list[k]) implies places.contains(
            k,
        ) by {
            if k < last {
                assert(keep(front[k]));
                let i = choose|i: int| 0 <= i < before.len() && before[i] == k;
                assert(places[i] == k);
            } else {
                assert(places[places.len() - 1] == last);
            }
        }
        assert forall|i: int| 0 <= i < places.len() implies 0 <= #[trigger] places[i] < list.len()
            && list[places[i]] == list.filter(keep)[i] && keep(list[places[i]]) by {
            if i < before.len() {
                assert(places[i] == before[i]);
                assert(front[before[i]] == list[before[i]]);
            }
        }
        places
    }
}

/// What comes first in a list comes first where each is named once. The result is a place of
/// the one that comes first, with the other nowhere before it.
proof fn lemma_first_named_first<K>(list: Seq<K>, p: int, q: int) -> (at: int)
    requires
        0 <= p < q < each_once(list).len(),
    ensures
        0 <= at < list.len(),
        list[at] == each_once(list)[p],
        forall|b: int| 0 <= b <= at ==> #[trigger] list[b] != each_once(list)[q],
    decreases list.len(),
{
    let front = list.drop_last();
    let before = each_once(front);
    if q < before.len() {
        let at = lemma_first_named_first(front, p, q);
        assert forall|b: int| 0 <= b <= at implies #[trigger] list[b] != each_once(list)[q] by {
            assert(front[b] != before[q]);
        }
        at
    } else {
        lemma_each_once_members(front, before[p]);
        assert(before.contains(before[p]));
        let at = choose|at: int| 0 <= at < front.len() && front[at] == before[p];
        lemma_each_once_members(front, list.last());
        assert forall|b: int| 0 <= b <= at implies #[trigger] list[b] != each_once(list)[q] by {
            assert(front.contains(front[b]));
        }
        at
    }
}

/// Windows are raised in the order in which they are named: within a group, and the groups by
/// the windows that they begin with.
#[verifier::rlimit(60)]
pub proof fn law_windows_are_raised_in_order(
    r: Known,
    l: Log,
    response: Response,
    from_mouse: bool,
    l2: Log,
    p: int,
    q: int,
    i: int,
    j: int,
)
    requires
        raised(r, l, response, from_mouse, l2),
        response.raise.len() > 0,
    ensures
        l2.len() > l.len(),
        l2.last().req is Raise,
        ({
            let groups = l2.last().req->Raise_0.raise_windows;
            let wids = response.raise;
            &&& 0 <= p < groups.len() && 0 <= i < j < groups[p].len() ==> exists|a: int, b: int|
                0 <= a < b < wids.len() && #[trigger] wids[a] == groups[p][i] && #[trigger] wids[b]
                    == groups[p][j]
            &&& 0 <= p < q < groups.len() ==> groups[p].len() > 0 && groups[q].len() > 0 && exists|
                a: int,
                b: int,
            |
                0 <= a < b < wids.len() && #[trigger] wids[a] == groups[p][0] && #[trigger] wids[b]
                    == groups[q][0]
        }),
{
    let wids = response.raise;
    let (t, sheets) = choose|t: Log, sheets: Seq<Sheet>| #[trigger]
        piled(r, l, response.raise, t, sheets) && request_sent(
            r,
            t,
            response,
            sheets,
            from_mouse,
            l2,
        );
    lemma_piled_grows(r, l, wids, t, sheets);
    let groups = by_pile(sheets);
    assert(l2.last().req->Raise_0.raise_windows == groups);
    let at = lemma_sheet_places(r, l, wids, t, sheets);
    let piles = piles_of(sheets);
    let all = sheets.map_values(|sheet: Sheet| sheet.pile);
    if 0 <= p < groups.len() {
        let keep = |sheet: Sheet| sheet.pile == piles[p];
        let places = lemma_kept_places(sheets, keep);
        assert(groups[p] == windows_in(sheets, piles[p]));
        if 0 <= i < j < groups[p].len() {
            let a = at[places[i]];
            let b = at[places[j]];
            assert(sheets[places[i]] == sheets.filter(keep)[i]);
            assert(sheets[places[j]] == sheets.filter(keep)[j]);
            assert(places[i] < places[j]);
            assert(wids[a] == groups[p][i] && wids[b] == groups[p][j]);
        }
        if p < q < groups.len() {
            let also = |sheet: Sheet| sheet.pile == piles[q];
            let others = lemma_kept_places(sheets, also);
            assert(groups[q] == windows_in(sheets, piles[q]));
            let k = lemma_first_named_first(all, p, q);
            assert(keep(sheets[k]));
            assert(places.contains(k));
            let x = choose|x: int| 0 <= x < places.len() && places[x] == k;
            assert(places[0] <= k) by {
                if x > 0 {
                    assert(places[0] < places[x]);
                }
            }
            lemma_each_once_members(all, piles[q]);
            assert(piles.contains(piles[q]));
            let y = choose|y: int| 0 <= y < all.len() && all[y] == piles[q];
            assert(also(sheets[y]));
            assert(others.contains(y));
            assert(others.len() > 0);
            assert(also(sheets[others[0]]));
            assert(all[others[0]] == piles[q]);
            assert(others[0] > k);
            let a = at[places[0]];
            let b = at[others[0]];
            assert(sheets[places[0]] == sheets.filter(keep)[0]);
            assert(sheets[others[0]] == sheets.filter(also)[0]);
            assert(wids[a] == groups[p][0] && wids[b] == groups[q][0]);
        }
    }
}

} // verus!
