//! What sparing requests to raise windows is for.
//!
//! `reply` is how the host answers while an event is handled.

use vstd::prelude::*;

use crate::collections::with;
use crate::deeds::{deeds, group_deeds, lemma_reply, lemma_reply_part};
use crate::ids::{Frame, Real, WindowId, WindowServerId};
use crate::layout::event_laws::lemma_with;
use crate::link::{answer, answered_by, ask, grew, Log, Rep, Req};
use crate::reactor::state::{Known, Screen};
use crate::reactor::visible::{
    counts, held_against, no_overlap, on_top, overlap_at, overlap_tried, raised_already,
    response_filtered, same_windows, shown_id, spared, top_step, wanted_on_top, wanted_step,
};
use crate::response::{nothing, Response};

verus! {

/// Whether some of a frame is on a screen that has a space: what they have in common has a
/// width and a height above zero.
pub open spec fn overlaps(reply: spec_fn(Req) -> Rep, screen: Screen, frame: Frame) -> bool {
    let common = reply(Req::Intersection(screen.frame, frame))->Rect_0;
    &&& screen.space is Some
    &&& reply(Req::Less(Real(0), common.size.width))->Flag_0
    &&& reply(Req::Less(Real(0), common.size.height))->Flag_0
}

/// Whether a window is an ordinary one, on the bottom layer, and some of it is on a screen that
/// has a space.
pub open spec fn is_managed(reply: spec_fn(Req) -> Rep, r: Known, id: WindowServerId) -> bool {
    &&& r.server_info.contains_key(id)
    &&& r.server_info[id].layer == 0
    &&& exists|i: int|
        0 <= i < r.screens.len() && overlaps(
            reply,
            #[trigger] r.screens[i],
            r.server_info[id].frame,
        )
}

proof fn lemma_tried(
    l: Log,
    screen: Screen,
    frame: Frame,
    l2: Log,
    found: bool,
    reply: spec_fn(Req) -> Rep,
    from: int,
)
    requires
        overlap_tried(l, screen, frame, l2, found),
        0 <= from <= l.len(),
    ensures
        grew(l, l2),
        deeds(l2, from) == deeds(l, from),
        answered_by(reply, l2, from) ==> found == overlaps(reply, screen, frame),
{
    broadcast use group_deeds;

    if screen.space is Some && answered_by(reply, l2, from) {
        let q1 = Req::Intersection(screen.frame, frame);
        let t1 = ask(l, l2, q1);
        let size = answer(t1)->Rect_0.size;
        let q2 = Req::Less(Real(0), size.width);
        let t2 = ask(t1, l2, q2);
        if answer(t2)->Flag_0 {
            lemma_reply(reply, t2, l2, Req::Less(Real(0), size.height), from);
        }
        lemma_reply(reply, t1, l2, q2, from);
        lemma_reply(reply, l, l2, q1, from);
    }
}

proof fn lemma_nowhere(
    l: Log,
    screens: Seq<Screen>,
    frame: Frame,
    l2: Log,
    reply: spec_fn(Req) -> Rep,
    from: int,
)
    requires
        no_overlap(l, screens, frame, l2),
        0 <= from <= l.len(),
    ensures
        grew(l, l2),
        deeds(l2, from) == deeds(l, from),
        answered_by(reply, l2, from) ==> forall|i: int|
            0 <= i < screens.len() ==> !overlaps(reply, #[trigger] screens[i], frame),
    decreases screens.len(),
{
    if screens.len() > 0 {
        let front = screens.drop_last();
        let t = choose|t: Log|
            no_overlap(l, front, frame, t) && #[trigger] overlap_tried(
                t,
                screens.last(),
                frame,
                l2,
                false,
            );
        lemma_nowhere(l, front, frame, t, reply, from);
        lemma_tried(t, screens.last(), frame, l2, false, reply, from);
        if answered_by(reply, l2, from) {
            lemma_reply_part(reply, t, l2, from);
            assert forall|i: int| 0 <= i < screens.len() implies !overlaps(
                reply,
                #[trigger] screens[i],
                frame,
            ) by {
                if i < front.len() {
                    assert(front[i] == screens[i]);
                }
            }
        }
    }
}

proof fn lemma_counted(
    r: Known,
    l: Log,
    id: WindowServerId,
    l2: Log,
    yes: bool,
    reply: spec_fn(Req) -> Rep,
    from: int,
)
    requires
        counts(r, l, id, l2, yes),
        0 <= from <= l.len(),
    ensures
        grew(l, l2),
        deeds(l2, from) == deeds(l, from),
        answered_by(reply, l2, from) ==> yes == is_managed(reply, r, id),
{
    if r.server_info.contains_key(id) && r.server_info[id].layer == 0 {
        let frame = r.server_info[id].frame;
        if yes {
            let n = choose|n: int| #[trigger] overlap_at(l, r.screens, frame, n, l2);
            let t = choose|t: Log| #[trigger]
                no_overlap(l, r.screens.take(n), frame, t) && overlap_tried(
                    t,
                    r.screens[n],
                    frame,
                    l2,
                    true,
                );
            lemma_nowhere(l, r.screens.take(n), frame, t, reply, from);
            lemma_tried(t, r.screens[n], frame, l2, true, reply, from);
        } else {
            lemma_nowhere(l, r.screens, frame, l2, reply, from);
        }
    }
}

/// Whether a window that is wanted on top is known, on screen, and managed, and has the given
/// number.
pub open spec fn is_wanted_as(
    reply: spec_fn(Req) -> Rep,
    r: Known,
    wid: WindowId,
    id: WindowServerId,
) -> bool {
    &&& r.windows.contains_key(wid)
    &&& r.windows[wid].window_server_id == Some(id)
    &&& r.visible.contains(id)
    &&& is_managed(reply, r, id)
}

proof fn lemma_wanted(
    r: Known,
    l: Log,
    wids: Seq<WindowId>,
    l2: Log,
    ids: Seq<WindowServerId>,
    reply: spec_fn(Req) -> Rep,
    from: int,
)
    requires
        wanted_on_top(r, l, wids, l2, ids),
        0 <= from <= l.len(),
    ensures
        grew(l, l2),
        deeds(l2, from) == deeds(l, from),
        ids.no_duplicates(),
        answered_by(reply, l2, from) ==> forall|id: WindowServerId| #[trigger]
            ids.contains(id) <==> exists|i: int|
                0 <= i < wids.len() && is_wanted_as(reply, r, #[trigger] wids[i], id),
    decreases wids.len(),
{
    if wids.len() > 0 {
        let front = wids.drop_last();
        let wid = wids.last();
        let (t, before) = choose|t: Log, before: Seq<WindowServerId>|
            wanted_on_top(r, l, front, t, before) && #[trigger] wanted_step(
                r,
                t,
                before,
                wid,
                l2,
                ids,
            );
        lemma_wanted(r, l, front, t, before, reply, from);
        if let Some(wsid) = shown_id(r, wid) {
            if counts(r, t, wsid, l2, true) && ids == with(before, wsid) {
                lemma_counted(r, t, wsid, l2, true, reply, from);
                lemma_with(before, wsid);
            } else {
                lemma_counted(r, t, wsid, l2, false, reply, from);
            }
        }
        if answered_by(reply, l2, from) {
            lemma_reply_part(reply, t, l2, from);
            assert forall|id: WindowServerId| #[trigger] ids.contains(id) <==> exists|i: int|
                0 <= i < wids.len() && is_wanted_as(reply, r, #[trigger] wids[i], id) by {
                assert(wids[wids.len() - 1] == wid);
                if before.contains(id) {
                    let i = choose|i: int|
                        0 <= i < front.len() && is_wanted_as(reply, r, #[trigger] front[i], id);
                    assert(wids[i] == front[i]);
                }
                if exists|i: int|
                    0 <= i < wids.len() && is_wanted_as(reply, r, #[trigger] wids[i], id) {
                    let i = choose|i: int|
                        0 <= i < wids.len() && is_wanted_as(reply, r, #[trigger] wids[i], id);
                    if i < front.len() {
                        assert(front[i] == wids[i]);
                        assert(before.contains(id));
                    }
                }
            }
        }
    }
}

/// The windows of an order that are managed.
pub open spec fn managed_of(
    reply: spec_fn(Req) -> Rep,
    r: Known,
    order: Seq<WindowServerId>,
) -> Seq<WindowServerId>
    decreases order.len(),
{
    if order.len() == 0 {
        Seq::empty()
    } else {
        let before = managed_of(reply, r, order.drop_last());
        if is_managed(reply, r, order.last()) {
            before.push(order.last())
        } else {
            before
        }
    }
}

/// The first `n` of a list, or all where there are fewer.
pub open spec fn first_of<K>(list: Seq<K>, n: nat) -> Seq<K> {
    if list.len() <= n {
        list
    } else {
        list.take(n as int)
    }
}

proof fn lemma_on_top(
    r: Known,
    l: Log,
    order: Seq<WindowServerId>,
    n: nat,
    l2: Log,
    ids: Seq<WindowServerId>,
    reply: spec_fn(Req) -> Rep,
    from: int,
)
    requires
        on_top(r, l, order, n, l2, ids),
        0 <= from <= l.len(),
    ensures
        grew(l, l2),
        deeds(l2, from) == deeds(l, from),
        answered_by(reply, l2, from) ==> ids == first_of(managed_of(reply, r, order), n),
    decreases order.len(),
{
    if order.len() > 0 {
        let front = order.drop_last();
        let last = order.last();
        let (t, before) = choose|t: Log, before: Seq<WindowServerId>|
            on_top(r, l, front, n, t, before) && #[trigger] top_step(
                r,
                t,
                before,
                last,
                n,
                l2,
                ids,
            );
        lemma_on_top(r, l, front, n, t, before, reply, from);
        let earlier = managed_of(reply, r, front);
        if before.len() >= n {
            if answered_by(reply, l2, from) {
                lemma_reply_part(reply, t, l2, from);
                assert(first_of(earlier.push(last), n) =~= first_of(earlier, n));
            }
        } else {
            if counts(r, t, last, l2, true) && ids == before.push(last) {
                lemma_counted(r, t, last, l2, true, reply, from);
            } else {
                lemma_counted(r, t, last, l2, false, reply, from);
            }
            if answered_by(reply, l2, from) {
                lemma_reply_part(reply, t, l2, from);
            }
        }
    }
}

/// A response that would change nothing on screen asks for nothing, and any other is passed on
/// as it is. The windows to raise are held against as many windows on top, both as far as
/// they are managed: `wanted` and `top`. A window to focus has to be the foremost, and the
/// windows to raise come below it.
pub proof fn law_request_is_spared_where_nothing_changes(
    r: Known,
    l: Log,
    response: Response,
    order: Seq<WindowServerId>,
    l2: Log,
    left: Response,
    wanted: Seq<WindowServerId>,
    top: Seq<WindowServerId>,
    reply: spec_fn(Req) -> Rep,
)
    requires
        response_filtered(r, l, response, order, l2, left),
        answered_by(reply, l2, l.len() as int),
        wanted.no_duplicates(),
        forall|id: WindowServerId| #[trigger]
            wanted.contains(id) <==> exists|i: int|
                0 <= i < response.raise.len() && is_wanted_as(
                    reply,
                    r,
                    #[trigger] response.raise[i],
                    id,
                ),
        top == first_of(
            managed_of(
                reply,
                r,
                if response.focus is Some {
                    order.skip(1)
                } else {
                    order
                },
            ),
            wanted.len(),
        ),
    ensures
        deeds(l2, l.len() as int) == Seq::<Req>::empty(),
        left == if (response.focus is None || (order.len() > 0 && response.focus->0.wsid == Some(
            order[0],
        ))) && (forall|id: WindowServerId| #[trigger] top.contains(id) <==> wanted.contains(id)) {
            nothing()
        } else {
            response
        },
{
    broadcast use group_deeds;

    let n = l.len() as int;
    let below = if response.focus is Some {
        order.skip(1)
    } else {
        order
    };
    if response.focus is None || (order.len() > 0 && response.focus->0.wsid == Some(order[0])) {
        assert(raised_already(r, l, response, below, l2, left));
        let (t, ids) = choose|t: Log, ids: Seq<WindowServerId>| #[trigger]
            wanted_on_top(r, l, response.raise, t, ids) && held_against(
                r,
                t,
                response,
                ids,
                below,
                l2,
                left,
            );
        let found = choose|found: Seq<WindowServerId>| #[trigger]
            on_top(r, t, below, ids.len(), l2, found) && left == spared(response, ids, found);
        lemma_wanted(r, l, response.raise, t, ids, reply, n);
        lemma_on_top(r, t, below, ids.len(), l2, found, reply, n);
        lemma_reply_part(reply, t, l2, n);
        lemma_wanted(r, l, response.raise, t, ids, reply, n);
        assert forall|id: WindowServerId| #[trigger] ids.contains(id) <==> wanted.contains(id) by {}
        lemma_same_length(ids, wanted);
        assert(found == top);
        if same_windows(found, ids) {
            assert forall|id: WindowServerId| #[trigger] top.contains(id) <==> wanted.contains(
                id,
            ) by {
                assert(ids.contains(id) == wanted.contains(id));
            }
        } else if forall|id: WindowServerId| #[trigger] top.contains(id) <==> wanted.contains(id) {
            assert forall|id: WindowServerId| #[trigger] ids.contains(id) implies found.contains(
                id,
            ) by {
                assert(top.contains(id) == wanted.contains(id));
            }
            assert forall|id: WindowServerId| #[trigger] found.contains(id) implies ids.contains(
                id,
            ) by {
                assert(top.contains(id) == wanted.contains(id));
                assert(ids.contains(id) == wanted.contains(id));
            }
            assert(same_windows(found, ids));
        }
    }
}

/// Filtering a response only adds to the record.
pub proof fn lemma_filtered_grows(
    r: Known,
    l: Log,
    response: Response,
    order: Seq<WindowServerId>,
    l2: Log,
    left: Response,
)
    requires
        response_filtered(r, l, response, order, l2, left),
    ensures
        grew(l, l2),
{
    let below = if response.focus is Some {
        order.skip(1)
    } else {
        order
    };
    let any = |req: Req| Rep::Unit;
    if response.focus is None || (order.len() > 0 && response.focus->0.wsid == Some(order[0])) {
        let (t, ids) = choose|t: Log, ids: Seq<WindowServerId>| #[trigger]
            wanted_on_top(r, l, response.raise, t, ids) && held_against(
                r,
                t,
                response,
                ids,
                below,
                l2,
                left,
            );
        let found = choose|found: Seq<WindowServerId>| #[trigger]
            on_top(r, t, below, ids.len(), l2, found) && left == spared(response, ids, found);
        lemma_wanted(r, l, response.raise, t, ids, any, 0);
        lemma_on_top(r, t, below, ids.len(), l2, found, any, 0);
    }
}

/// Two lists that name the same, each once, are of the same length.
proof fn lemma_same_length<K>(a: Seq<K>, b: Seq<K>)
    requires
        a.no_duplicates(),
        b.no_duplicates(),
        forall|k: K| #[trigger] a.contains(k) <==> b.contains(k),
    ensures
        a.len() == b.len(),
{
    a.unique_seq_to_set();
    b.unique_seq_to_set();
    assert(a.to_set() =~= b.to_set());
}

} // verus!
