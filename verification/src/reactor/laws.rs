//! What holds of the reactor over several events.

use vstd::prelude::*;

use crate::collections::each_once;
use crate::ids::{Frame, SpaceId, WindowId, WindowServerId};
use crate::link::{ask, Log, Req};
use crate::messages::{TransactionId, WindowMove};
use crate::reactor::discovery::{
    discovered, findings_told, has_main, main_told, screen_told, screens_told, windows_found,
    windows_noted, FoundView,
};
use crate::reactor::event::{Event, MouseState, Requested, WindowInfo, WindowServerInfo};
use crate::reactor::handler::{event_answered, event_taken, settled};
use crate::reactor::outcome::Outcome;
use crate::reactor::placement::{
    frames_applied, layout_applied, place_step, placed, screen_step, screens_laid_out,
};
use crate::reactor::raising::{by_pile, mouse_jumps, piles_of, windows_in, Pile, Sheet};
use crate::reactor::screens::{best_screen, area_on};
use crate::reactor::spaces::space_changed;
use crate::reactor::state::{next_number, Known, Screen, WindowState};
use crate::reactor::visible::{response_filtered, same_windows, shown_now, spared};
use crate::response::{nothing, Response};

verus! {

/// A read of a frame from before the last write, and a change that the reactor asked
/// for, change nothing: no window, no layout, and nothing is sent.
pub proof fn law_stale_reads_change_nothing(
    r: Known,
    l: Log,
    wid: WindowId,
    frame: Frame,
    last_seen: TransactionId,
    requested: Requested,
    mouse: Option<MouseState>,
    raised_window: Option<WindowId>,
    main_window: Option<WindowId>,
    r2: Known,
    l2: Log,
)
    requires
        r.windows.contains_key(wid),
        last_seen != r.windows[wid].last_sent_txid || requested.0,
        event_answered(
            r,
            l,
            Event::WindowFrameChanged(wid, frame, last_seen, requested, mouse),
            raised_window,
            main_window,
            r2,
            l2,
        ),
    ensures
        r2 == (Known { main: main_window, ..r }),
        l2 == l,
{
}

/// While something is being dragged, the layout is not brought up to date.
pub proof fn law_no_layout_while_dragging(
    r: Known,
    l: Log,
    new: Option<WindowId>,
    is_resize: bool,
    r2: Known,
    l2: Log,
)
    requires
        r.in_drag,
        settled(r, l, None, Outcome::Settle { new, is_resize }, r2, l2),
    ensures
        r2 == r,
        l2 == l,
{
}

/// Writes are numbered one after the other: no two in a row have the same number.
pub proof fn law_writes_are_told_apart(txid: TransactionId)
    ensures
        next_number(txid) != txid,
{
}

/// The last of the moves that is about `wid`.
pub open spec fn last_move(moves: Seq<WindowMove>, wid: WindowId) -> Option<WindowMove>
    decreases moves.len(),
{
    if moves.len() == 0 {
        None
    } else if moves.last().wid == wid {
        Some(moves.last())
    } else {
        last_move(moves.drop_last(), wid)
    }
}

/// A window is known to be where the last of the moves puts it, under the number of
/// that move; without a move it is as it was.
pub open spec fn write_known(r: Known, r2: Known, moves: Seq<WindowMove>, wid: WindowId) -> bool {
    &&& r2.windows.contains_key(wid) == r.windows.contains_key(wid)
    &&& r.windows.contains_key(wid) ==> r2.windows[wid] == match last_move(moves, wid) {
        Some(m) => WindowState {
            frame_monotonic: m.to,
            last_sent_txid: m.txid,
            ..r.windows[wid]
        },
        None => r.windows[wid],
    }
}

proof fn lemma_place_step_known(
    r0: Known,
    r: Known,
    l: Log,
    screen: Screen,
    new_wids: Seq<WindowId>,
    moves: Seq<WindowMove>,
    entry: (WindowId, Frame),
    r2: Known,
    l2: Log,
    moves2: Seq<WindowMove>,
    wid: WindowId,
)
    requires
        place_step(r, l, screen, new_wids, moves, entry, r2, l2, moves2),
        write_known(r0, r, moves, wid),
    ensures
        write_known(r0, r2, moves2, wid),
{
    if moves2 != moves {
        assert(moves2.drop_last() =~= moves);
    }
}

proof fn lemma_placed_known(
    r0: Known,
    r: Known,
    l: Log,
    screen: Screen,
    new_wids: Seq<WindowId>,
    moves: Seq<WindowMove>,
    frames: Seq<(WindowId, Frame)>,
    r2: Known,
    l2: Log,
    moves2: Seq<WindowMove>,
    wid: WindowId,
)
    requires
        placed(r, l, screen, new_wids, moves, frames, r2, l2, moves2),
        write_known(r0, r, moves, wid),
    ensures
        write_known(r0, r2, moves2, wid),
    decreases frames.len(),
{
    if frames.len() > 0 {
        let (m, t, before) = choose|m: Known, t: Log, before: Seq<WindowMove>|
            {
                &&& placed(r, l, screen, new_wids, moves, frames.drop_last(), m, t, before)
                &&& #[trigger] place_step(
                    m,
                    t,
                    screen,
                    new_wids,
                    before,
                    frames.last(),
                    r2,
                    l2,
                    moves2,
                )
            };
        lemma_placed_known(
            r0,
            r,
            l,
            screen,
            new_wids,
            moves,
            frames.drop_last(),
            m,
            t,
            before,
            wid,
        );
        lemma_place_step_known(
            r0,
            m,
            t,
            screen,
            new_wids,
            before,
            frames.last(),
            r2,
            l2,
            moves2,
            wid,
        );
    }
}

proof fn lemma_screen_step_known(
    r0: Known,
    r: Known,
    l: Log,
    screen: Screen,
    new_wids: Seq<WindowId>,
    hold: bool,
    moves: Seq<WindowMove>,
    r2: Known,
    l2: Log,
    moves2: Seq<WindowMove>,
    wid: WindowId,
)
    requires
        screen_step(r, l, screen, new_wids, hold, moves, r2, l2, moves2),
        write_known(r0, r, moves, wid),
    ensures
        write_known(r0, r2, moves2, wid),
{
    if let Some(space) = screen.space {
        assert forall|m: Known, t: Log|
            #[trigger] layout_applied(m, t, space, screen, new_wids, moves, r2, l2, moves2)
                && write_known(r0, m, moves, wid) implies write_known(r0, r2, moves2, wid) by {
            let (t1, frames, groups) = choose|
                t1: Log,
                frames: Seq<(WindowId, Frame)>,
                groups: Seq<crate::ids::GroupBar>,
            |
                {
                    &&& #[trigger] crate::layout::viewport::frames_and_groups_shown(
                        m.layout,
                        t,
                        space,
                        screen.frame,
                        m.config.id,
                        t1,
                        frames,
                        groups,
                    )
                    &&& frames_applied(
                        m,
                        t1,
                        space,
                        screen,
                        new_wids,
                        moves,
                        frames,
                        groups,
                        r2,
                        l2,
                        moves2,
                    )
                };
            let t2 = ask(t1, l2, Req::GroupsUpdated(space, groups));
            lemma_placed_known(
                r0,
                m,
                t2,
                screen,
                new_wids,
                moves,
                frames,
                r2,
                l2,
                moves2,
                wid,
            );
        }
    }
}

/// What is known of a window always includes the last write: after the screens were
/// laid out, every window that was moved is known to be where it was last sent, under
/// the number of that write, and every other is known as before.
pub proof fn law_last_write_is_known(
    r: Known,
    l: Log,
    screens: Seq<Screen>,
    new_wids: Seq<WindowId>,
    hold: bool,
    r2: Known,
    l2: Log,
    moves: Seq<WindowMove>,
    wid: WindowId,
)
    requires
        screens_laid_out(r, l, screens, new_wids, hold, r2, l2, moves),
    ensures
        write_known(r, r2, moves, wid),
    decreases screens.len(),
{
    if screens.len() > 0 {
        let (m, t, before) = choose|m: Known, t: Log, before: Seq<WindowMove>|
            {
                &&& screens_laid_out(r, l, screens.drop_last(), new_wids, hold, m, t, before)
                &&& #[trigger] screen_step(
                    m,
                    t,
                    screens.last(),
                    new_wids,
                    hold,
                    before,
                    r2,
                    l2,
                    moves,
                )
            };
        law_last_write_is_known(
            r,
            l,
            screens.drop_last(),
            new_wids,
            hold,
            m,
            t,
            before,
            wid,
        );
        lemma_screen_step_known(
            r,
            m,
            t,
            screens.last(),
            new_wids,
            hold,
            before,
            r2,
            l2,
            moves,
            wid,
        );
    }
}

/// A read that was made before a write is ignored after it: the write has given the
/// window another number.
pub proof fn law_read_before_write_is_ignored(
    r: Known,
    l: Log,
    screen: Screen,
    new_wids: Seq<WindowId>,
    moves: Seq<WindowMove>,
    wid: WindowId,
    target: Frame,
    r2: Known,
    l2: Log,
    moves2: Seq<WindowMove>,
    frame: Frame,
    mouse: Option<MouseState>,
    main_window: Option<WindowId>,
    r3: Known,
    l3: Log,
)
    requires
        place_step(r, l, screen, new_wids, moves, (wid, target), r2, l2, moves2),
        moves2 != moves,
        event_answered(
            r2,
            l2,
            Event::WindowFrameChanged(
                wid,
                frame,
                r.windows[wid].last_sent_txid,
                Requested(false),
                mouse,
            ),
            None,
            main_window,
            r3,
            l3,
        ),
    ensures
        r3 == (Known { main: main_window, ..r2 }),
        l3 == l2,
{
    law_writes_are_told_apart(r.windows[wid].last_sent_txid);
    law_stale_reads_change_nothing(
        r2,
        l2,
        wid,
        frame,
        r.windows[wid].last_sent_txid,
        Requested(false),
        mouse,
        None,
        main_window,
        r3,
        l3,
    );
}

/// A response is passed on whole or not at all.
pub proof fn law_filter_is_all_or_nothing(
    r: Known,
    l: Log,
    response: Response,
    order: Seq<WindowServerId>,
    l2: Log,
    left: Response,
)
    requires
        response_filtered(r, l, response, order, l2, left),
    ensures
        left == response || left == nothing(),
{
}

/// Whether a response is dropped does not depend on the order in which the windows
/// are on top, nor on the order in which they are wanted there.
pub proof fn law_filter_ignores_order(
    response: Response,
    wanted: Seq<WindowServerId>,
    wanted2: Seq<WindowServerId>,
    top: Seq<WindowServerId>,
    top2: Seq<WindowServerId>,
)
    requires
        same_windows(wanted, wanted2),
        same_windows(top, top2),
    ensures
        spared(response, wanted, top) == spared(response, wanted2, top2),
{
    if same_windows(top, wanted) {
        assert(same_windows(top2, wanted2));
    }
    if same_windows(top2, wanted2) {
        assert(same_windows(top, wanted));
    }
}

/// A response that wants a window focused that is not in front is passed on as it is.
pub proof fn law_filter_keeps_new_focus(
    r: Known,
    l: Log,
    response: Response,
    order: Seq<WindowServerId>,
    l2: Log,
    left: Response,
)
    requires
        response_filtered(r, l, response, order, l2, left),
        response.focus is Some,
        order.len() == 0 || response.focus->0.wsid != Some(order[0]),
    ensures
        left == response,
        l2 == l,
{
}

pub proof fn lemma_each_once_members<K>(list: Seq<K>, k: K)
    ensures
        each_once(list).no_duplicates(),
        each_once(list).contains(k) <==> list.contains(k),
    decreases list.len(),
{
    if list.len() > 0 {
        let front = list.drop_last();
        let last = list.last();
        lemma_each_once_members(front, k);
        lemma_each_once_members(front, last);
        assert(list =~= front.push(last));
        let once = each_once(front);
        if list.contains(k) {
            let i = choose|i: int| 0 <= i < list.len() && list[i] == k;
            if i < front.len() {
                assert(front[i] == k);
            }
        }
        if front.contains(k) {
            let i = choose|i: int| 0 <= i < front.len() && front[i] == k;
            assert(list[i] == k);
        }
        assert(list[list.len() - 1] == last);
        if !once.contains(last) {
            assert(each_once(list) == once.push(last));
            assert(each_once(list)[once.len() as int] == last);
            if once.contains(k) {
                let i = choose|i: int| 0 <= i < once.len() && once[i] == k;
                assert(each_once(list)[i] == k);
            }
            assert forall|i: int, j: int|
                0 <= i < each_once(list).len() && 0 <= j < each_once(list).len() && i != j implies each_once(
                list,
            )[i] != each_once(list)[j] by {
                if i < once.len() && j < once.len() {
                    assert(once[i] != once[j]);
                } else if i < once.len() {
                    assert(once.contains(once[i]));
                } else {
                    assert(once.contains(once[j]));
                }
            }
        }
    }
}

/// The windows on screen are those of the last list, complete and each once: none
/// stays from an earlier one.
pub proof fn law_visible_windows_are_replaced(
    r: Known,
    visible: Seq<WindowServerId>,
    infos: Seq<WindowServerInfo>,
    wsid: WindowServerId,
)
    ensures
        shown_now(r, visible, infos).visible.contains(wsid) <==> visible.contains(wsid),
        shown_now(r, visible, infos).visible.no_duplicates(),
{
    lemma_each_once_members(visible, wsid);
}

/// Windows are raised in piles by application and space: every window is in the pile
/// that is its own, no pile holds another's window, and there is one pile of each.
pub proof fn law_piles_keep_windows(sheets: Seq<Sheet>, i: int)
    requires
        0 <= i < sheets.len(),
    ensures
        piles_of(sheets).no_duplicates(),
        piles_of(sheets).contains(sheets[i].pile),
        windows_in(sheets, sheets[i].pile).contains(sheets[i].wid),
        by_pile(sheets).len() == piles_of(sheets).len(),
        forall|p: int| 0 <= p < piles_of(sheets).len() ==> #[trigger] by_pile(sheets)[p] == windows_in(
            sheets,
            piles_of(sheets)[p],
        ),
        forall|pile: Pile, wid: WindowId| #[trigger]
            windows_in(sheets, pile).contains(wid) ==> sheets.contains(Sheet { pile, wid }),
{
    let all = sheets.map_values(|sheet: Sheet| sheet.pile);
    assert(all[i] == sheets[i].pile);
    lemma_each_once_members(all, sheets[i].pile);
    lemma_pile_members(sheets, sheets[i].pile, sheets[i].wid);
    assert(sheets[i] == (Sheet { pile: sheets[i].pile, wid: sheets[i].wid }));
    assert forall|pile: Pile, wid: WindowId| #[trigger]
        windows_in(sheets, pile).contains(wid) implies sheets.contains(Sheet { pile, wid }) by {
        lemma_pile_members(sheets, pile, wid);
    }
}

proof fn lemma_pile_members(sheets: Seq<Sheet>, pile: Pile, wid: WindowId)
    ensures
        windows_in(sheets, pile).contains(wid) <==> sheets.contains(Sheet { pile, wid }),
    decreases sheets.len(),
{
    reveal(Seq::filter);
    if sheets.len() > 0 {
        let front = sheets.drop_last();
        let last = sheets.last();
        lemma_pile_members(front, pile, wid);
        assert(sheets =~= front.push(last));
        let here = windows_in(front, pile);
        let now = windows_in(sheets, pile);
        if last.pile == pile {
            assert(now =~= here.push(last.wid));
            assert(now[here.len() as int] == last.wid);
        } else {
            assert(now =~= here);
        }
        if sheets.contains(Sheet { pile, wid }) {
            let i = choose|i: int| 0 <= i < sheets.len() && sheets[i] == Sheet { pile, wid };
            if i < front.len() {
                assert(front[i] == Sheet { pile, wid });
                assert(here.contains(wid));
                let j = choose|j: int| 0 <= j < here.len() && here[j] == wid;
                assert(now[j] == wid);
            }
        }
        if now.contains(wid) {
            let j = choose|j: int| 0 <= j < now.len() && now[j] == wid;
            if j < here.len() {
                assert(here[j] == wid);
                assert(front.contains(Sheet { pile, wid }));
                let i = choose|i: int| 0 <= i < front.len() && front[i] == Sheet { pile, wid };
                assert(sheets[i] == Sheet { pile, wid });
            } else {
                assert(sheets[sheets.len() - 1] == Sheet { pile, wid });
            }
        }
    }
}

/// The screen of a window is one: the answers decide it.
pub proof fn law_best_screen_is_one(
    l: Log,
    screens: Seq<Screen>,
    frame: Frame,
    l2: Log,
    a: Option<usize>,
    b: Option<usize>,
)
    requires
        best_screen(l, screens, frame, l2, a),
        best_screen(l, screens, frame, l2, b),
    ensures
        a == b,
{
    if a is Some && b is Some && a != b {
        let start = l.len() as int;
        assert(area_on(l2, start, a->0 as int) <= area_on(l2, start, b->0 as int));
        assert(area_on(l2, start, b->0 as int) <= area_on(l2, start, a->0 as int));
    }
}

/// The mouse does not jump to a window that got the focus because of the mouse.
pub proof fn law_mouse_stays_where_it_leads(r: Known, focus: Option<WindowId>)
    ensures
        !mouse_jumps(r, focus, true),
{
}

/// A change of spaces that does not fit the screens leaves the screens, the layouts
/// and the drag as they are, and nothing is sent.
pub proof fn law_unfit_spaces_are_ignored(
    r: Known,
    l: Log,
    spaces: Seq<Option<SpaceId>>,
    visible: Seq<WindowServerId>,
    infos: Seq<WindowServerInfo>,
    r2: Known,
    l2: Log,
    outcome: Outcome,
)
    requires
        space_changed(r, l, spaces, visible, infos, r2, l2, outcome),
        spaces.len() != r.screens.len(),
    ensures
        r2.screens == r.screens,
        r2.layout == r.layout,
        r2.in_drag == r.in_drag,
        l2 == l,
        outcome == Outcome::Done,
{
}

/// What an application says of its windows takes nothing away: the windows that were
/// known stay known, and the windows on screen are those that the window server named.
pub proof fn law_discovery_loses_nothing(
    r: Known,
    l: Log,
    pid: i32,
    new: Seq<(WindowId, WindowInfo)>,
    r2: Known,
    l2: Log,
)
    requires
        discovered(r, l, pid, new, r2, l2),
    ensures
        r2.visible == r.visible,
        r2.screens == r.screens,
        forall|wid: WindowId|
            r.windows.contains_key(wid) ==> #[trigger] r2.windows.contains_key(wid),
        forall|i: int|
            0 <= i < new.len() ==> r2.windows.contains_key((#[trigger] new[i]).0),
{
    let noted = windows_noted(r, new);
    lemma_noted_grows(r, new);
    let (t, found) = choose|t: Log, found: Seq<FoundView>| #[trigger]
        windows_found(noted, l, pid, noted.visible, t, found) && findings_told(
            noted,
            t,
            pid,
            found,
            r2,
            l2,
        );
    let (m, t1, rest) = choose|m: Known, t1: Log, rest: Seq<FoundView>| #[trigger]
        screens_told(noted, t, pid, noted.screens, found, m, t1, rest) && main_told(
            m,
            t1,
            has_main(m, pid),
            r2,
            l2,
        );
    lemma_telling_keeps(noted, t, pid, noted.screens, found, m, t1, rest);
}

/// Windows that are noted add to those known, and change nothing else that is on screen.
proof fn lemma_noted_grows(r: Known, new: Seq<(WindowId, WindowInfo)>)
    ensures
        windows_noted(r, new).visible == r.visible,
        windows_noted(r, new).screens == r.screens,
        forall|wid: WindowId|
            r.windows.contains_key(wid) ==> #[trigger] windows_noted(r, new).windows.contains_key(
                wid,
            ),
        forall|i: int|
            0 <= i < new.len() ==> windows_noted(r, new).windows.contains_key(
                (#[trigger] new[i]).0,
            ),
    decreases new.len(),
{
    if new.len() > 0 {
        lemma_noted_grows(r, new.drop_last());
        assert forall|i: int| 0 <= i < new.len() implies windows_noted(r, new).windows.contains_key(
            (#[trigger] new[i]).0,
        ) by {
            if i < new.len() - 1 {
                assert(new.drop_last()[i] == new[i]);
            }
        }
    }
}

/// Telling the layout manager of windows changes what only that knows.
proof fn lemma_telling_keeps(
    r: Known,
    l: Log,
    pid: i32,
    screens: Seq<Screen>,
    found: Seq<FoundView>,
    r2: Known,
    l2: Log,
    rest: Seq<FoundView>,
)
    requires
        screens_told(r, l, pid, screens, found, r2, l2, rest),
    ensures
        r2 == (Known { layout: r2.layout, ..r }),
    decreases screens.len(),
{
    if screens.len() > 0 {
        let (m, t, left) = choose|m: Known, t: Log, left: Seq<FoundView>|
            screens_told(r, l, pid, screens.drop_last(), found, m, t, left)
                && #[trigger] screen_told(m, t, pid, screens.last(), left, r2, l2, rest);
        lemma_telling_keeps(r, l, pid, screens.drop_last(), found, m, t, left);
    }
}

/// A destroyed window is forgotten, and the mouse holds nothing.
pub proof fn law_destroyed_window_is_forgotten(
    r: Known,
    l: Log,
    wid: WindowId,
    r2: Known,
    l2: Log,
    outcome: Outcome,
)
    requires
        event_taken(r, l, Event::WindowDestroyed(wid), r2, l2, outcome),
    ensures
        r2.windows == r.windows.remove(wid),
        !r2.in_drag,
        r2.layout.resizing is None,
        r2.layout.moving is None,
{
}

} // verus!
