//! What the layout manager wants done with windows after an event.

use vstd::prelude::*;

use crate::ids::WindowId;

verus! {

/// Windows to raise, and one to focus.
#[must_use]
#[derive(Clone, Debug)]
pub struct EventResponse {
    /// Windows to raise quietly. No focus event will come of it.
    pub raise_windows: Vec<WindowId>,
    /// Window to focus. It is raised after the windows in `raise_windows`, and a
    /// focus event will come of it.
    pub focus_window: Option<WindowId>,
}

/// What an [`EventResponse`] says.
pub struct Response {
    pub raise: Seq<WindowId>,
    pub focus: Option<WindowId>,
}

impl View for EventResponse {
    type V = Response;

    open spec fn view(&self) -> Response {
        Response { raise: self.raise_windows@, focus: self.focus_window }
    }
}

/// The response that asks for nothing.
pub open spec fn nothing() -> Response {
    Response { raise: Seq::empty(), focus: None }
}

/// Both responses in one. There can be one window to focus: the first response
/// decides, and the other's is raised instead, after everything else.
pub open spec fn coalesced(first: Response, second: Response) -> Response {
    Response {
        raise: first.raise + second.raise + if first.focus is Some && second.focus is Some {
            seq![second.focus->0]
        } else {
            Seq::empty()
        },
        focus: if first.focus is Some {
            first.focus
        } else {
            second.focus
        },
    }
}

impl Default for EventResponse {
    fn default() -> (response: Self)
        ensures
            response@ == nothing(),
    {
        EventResponse { raise_windows: Vec::new(), focus_window: None }
    }
}

impl EventResponse {
    /// Joins two responses. The first decides which window to focus.
    pub fn coalesce(self, other: Self) -> (both: Self)
        ensures
            both@ == coalesced(self@, other@),
    {
        let mut raise_windows = self.raise_windows;
        let mut others = other.raise_windows;
        raise_windows.append(&mut others);
        let focus_window = match (self.focus_window, other.focus_window) {
            (Some(focus), Some(other_focus)) => {
                raise_windows.push(other_focus);
                Some(focus)
            },
            (None, Some(other_focus)) => Some(other_focus),
            (focus, None) => focus,
        };
        let both = EventResponse { raise_windows, focus_window };
        assert(both@.raise =~= coalesced(self@, other@).raise);
        both
    }
}

/// All windows of a response.
pub open spec fn windows_of(response: Response) -> vstd::multiset::Multiset<WindowId> {
    match response.focus {
        Some(wid) => response.raise.to_multiset().insert(wid),
        None => response.raise.to_multiset(),
    }
}

/// A response that asks for nothing changes nothing, on either side.
pub proof fn law_nothing_is_neutral(response: Response)
    ensures
        coalesced(response, nothing()) == response,
        coalesced(nothing(), response) == response,
{
    assert(coalesced(response, nothing()).raise =~= response.raise);
    assert(coalesced(nothing(), response).raise =~= response.raise);
}

/// Joining two responses loses no window and invents none.
pub proof fn law_coalesce_keeps_windows(first: Response, second: Response)
    ensures
        windows_of(coalesced(first, second)) == windows_of(first).add(windows_of(second)),
{
    broadcast use vstd::seq_lib::group_to_multiset_ensures;

    let both = first.raise + second.raise;
    vstd::seq_lib::lemma_multiset_commutative(first.raise, second.raise);
    if first.focus is Some && second.focus is Some {
        assert(coalesced(first, second).raise =~= both.push(second.focus->0));
    } else {
        assert(coalesced(first, second).raise =~= both);
    }
    assert(windows_of(coalesced(first, second)) =~= windows_of(first).add(windows_of(second)));
}

/// The first of two responses that asks for a focus decides. The windows of the first are
/// raised before those of the second, and the window that the second wanted focused, where the
/// first decides, is raised after all others.
pub proof fn law_first_focus_decides(first: Response, second: Response)
    ensures
        first.focus is Some ==> coalesced(first, second).focus == first.focus,
        first.focus is None ==> coalesced(first, second).focus == second.focus,
        first.focus is None || second.focus is None ==> coalesced(first, second).raise
            == first.raise + second.raise,
        first.focus is Some && second.focus is Some ==> coalesced(first, second).raise == (
        first.raise + second.raise).push(second.focus->0),
{
}

/// Of several responses, the first that asks for a focus decides, however they
/// are joined, and the same windows are raised.
pub proof fn law_coalesce_grouping(a: Response, b: Response, c: Response)
    ensures
        coalesced(coalesced(a, b), c).focus == coalesced(a, coalesced(b, c)).focus,
        windows_of(coalesced(coalesced(a, b), c)) == windows_of(coalesced(a, coalesced(b, c))),
{
    law_coalesce_keeps_windows(a, b);
    law_coalesce_keeps_windows(coalesced(a, b), c);
    law_coalesce_keeps_windows(b, c);
    law_coalesce_keeps_windows(a, coalesced(b, c));
    assert(windows_of(coalesced(coalesced(a, b), c)) =~= windows_of(
        coalesced(a, coalesced(b, c)),
    ));
}

} // verus!
