//! The windows that a walk through the layout tree comes by.

use vstd::prelude::*;

use crate::ids::{NodeId, WindowId};
use crate::link::{ask_each, grew, LayoutHost, Link, Log, Req};

verus! {

/// The questions which windows the nodes stand for.
pub open spec fn window_questions(nodes: Seq<NodeId>) -> Seq<Req> {
    nodes.map_values(|node: NodeId| Req::WindowAt(node))
}

/// The windows that the `n` answers from `start` on name, in order. Nodes that stand
/// for no window are passed over.
pub open spec fn windows_named(answers: Log, start: int, n: nat) -> Seq<WindowId>
    decreases n,
{
    if n == 0 {
        Seq::empty()
    } else {
        let before = windows_named(answers, start, (n - 1) as nat);
        match answers[start + n - 1].rep->MaybeWindow_0 {
            Some(wid) => before.push(wid),
            None => before,
        }
    }
}

/// What was named does not depend on what is asked later.
pub proof fn lemma_named_stays(log: Log, whole: Log, start: int, n: nat)
    requires
        grew(log, whole),
        0 <= start,
        start + n <= log.len(),
    ensures
        windows_named(log, start, n) == windows_named(whole, start, n),
    decreases n,
{
    if n > 0 {
        lemma_named_stays(log, whole, start, (n - 1) as nat);
        assert(whole[start + n - 1] == log[start + n - 1]);
    }
}

/// The windows that the nodes stand for, in order.
pub(crate) fn windows_at<H: LayoutHost>(link: &mut Link<H>, nodes: &Vec<NodeId>) -> (wids: Vec<
    WindowId,
>)
    ensures
        final(link).log() == ask_each(
            old(link).log(),
            final(link).log(),
            window_questions(nodes@),
        ),
        wids@ == windows_named(
            final(link).log(),
            old(link).log().len() as int,
            nodes@.len(),
        ),
        grew(old(link).log(), final(link).log()),
{
    let ghost l = link.log();
    let ghost reqs = window_questions(nodes@);
    let mut wids: Vec<WindowId> = Vec::new();
    let mut i: usize = 0;
    assert(link.log() =~= ask_each(l, link.log(), reqs.take(0)));
    while i < nodes.len()
        invariant
            i <= nodes@.len(),
            reqs == window_questions(nodes@),
            link.log() == ask_each(l, link.log(), reqs.take(i as int)),
            wids@ == windows_named(link.log(), l.len() as int, i as nat),
            grew(l, link.log()),
        decreases nodes@.len() - i,
    {
        let ghost before = link.log();
        let wid = link.window_at(nodes[i]);
        proof {
            lemma_named_stays(before, link.log(), l.len() as int, i as nat);
            assert(link.log() =~= ask_each(l, link.log(), reqs.take(i + 1)));
        }
        if let Some(wid) = wid {
            wids.push(wid);
        }
        i += 1;
    }
    assert(reqs.take(i as int) =~= reqs);
    wids
}

} // verus!
