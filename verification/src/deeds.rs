//! What was done, as against what was only asked.

use vstd::prelude::*;

use crate::link::{answer, answered_by, ask, ask_each, grew, is_sum, Call, Log, Rep, Req};

verus! {

/// Whether a request only asks: whatever the host is, nothing comes of it but the answer.
pub open spec fn is_question(req: Req) -> bool {
    ||| is_sum(req)
    ||| req is Layouts
    ||| req is ActiveLayoutIndex
    ||| req is IsScrollLayout
    ||| req is LayoutKind
    ||| req is Root
    ||| req is Selection
    ||| req is Parent
    ||| req is WindowAt
    ||| req is WindowNode
    ||| req is TraversePostorder
    ||| req is TraversePreorder
    ||| req is VisibleWindowsUnder
    ||| req is IsVisible
    ||| req is IsFullscreen
    ||| req is ContainerKind
    ||| req is LastUngroupedContainerKind
    ||| req is IsGroupKind
    ||| req is SplitKind
    ||| req is GroupKind
    ||| req is Traverse
    ||| req is TraverseScrollWrapping
    ||| req is FocusNext
    ||| req is FocusPrev
    ||| req is ColumnOf
    ||| req is Columns
    ||| req is Proportion
    ||| req is CalculateLayout
    ||| req is CalculateLayoutAndGroups
    ||| req is IsUserScrolling
    ||| req is IsAnimating
    ||| req is ApplyViewport
    ||| req is OffsetRect
    ||| req is IsInView
    ||| req is ContainsSize
    ||| req is ContainsPoint
    ||| req is SameFrame
    ||| req is SameSize
    ||| req is LooksSame
    ||| req is Intersection
    ||| req is OverlapArea
    ||| req is Middle
    ||| req is RoundToPhysical
}

/// What was done from place `from` on, in order: the requests that are no questions.
pub open spec fn deeds(log: Log, from: int) -> Seq<Req>
    decreases log.len(),
{
    if log.len() == 0 || log.len() <= from {
        Seq::empty()
    } else if is_question(log.last().req) {
        deeds(log.drop_last(), from)
    } else {
        deeds(log.drop_last(), from).push(log.last().req)
    }
}

/// One request more.
pub broadcast proof fn lemma_deeds_push(log: Log, call: Call, from: int)
    requires
        0 <= from <= log.len(),
    ensures
        #[trigger] deeds(log.push(call), from) == if is_question(call.req) {
            deeds(log, from)
        } else {
            deeds(log, from).push(call.req)
        },
{
    assert(log.push(call).drop_last() =~= log);
}

/// Before the first request, nothing was done.
pub broadcast proof fn lemma_no_deeds(log: Log, from: int)
    requires
        log.len() <= from,
    ensures
        #[trigger] deeds(log, from) == Seq::<Req>::empty(),
{
}

pub broadcast group group_deeds {
    lemma_deeds_push,
    lemma_no_deeds,
}

/// What was done up to a place, and from there on.
pub proof fn lemma_deeds_join(l: Log, t: Log, l2: Log)
    requires
        grew(l, t),
        grew(t, l2),
    ensures
        deeds(l2, l.len() as int) == deeds(t, l.len() as int) + deeds(l2, t.len() as int),
    decreases l2.len() - t.len(),
{
    broadcast use group_deeds;
    if l2.len() == t.len() {
        assert(l2 =~= t);
        assert(deeds(t, l.len() as int) + Seq::<Req>::empty() =~= deeds(t, l.len() as int));
    } else {
        let before = l2.drop_last();
        assert(grew(t, before));
        lemma_deeds_join(l, t, before);
        assert(l2 =~= before.push(l2.last()));
        let a = deeds(t, l.len() as int);
        let b = deeds(before, t.len() as int);
        assert((a + b).push(l2.last().req) =~= a + b.push(l2.last().req));
    }
}

/// Questions alone do nothing.
pub proof fn lemma_only_questions(l: Log, l2: Log)
    requires
        grew(l, l2),
        forall|i: int| l.len() <= i < l2.len() ==> is_question((#[trigger] l2[i]).req),
    ensures
        deeds(l2, l.len() as int) == Seq::<Req>::empty(),
    decreases l2.len() - l.len(),
{
    broadcast use group_deeds;
    if l2.len() > l.len() {
        let before = l2.drop_last();
        assert forall|i: int| l.len() <= i < before.len() implies is_question(
            (#[trigger] before[i]).req,
        ) by {
            assert(l2[i] == before[i]);
        }
        lemma_only_questions(l, before);
        assert(l2 =~= before.push(l2.last()));
        assert(is_question(l2[l2.len() - 1].req));
    }
}

/// Several questions in a row do nothing.
pub proof fn lemma_each_asked(l: Log, l2: Log, reqs: Seq<Req>)
    requires
        l2 == ask_each(l, l2, reqs),
        forall|i: int| 0 <= i < reqs.len() ==> is_question(#[trigger] reqs[i]),
    ensures
        grew(l, l2),
        deeds(l2, l.len() as int) == Seq::<Req>::empty(),
{
    assert forall|i: int| l.len() <= i < l2.len() implies is_question((#[trigger] l2[i]).req) by {
        assert(l2[i].req == reqs[i - l.len()]);
    }
    lemma_only_questions(l, l2);
}

/// Several deeds in a row.
pub proof fn lemma_each_done(l: Log, l2: Log, reqs: Seq<Req>)
    requires
        l2 == ask_each(l, l2, reqs),
        forall|i: int| 0 <= i < reqs.len() ==> !is_question(#[trigger] reqs[i]),
    ensures
        grew(l, l2),
        deeds(l2, l.len() as int) == reqs,
    decreases reqs.len(),
{
    broadcast use group_deeds;
    if reqs.len() == 0 {
        assert(l2 =~= l);
        assert(reqs =~= Seq::<Req>::empty());
    } else {
        let front = reqs.drop_last();
        let before = l2.drop_last();
        assert(before =~= ask_each(l, before, front));
        assert forall|i: int| 0 <= i < front.len() implies !is_question(#[trigger] front[i]) by {
            assert(front[i] == reqs[i]);
        }
        lemma_each_done(l, before, front);
        assert(l2 =~= before.push(l2.last()));
        assert(l2.last().req == reqs[reqs.len() - 1]);
        assert(front.push(reqs.last()) =~= reqs);
    }
}

/// The members of a list, in order, where it has one.
pub open spec fn those_made<T>(reqs: Seq<Option<T>>) -> Seq<T>
    decreases reqs.len(),
{
    if reqs.len() == 0 {
        Seq::empty()
    } else {
        let before = those_made(reqs.drop_last());
        match reqs.last() {
            Some(req) => before.push(req),
            None => before,
        }
    }
}

/// What is on record is done, unless it is a question.
pub proof fn lemma_done(log: Log, from: int, i: int)
    requires
        0 <= from <= i < log.len(),
        !is_question(log[i].req),
    ensures
        deeds(log, from).contains(log[i].req),
    decreases log.len(),
{
    let before = log.drop_last();
    let done = deeds(log, from);
    if i < before.len() {
        assert(before[i] == log[i]);
        lemma_done(before, from, i);
        let k = choose|k: int|
            0 <= k < deeds(before, from).len() && deeds(before, from)[k] == log[i].req;
        assert(done[k] == log[i].req);
    } else {
        assert(done[done.len() - 1] == log[i].req);
    }
}

/// What is done is on record.
pub proof fn lemma_on_record(log: Log, from: int, req: Req)
    requires
        0 <= from <= log.len(),
        deeds(log, from).contains(req),
    ensures
        exists|i: int| from <= i < log.len() && (#[trigger] log[i]).req == req,
    decreases log.len(),
{
    let before = log.drop_last();
    let done = deeds(log, from);
    let k = choose|k: int| 0 <= k < done.len() && done[k] == req;
    if log.len() > from {
        let earlier = deeds(before, from);
        if k < earlier.len() {
            assert(earlier[k] == req);
            lemma_on_record(before, from, req);
            let i = choose|i: int| from <= i < before.len() && (#[trigger] before[i]).req == req;
            assert(log[i].req == req);
        } else {
            assert(log[log.len() - 1].req == req);
        }
    }
}

/// The members of those that are made.
pub proof fn lemma_those_made<T>(reqs: Seq<Option<T>>, req: T)
    ensures
        those_made(reqs).contains(req) <==> reqs.contains(Some(req)),
    decreases reqs.len(),
{
    let made = those_made(reqs);
    if reqs.len() > 0 {
        let front = reqs.drop_last();
        let before = those_made(front);
        lemma_those_made(front, req);
        if front.contains(Some(req)) {
            let i = choose|i: int| 0 <= i < front.len() && front[i] == Some(req);
            assert(reqs[i] == Some(req));
            let k = choose|k: int| 0 <= k < before.len() && before[k] == req;
            assert(made[k] == req);
        }
        if reqs.last() == Some(req) {
            assert(reqs[reqs.len() - 1] == Some(req));
            assert(made[made.len() - 1] == req);
        }
        if made.contains(req) {
            let k = choose|k: int| 0 <= k < made.len() && made[k] == req;
            if k < before.len() {
                assert(before[k] == req);
            }
        }
        if reqs.contains(Some(req)) {
            let i = choose|i: int| 0 <= i < reqs.len() && reqs[i] == Some(req);
            if i < front.len() {
                assert(front[i] == Some(req));
            }
        }
    }
}

/// The answer to the next request is the one that `reply` gives.
pub proof fn lemma_reply(reply: spec_fn(Req) -> Rep, t: Log, l2: Log, req: Req, from: int)
    requires
        grew(ask(t, l2, req), l2),
        0 <= from <= t.len(),
        answered_by(reply, l2, from),
    ensures
        answer(ask(t, l2, req)) == reply(req),
        grew(t, l2),
{
    let n = t.len() as int;
    let t1 = ask(t, l2, req);
    assert(l2[n] == t1[n]);
    assert forall|i: int| 0 <= i < t.len() implies #[trigger] l2[i] == t[i] by {
        assert(l2[i] == t1[i]);
    }
}

/// A part of the record is answered as the whole is.
pub proof fn lemma_reply_part(reply: spec_fn(Req) -> Rep, t: Log, l2: Log, from: int)
    requires
        grew(t, l2),
        0 <= from,
        answered_by(reply, l2, from),
    ensures
        answered_by(reply, t, from),
{
    assert forall|i: int| from <= i < t.len() implies (#[trigger] t[i]).rep == reply(t[i].req) by {
        assert(l2[i] == t[i]);
    }
}

} // verus!
