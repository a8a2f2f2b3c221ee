use crate::send_all::{
    failed, is_failure, is_success, lemma_concat, lemma_extend, opt_seq, pulled_items, pulled_part,
    pulls_of, run, sent_items, sent_part, start, step, Event, Phase,
};
use crate::sink::SinkCall;
use crate::task::Poll;
use vstd::prelude::*;

verus! {

/// The item a poll holds at a given point: the one it is offering, or the
/// one it left buffered.
pub open spec fn held<Item, E>(p: Phase<Item, E>) -> Seq<Item> {
    match p {
        Phase::Ask(x) => seq![x],
        Phase::Hand(x) => seq![x],
        Phase::Done(_, b) => opt_seq(b),
        _ => seq![],
    }
}

/// Whether a point is one that a poll that has not failed can reach.
pub open spec fn live<Item, E>(p: Phase<Item, E>) -> bool {
    match p {
        Phase::Invalid => false,
        Phase::Done(r, _) => !is_failure(r),
        _ => true,
    }
}

/// Whether a poll has ended, in any way.
pub open spec fn finished<Item, E>(p: Phase<Item, E>) -> bool {
    p is Done || p is Invalid
}

proof fn lemma_step_conserves<Item, E>(p: Phase<Item, E>, e: Event<Item, E>)
    requires
        live(step(p, e)),
    ensures
        !finished(p),
        held(p) + pulled_part(e) == sent_part(e) + held(step(p, e)),
{
    let q = step(p, e);
    assert(held(p) + pulled_part(e) =~= sent_part(e) + held(q));
}

proof fn lemma_conserves<Item, E>(b: Option<Item>, t: Seq<Event<Item, E>>)
    requires
        live(run(start::<Item, E>(b), t)),
    ensures
        opt_seq(b) + pulled_items(t) == sent_items(t) + held(run(start::<Item, E>(b), t)),
    decreases t.len(),
{
    let p0 = start::<Item, E>(b);
    if t.len() == 0 {
        assert(opt_seq(b) + pulled_items(t) =~= sent_items(t) + held(p0));
    } else {
        let u = t.drop_last();
        let e = t.last();
        lemma_extend(p0, u, e);
        assert(u.push(e) =~= t);
        lemma_step_conserves(run(p0, u), e);
        lemma_conserves(b, u);
        let s = run(p0, u);
        assert(opt_seq(b) + pulled_items(u) + pulled_part(e) =~= sent_items(u) + (held(s)
            + pulled_part(e)));
        assert(sent_items(u) + (sent_part(e) + held(step(s, e))) =~= sent_items(u) + sent_part(e)
            + held(step(s, e)));
    }
}

proof fn lemma_finished_stays<Item, E>(p: Phase<Item, E>, t: Seq<Event<Item, E>>)
    requires
        finished(p),
        t.len() > 0,
    ensures
        run(p, t) == Phase::<Item, E>::Invalid,
    decreases t.len(),
{
    if t.len() > 1 {
        lemma_finished_stays(p, t.drop_last());
    } else {
        assert(run(p, t.drop_last()) == p);
    }
}

proof fn lemma_nothing_after_end<Item, E>(p: Phase<Item, E>, t: Seq<Event<Item, E>>, n: int)
    requires
        0 <= n < t.len(),
        finished(run(p, t.take(n))),
    ensures
        run(p, t) == Phase::<Item, E>::Invalid,
{
    lemma_concat(p, t.take(n), t.skip(n));
    assert(t.take(n) + t.skip(n) =~= t);
    lemma_finished_stays(run(p, t.take(n)), t.skip(n));
}

proof fn lemma_prefix_step<Item, E>(p: Phase<Item, E>, t: Seq<Event<Item, E>>, n: int)
    requires
        0 <= n < t.len(),
    ensures
        run(p, t.take(n + 1)) == step(run(p, t.take(n)), t[n]),
{
    lemma_extend(p, t.take(n), t[n]);
    assert(t.take(n).push(t[n]) =~= t.take(n + 1));
}

/// No item is lost, duplicated or reordered: over one poll that does not
/// fail, the item it started with and the items it pulled, in order, are
/// the items it handed to the consumer followed by the item it left
/// buffered. A poll that succeeds has seen the end of the producer, leaves
/// nothing buffered, and ends with a successful flush of the consumer.
pub proof fn lemma_no_loss_in_order<Item, E>(
    b: Option<Item>,
    t: Seq<Event<Item, E>>,
    r: Poll<Result<(), E>>,
    b2: Option<Item>,
)
    requires
        run(start::<Item, E>(b), t) == Phase::Done(r, b2),
        !is_failure(r),
    ensures
        opt_seq(b) + pulled_items(t) == sent_items(t) + opt_seq(b2),
        is_success(r) ==> {
            &&& b2 is None
            &&& t.len() >= 2
            &&& t.last() == Event::<Item, E>::Sink(SinkCall::Flush(r))
            &&& pulls_of(t).contains(Poll::Ready(None))
        },
{
    let p0 = start::<Item, E>(b);
    lemma_conserves(b, t);
    if is_success(r) {
        assert(t.len() > 0);
        let u = t.drop_last();
        lemma_extend(p0, u, t.last());
        assert(u.push(t.last()) =~= t);
        assert(run(p0, u) is FinalFlush);
        assert(u.len() > 0);
        let v = u.drop_last();
        lemma_extend(p0, v, u.last());
        assert(v.push(u.last()) =~= u);
        assert(u.last() == Event::<Item, E>::Pulled(Poll::Ready(None)));
        lemma_extend(p0, u, t.last());
        lemma_extend(p0, v, u.last());
        assert(pulls_of(u).last() == Poll::<Option<Item>>::Ready(None));
        assert(pulls_of(t) == pulls_of(u));
        assert(pulls_of(t)[pulls_of(t).len() - 1] == Poll::<Option<Item>>::Ready(None));
    }
}

/// An item that the consumer was not ready for is the next item it is
/// handed: a poll that starts with a buffered item and does not fail either
/// hands that item over before any other, or pulls nothing and keeps it.
pub proof fn lemma_backpressure<Item, E>(
    x: Item,
    t: Seq<Event<Item, E>>,
    r: Poll<Result<(), E>>,
    b2: Option<Item>,
)
    requires
        run(start::<Item, E>(Some(x)), t) == Phase::Done(r, b2),
        !is_failure(r),
    ensures
        sent_items(t).len() > 0 ==> sent_items(t)[0] == x,
        sent_items(t).len() == 0 ==> b2 == Some(x) && pulled_items(t).len() == 0,
{
    lemma_no_loss_in_order(Some(x), t, r, b2);
    let lhs = seq![x] + pulled_items(t);
    assert(opt_seq(Some(x)) == seq![x]);
    assert(lhs[0] == x);
    if sent_items(t).len() > 0 {
        assert((sent_items(t) + opt_seq(b2))[0] == sent_items(t)[0]);
    } else {
        assert(sent_items(t) + opt_seq(b2) =~= opt_seq(b2));
        assert(lhs.len() == 1 + pulled_items(t).len());
    }
}

/// A poll with nothing buffered that finds the producer not ready flushes
/// the consumer once and returns pending, unless that flush fails, and
/// takes no item.
pub proof fn lemma_stall_flush<Item, E>(t: Seq<Event<Item, E>>, r: Poll<Result<(), E>>, b2: Option<Item>)
    requires
        run(start::<Item, E>(None), t) == Phase::Done(r, b2),
        t.len() > 0,
        t[0] == Event::<Item, E>::Pulled(Poll::Pending),
    ensures
        t.len() == 2,
        t[1] matches Event::Sink(SinkCall::Flush(_)),
        b2 is None,
        pulled_items(t) == Seq::<Item>::empty(),
        r is Pending || is_failure(r),
        is_failure(r) ==> t[1] == Event::<Item, E>::Sink(SinkCall::Flush(r)),
{
    let p0 = start::<Item, E>(None);
    lemma_prefix_step(p0, t, 0);
    assert(t.take(0) =~= Seq::<Event<Item, E>>::empty());
    assert(run(p0, t.take(1)) is StallFlush);
    if t.len() == 1 {
        assert(t.take(1) =~= t);
    } else {
        lemma_prefix_step(p0, t, 1);
        assert(finished(run(p0, t.take(2))));
        if t.len() > 2 {
            lemma_nothing_after_end(p0, t, 2);
        }
        assert(t.take(2) =~= t);
        assert(t.take(1).push(t[1]) =~= t);
        lemma_extend(p0, t.take(1), t[1]);
        lemma_extend(p0, Seq::empty(), t[0]);
        assert(Seq::<Event<Item, E>>::empty().push(t[0]) =~= t.take(1));
        assert(pulled_items(Seq::<Event<Item, E>>::empty()) =~= Seq::<Item>::empty());
        assert(pulled_items(t) =~= Seq::<Item>::empty());
    }
}

/// A readiness check that fails ends the poll: it is the poll's last
/// interaction, the poll resolves with that error, and nothing is pulled
/// after it.
pub proof fn lemma_error_short_circuit<Item, E>(
    p: Phase<Item, E>,
    t: Seq<Event<Item, E>>,
    i: int,
    err: E,
)
    requires
        run(p, t) is Done,
        0 <= i < t.len(),
        t[i] == Event::<Item, E>::Sink(SinkCall::Ready(Poll::Ready(Err(err)))),
    ensures
        i == t.len() - 1,
        run(p, t) == failed::<Item, E>(err),
{
    lemma_prefix_step(p, t, i);
    assert(finished(run(p, t.take(i + 1))));
    if i + 1 < t.len() {
        lemma_nothing_after_end(p, t, i + 1);
    }
    assert(t.take(i + 1) =~= t);
}

} // verus!
