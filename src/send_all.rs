use crate::sink::{send_permitted, Consumer, SinkCall};
use crate::stream::{Fuse, Producer};
use crate::task::Poll;
use core::task::Waker;
use vstd::prelude::*;

verus! {

/// One interaction of a send-all driver: a poll of the producer with what it
/// returned, or a call on the consumer with what it returned.
pub enum Event<Item, E> {
    Pulled(Poll<Option<Item>>),
    Sink(SinkCall<Item, E>),
}

/// Where one poll of a send-all driver stands between two interactions.
pub enum Phase<Item, E> {
    /// About to ask the consumer whether it takes this item.
    Ask(Item),
    /// The consumer is ready: about to hand it this item.
    Hand(Item),
    /// About to poll the producer.
    Pull,
    /// The producer is exhausted: about to flush the consumer.
    FinalFlush,
    /// The producer is not ready: about to flush the consumer once.
    StallFlush,
    /// The poll returned this outcome, leaving this item buffered.
    Done(Poll<Result<(), E>>, Option<Item>),
    /// No poll goes this way.
    Invalid,
}

/// Where a poll starts: with the buffered item, if there is one.
pub open spec fn start<Item, E>(buffered: Option<Item>) -> Phase<Item, E> {
    match buffered {
        Some(x) => Phase::Ask(x),
        None => Phase::Pull,
    }
}

/// The consumer failed with this error: the poll resolves with it.
pub open spec fn failed<Item, E>(err: E) -> Phase<Item, E> {
    Phase::Done(Poll::Ready(Err(err)), None)
}

/// What the next interaction must be, given where the poll stands and what
/// the interaction returned, and where the poll stands after it.
pub open spec fn step<Item, E>(p: Phase<Item, E>, e: Event<Item, E>) -> Phase<Item, E> {
    match p {
        Phase::Ask(x) => match e {
            Event::Sink(SinkCall::Ready(Poll::Pending)) => Phase::Done(Poll::Pending, Some(x)),
            Event::Sink(SinkCall::Ready(Poll::Ready(Ok(())))) => Phase::Hand(x),
            Event::Sink(SinkCall::Ready(Poll::Ready(Err(err)))) => failed(err),
            _ => Phase::Invalid,
        },
        Phase::Hand(x) => match e {
            Event::Sink(SinkCall::Send(y, Ok(()))) => if y == x {
                Phase::Pull
            } else {
                Phase::Invalid
            },
            Event::Sink(SinkCall::Send(y, Err(err))) => if y == x {
                failed(err)
            } else {
                Phase::Invalid
            },
            _ => Phase::Invalid,
        },
        Phase::Pull => match e {
            Event::Pulled(Poll::Ready(Some(x))) => Phase::Ask(x),
            Event::Pulled(Poll::Ready(None)) => Phase::FinalFlush,
            Event::Pulled(Poll::Pending) => Phase::StallFlush,
            _ => Phase::Invalid,
        },
        Phase::FinalFlush => match e {
            Event::Sink(SinkCall::Flush(r)) => Phase::Done(r, None),
            _ => Phase::Invalid,
        },
        Phase::StallFlush => match e {
            Event::Sink(SinkCall::Flush(Poll::Ready(Err(err)))) => failed(err),
            Event::Sink(SinkCall::Flush(_)) => Phase::Done(Poll::Pending, None),
            _ => Phase::Invalid,
        },
        _ => Phase::Invalid,
    }
}

/// Where a poll stands after these interactions, from where it stood.
pub open spec fn run<Item, E>(p: Phase<Item, E>, t: Seq<Event<Item, E>>) -> Phase<Item, E>
    decreases t.len(),
{
    if t.len() == 0 {
        p
    } else {
        step(run(p, t.drop_last()), t.last())
    }
}

pub open spec fn sink_part<Item, E>(e: Event<Item, E>) -> Seq<SinkCall<Item, E>> {
    match e {
        Event::Sink(c) => seq![c],
        _ => seq![],
    }
}

pub open spec fn pull_part<Item, E>(e: Event<Item, E>) -> Seq<Poll<Option<Item>>> {
    match e {
        Event::Pulled(r) => seq![r],
        _ => seq![],
    }
}

pub open spec fn pulled_part<Item, E>(e: Event<Item, E>) -> Seq<Item> {
    match e {
        Event::Pulled(Poll::Ready(Some(x))) => seq![x],
        _ => seq![],
    }
}

pub open spec fn sent_part<Item, E>(e: Event<Item, E>) -> Seq<Item> {
    match e {
        Event::Sink(SinkCall::Send(x, _)) => seq![x],
        _ => seq![],
    }
}

/// The calls made on the consumer, in order.
pub open spec fn sink_calls<Item, E>(t: Seq<Event<Item, E>>) -> Seq<SinkCall<Item, E>>
    decreases t.len(),
{
    if t.len() == 0 {
        seq![]
    } else {
        sink_calls(t.drop_last()) + sink_part(t.last())
    }
}

/// What the producer returned, in order.
pub open spec fn pulls_of<Item, E>(t: Seq<Event<Item, E>>) -> Seq<Poll<Option<Item>>>
    decreases t.len(),
{
    if t.len() == 0 {
        seq![]
    } else {
        pulls_of(t.drop_last()) + pull_part(t.last())
    }
}

/// The items taken from the producer, in order.
pub open spec fn pulled_items<Item, E>(t: Seq<Event<Item, E>>) -> Seq<Item>
    decreases t.len(),
{
    if t.len() == 0 {
        seq![]
    } else {
        pulled_items(t.drop_last()) + pulled_part(t.last())
    }
}

/// The items handed to the consumer, in order.
pub open spec fn sent_items<Item, E>(t: Seq<Event<Item, E>>) -> Seq<Item>
    decreases t.len(),
{
    if t.len() == 0 {
        seq![]
    } else {
        sent_items(t.drop_last()) + sent_part(t.last())
    }
}

pub open spec fn opt_seq<Item>(o: Option<Item>) -> Seq<Item> {
    match o {
        Some(x) => seq![x],
        None => seq![],
    }
}

/// Whether an outcome is a success.
pub open spec fn is_success<E>(r: Poll<Result<(), E>>) -> bool {
    r matches Poll::Ready(Ok(_))
}

/// Whether an outcome is a failure of the consumer.
pub open spec fn is_failure<E>(r: Poll<Result<(), E>>) -> bool {
    r matches Poll::Ready(Err(_))
}

/// The interactions recorded after the first `n`.
pub open spec fn since<A>(h: Seq<A>, n: nat) -> Seq<A> {
    h.skip(n as int)
}

/// Two runs of interactions, one after the other, read as one.
pub proof fn lemma_concat<Item, E>(p: Phase<Item, E>, t1: Seq<Event<Item, E>>, t2: Seq<Event<Item, E>>)
    ensures
        run(p, t1 + t2) == run(run(p, t1), t2),
        sink_calls(t1 + t2) == sink_calls(t1) + sink_calls(t2),
        pulls_of(t1 + t2) == pulls_of(t1) + pulls_of(t2),
        pulled_items(t1 + t2) == pulled_items(t1) + pulled_items(t2),
        sent_items(t1 + t2) == sent_items(t1) + sent_items(t2),
    decreases t2.len(),
{
    if t2.len() == 0 {
        assert(t1 + t2 =~= t1);
        assert(sink_calls(t1) + sink_calls(t2) =~= sink_calls(t1));
        assert(pulls_of(t1) + pulls_of(t2) =~= pulls_of(t1));
        assert(pulled_items(t1) + pulled_items(t2) =~= pulled_items(t1));
        assert(sent_items(t1) + sent_items(t2) =~= sent_items(t1));
    } else {
        let u = t2.drop_last();
        lemma_concat(p, t1, u);
        assert((t1 + t2).drop_last() =~= t1 + u);
        assert((t1 + t2).last() == t2.last());
        assert(sink_calls(t1) + sink_calls(u) + sink_part(t2.last()) =~= sink_calls(t1) + (
        sink_calls(u) + sink_part(t2.last())));
        assert(pulls_of(t1) + pulls_of(u) + pull_part(t2.last()) =~= pulls_of(t1) + (pulls_of(u)
            + pull_part(t2.last())));
        assert(pulled_items(t1) + pulled_items(u) + pulled_part(t2.last()) =~= pulled_items(t1) + (
        pulled_items(u) + pulled_part(t2.last())));
        assert(sent_items(t1) + sent_items(u) + sent_part(t2.last()) =~= sent_items(t1) + (
        sent_items(u) + sent_part(t2.last())));
    }
}

/// One more interaction extends every view of a trace by that interaction.
pub proof fn lemma_extend<Item, E>(p: Phase<Item, E>, t: Seq<Event<Item, E>>, e: Event<Item, E>)
    ensures
        run(p, t.push(e)) == step(run(p, t), e),
        sink_calls(t.push(e)) == sink_calls(t) + sink_part(e),
        pulls_of(t.push(e)) == pulls_of(t) + pull_part(e),
        pulled_items(t.push(e)) == pulled_items(t) + pulled_part(e),
        sent_items(t.push(e)) == sent_items(t) + sent_part(e),
{
    assert(t.push(e).drop_last() =~= t);
}

/// Sends every item of a producer to a consumer, honouring the consumer's
/// readiness before each item, and flushes the consumer once the producer
/// is exhausted.
///
/// At most one item waits between the two: one taken from the producer that
/// the consumer was not ready for. The driver resolves once, and must not be
/// polled after that.
pub struct SendAll<Si: Consumer<Item>, St, Item> {
    sink: Si,
    stream: Fuse<St>,
    buffered: Option<Item>,
    history: Ghost<Seq<Event<Item, Si::Error>>>,
    resolved: Ghost<bool>,
}

impl<Si: Consumer<Item>, St: Producer<Item>, Item> SendAll<Si, St, Item> {
    /// The consumer.
    pub closed spec fn sink(&self) -> Si {
        self.sink
    }

    /// The producer, as wrapped by the driver.
    pub closed spec fn stream(&self) -> St {
        self.stream.inner()
    }

    /// Whether the producer has reported the end of its data.
    pub closed spec fn stream_done(&self) -> bool {
        self.stream.is_done()
    }

    /// The item taken from the producer that the consumer has not yet taken.
    pub closed spec fn buffered(&self) -> Option<Item> {
        self.buffered
    }

    /// Every interaction of every poll so far, in order.
    pub closed spec fn history(&self) -> Seq<Event<Item, Si::Error>> {
        self.history@
    }

    /// Whether a poll has already returned a terminal outcome.
    pub closed spec fn is_resolved(&self) -> bool {
        self.resolved@
    }

    pub closed spec fn wf(&self) -> bool {
        &&& self.stream.is_done() ==> self.buffered is None
        &&& !self.resolved@ ==> pulled_items(self.history@) == sent_items(self.history@) + opt_seq(
            self.buffered,
        )
    }

    /// The interactions of the polls made since `before`.
    pub open spec fn polled_since(&self, before: &Self) -> Seq<Event<Item, Si::Error>> {
        since(self.history(), before.history().len())
    }

    pub fn new(sink: Si, stream: St) -> (r: Self)
        ensures
            r.wf(),
            r.sink() == sink,
            r.stream() == stream,
            !r.stream_done(),
            r.buffered() is None,
            r.history() == Seq::<Event<Item, Si::Error>>::empty(),
            !r.is_resolved(),
    {
        let r = SendAll {
            sink,
            stream: Fuse::new(stream),
            buffered: None,
            history: Ghost(Seq::empty()),
            resolved: Ghost(false),
        };
        proof {
            assert(pulled_items(r.history@) =~= sent_items(r.history@) + opt_seq(r.buffered));
        }
        r
    }

    /// Moves items from the producer to the consumer until no more progress
    /// can be made now: a buffered item goes first; each item pulled is
    /// offered to the consumer; once the producer is exhausted the consumer
    /// is flushed and the driver resolves; when the producer is not ready
    /// the consumer is flushed once and the poll returns pending. Any error
    /// of the consumer resolves the driver with that error.
    pub fn poll(&mut self, waker: &Waker) -> (r: Poll<Result<(), Si::Error>>)
        requires
            old(self).wf(),
            !old(self).is_resolved(),
        ensures
            final(self).wf(),
            final(self).is_resolved() == (r is Ready),
            final(self).history().len() >= old(self).history().len(),
            final(self).history().take(old(self).history().len() as int) == old(self).history(),
            run(start(old(self).buffered()), final(self).polled_since(old(self))) == Phase::Done(
                r,
                final(self).buffered(),
            ),
            final(self).sink().calls() == old(self).sink().calls() + sink_calls(
                final(self).polled_since(old(self)),
            ),
            !old(self).stream_done() ==> final(self).stream().pulls() == old(self).stream().pulls()
                + pulls_of(final(self).polled_since(old(self))),
            old(self).stream_done() ==> {
                &&& final(self).stream() == old(self).stream()
                &&& pulls_of(final(self).polled_since(old(self))) == seq![
                    Poll::<Option<Item>>::Ready(None),
                ]
            },
            final(self).stream_done() == (old(self).stream_done() || pulls_of(
                final(self).polled_since(old(self)),
            ).contains(Poll::Ready(None))),
            !is_failure(r) ==> pulled_items(final(self).history()) == sent_items(
                final(self).history(),
            ) + opt_seq(final(self).buffered()),
    {
        let ghost h0 = self.history@;
        let ghost n0 = h0.len();
        let ghost b0 = self.buffered;
        let ghost calls0 = self.sink.calls();
        let ghost st0 = self.stream.inner();
        let ghost done0 = self.stream.is_done();
        let ghost p0 = start::<Item, Si::Error>(b0);
        proof {
            assert(since(h0, n0) =~= Seq::<Event<Item, Si::Error>>::empty());
            assert(h0.take(n0 as int) =~= h0);
            assert(calls0 + sink_calls(Seq::<Event<Item, Si::Error>>::empty()) =~= calls0);
            assert(st0.pulls() + pulls_of(Seq::<Event<Item, Si::Error>>::empty()) =~= st0.pulls());
        }
        if let Some(item) = self.buffered.take() {
            let ghost h1 = self.history@;
            let ghost calls1 = self.sink.calls();
            let sent = self.try_start_send(waker, item);
            proof {
                let added = since(self.history@, h1.len());
                assert(self.history@ =~= h1 + added);
                assert(since(self.history@, n0) =~= added);
                lemma_concat(p0, Seq::empty(), added);
                assert(Seq::<Event<Item, Si::Error>>::empty() + added =~= added);
                lemma_concat(Phase::Pull, h0, added);
                assert(opt_seq(b0) =~= seq![item]);
                assert(st0.pulls() + pulls_of(added) =~= st0.pulls());
            }
            match sent {
                Poll::Ready(Ok(())) => {},
                Poll::Ready(Err(e)) => {
                    self.resolved = Ghost(true);
                    return Poll::Ready(Err(e));
                },
                Poll::Pending => {
                    proof {
                        let t = since(self.history@, n0);
                        assert(pulls_of(t).len() == 0);
                    }
                    return Poll::Pending;
                },
            }
        }
        loop
            invariant
                self.buffered is None,
                !self.resolved@,
                self.history@.len() >= n0,
                self.history@.take(n0 as int) == h0,
                run(p0, since(self.history@, n0)) == Phase::<Item, Si::Error>::Pull,
                self.sink.calls() == calls0 + sink_calls(since(self.history@, n0)),
                !done0 ==> self.stream.inner().pulls() == st0.pulls() + pulls_of(
                    since(self.history@, n0),
                ),
                done0 ==> self.stream.inner() == st0,
                done0 ==> pulls_of(since(self.history@, n0)).len() == 0,
                !pulls_of(since(self.history@, n0)).contains(Poll::Ready(None)),
                self.stream.is_done() == done0,
                done0 ==> b0 is None,
                p0 == start::<Item, Si::Error>(b0),
                h0 == old(self).history@,
                n0 == h0.len(),
                b0 == old(self).buffered,
                calls0 == old(self).sink.calls(),
                st0 == old(self).stream.inner(),
                done0 == old(self).stream.is_done(),
                pulled_items(self.history@) == sent_items(self.history@),
            decreases self.stream.inner().remaining(),
        {
            let ghost h1 = self.history@;
            let ghost t1 = since(h1, n0);
            let next = self.stream.poll_next(waker);
            let ghost e = Event::<Item, Si::Error>::Pulled(next);
            self.history = Ghost(self.history@.push(e));
            proof {
                lemma_extend(p0, t1, e);
                lemma_extend(Phase::Pull, h1, e);
                assert(since(self.history@, n0) =~= t1.push(e));
                assert(self.history@.take(n0 as int) =~= h0);
                assert(calls0 + sink_calls(t1) + sink_part(e) =~= calls0 + sink_calls(t1));
            }
            match next {
                Poll::Ready(Some(item)) => {
                    let ghost h2 = self.history@;
                    let ghost t2 = since(h2, n0);
                    proof {
                        assert(!done0);
                        assert(st0.pulls() + pulls_of(t1) + pull_part(e) =~= st0.pulls() + (
                        pulls_of(t1) + pull_part(e)));
                        assert(!pull_part(e).contains(Poll::Ready(None)));
                        assert(!pulls_of(t2).contains(Poll::Ready(None))) by {
                            assert(pulls_of(t2) =~= pulls_of(t1).push(next));
                        }
                    }
                    let sent = self.try_start_send(waker, item);
                    proof {
                        let added = since(self.history@, h2.len());
                        assert(self.history@ =~= h2 + added);
                        assert(since(self.history@, n0) =~= t2 + added);
                        lemma_concat(p0, t2, added);
                        lemma_concat(Phase::Pull, h2, added);
                        assert(self.history@.take(n0 as int) =~= h0);
                        assert(calls0 + sink_calls(t2) + sink_calls(added) =~= calls0 + (
                        sink_calls(t2) + sink_calls(added)));
                        assert(pulls_of(t2) + pulls_of(added) =~= pulls_of(t2));
                        assert(pulled_items(h2) =~= sent_items(h2) + seq![item]);
                        assert(pulled_items(added) =~= Seq::<Item>::empty());
                        if !is_failure(sent) {
                            assert(sent_items(h2) + seq![item] + pulled_items(added) =~= sent_items(
                                h2,
                            ) + (sent_items(added) + opt_seq(self.buffered)));
                        }
                    }
                    match sent {
                        Poll::Ready(Ok(())) => {},
                        Poll::Ready(Err(e)) => {
                            self.resolved = Ghost(true);
                            return Poll::Ready(Err(e));
                        },
                        Poll::Pending => {
                            return Poll::Pending;
                        },
                    }
                },
                Poll::Ready(None) => {
                    let ghost h2 = self.history@;
                    let ghost t2 = since(h2, n0);
                    proof {
                        assert(pulls_of(t2) =~= pulls_of(t1).push(next));
                        assert(pulls_of(t2).contains(Poll::Ready(None))) by {
                            assert(pulls_of(t2).last() == next);
                        }
                        if done0 {
                            assert(pulls_of(t2) =~= seq![Poll::<Option<Item>>::Ready(None)]);
                        }
                    }
                    let flushed = self.sink.poll_flush(waker);
                    let ghost f = Event::<Item, Si::Error>::Sink(SinkCall::Flush(flushed));
                    self.history = Ghost(self.history@.push(f));
                    proof {
                        lemma_extend(p0, t2, f);
                        lemma_extend(Phase::Pull, h2, f);
                        assert(since(self.history@, n0) =~= t2.push(f));
                        assert(self.history@.take(n0 as int) =~= h0);
                        assert(calls0 + sink_calls(t2) + sink_part(f) =~= (calls0 + sink_calls(
                            t2,
                        )).push(SinkCall::Flush(flushed)));
                        assert(pulls_of(t2) + pull_part(f) =~= pulls_of(t2));
                        assert(sent_items(self.history@) + opt_seq(self.buffered) =~= sent_items(
                            self.history@,
                        ));
                    }
                    self.resolved = Ghost(flushed is Ready);
                    return flushed;
                },
                Poll::Pending => {
                    let ghost h2 = self.history@;
                    let ghost t2 = since(h2, n0);
                    proof {
                        assert(pulls_of(t2) =~= pulls_of(t1).push(next));
                        assert(!pulls_of(t2).contains(Poll::Ready(None))) by {
                            assert forall|i: int| 0 <= i < pulls_of(t2).len() implies pulls_of(
                                t2,
                            )[i] != Poll::<Option<Item>>::Ready(None) by {
                                if i < pulls_of(t1).len() {
                                    assert(pulls_of(t2)[i] == pulls_of(t1)[i]);
                                }
                            }
                        }
                    }
                    let flushed = self.sink.poll_flush(waker);
                    let ghost f = Event::<Item, Si::Error>::Sink(SinkCall::Flush(flushed));
                    self.history = Ghost(self.history@.push(f));
                    proof {
                        lemma_extend(p0, t2, f);
                        lemma_extend(Phase::Pull, h2, f);
                        assert(since(self.history@, n0) =~= t2.push(f));
                        assert(self.history@.take(n0 as int) =~= h0);
                        assert(calls0 + sink_calls(t2) + sink_part(f) =~= (calls0 + sink_calls(
                            t2,
                        )).push(SinkCall::Flush(flushed)));
                        assert(pulls_of(t2) + pull_part(f) =~= pulls_of(t2));
                        assert(sent_items(self.history@) + opt_seq(self.buffered) =~= sent_items(
                            self.history@,
                        ));
                    }
                    if let Poll::Ready(Err(e)) = flushed {
                        self.resolved = Ghost(true);
                        return Poll::Ready(Err(e));
                    }
                    return Poll::Pending;
                },
            }
        }
    }

    /// Offers one item to the consumer: hands it over if the consumer is
    /// ready, keeps it buffered if it is not.
    fn try_start_send(&mut self, waker: &Waker, item: Item) -> (r: Poll<Result<(), Si::Error>>)
        requires
            old(self).buffered is None,
        ensures
            final(self).history@.len() >= old(self).history@.len(),
            final(self).history@.take(old(self).history@.len() as int) == old(self).history@,
            ({
                let added = since(final(self).history@, old(self).history@.len());
                &&& run(Phase::Ask(item), added) == if is_success(r) {
                    Phase::Pull
                } else {
                    Phase::Done(r, final(self).buffered)
                }
                &&& final(self).sink.calls() == old(self).sink.calls() + sink_calls(added)
                &&& pulls_of(added) == Seq::<Poll<Option<Item>>>::empty()
                &&& pulled_items(added) == Seq::<Item>::empty()
                &&& !is_failure(r) ==> seq![item] == sent_items(added) + opt_seq(
                    final(self).buffered,
                )
            }),
            final(self).stream == old(self).stream,
            final(self).resolved == old(self).resolved,
    {
        let ghost h = self.history@;
        let ghost calls0 = self.sink.calls();
        let ghost p = Phase::<Item, Si::Error>::Ask(item);
        let ready = self.sink.poll_ready(waker);
        let ghost e1 = Event::Sink(SinkCall::Ready(ready));
        self.history = Ghost(self.history@.push(e1));
        proof {
            lemma_extend(p, Seq::empty(), e1);
            assert(Seq::empty().push(e1) =~= seq![e1]);
            assert(since(self.history@, h.len()) =~= seq![e1]);
            assert(self.history@.take(h.len() as int) =~= h);
            assert(calls0 + sink_calls(seq![e1]) =~= calls0.push(SinkCall::Ready(ready)));
        }
        match ready {
            Poll::Ready(Ok(())) => {
                let ghost it = item;
                let sent = self.sink.start_send(item);
                let ghost e2 = Event::Sink(SinkCall::Send(it, sent));
                self.history = Ghost(self.history@.push(e2));
                proof {
                    lemma_extend(p, seq![e1], e2);
                    assert(seq![e1].push(e2) =~= seq![e1, e2]);
                    assert(since(self.history@, h.len()) =~= seq![e1, e2]);
                    assert(self.history@.take(h.len() as int) =~= h);
                    assert(calls0 + sink_calls(seq![e1, e2]) =~= calls0.push(
                        SinkCall::Ready(ready),
                    ).push(SinkCall::Send(it, sent)));
                    assert(sent_items(seq![e1, e2]) + opt_seq(self.buffered) =~= seq![it]);
                }
                Poll::Ready(sent)
            },
            Poll::Ready(Err(e)) => Poll::Ready(Err(e)),
            Poll::Pending => {
                self.buffered = Some(item);
                proof {
                    assert(sent_items(seq![e1]) + opt_seq(self.buffered) =~= seq![item]);
                }
                Poll::Pending
            },
        }
    }
}

} // verus!
