use crate::task::Poll;
use core::task::Waker;
use vstd::prelude::*;

verus! {

/// One call made on a consumer, with what it returned.
pub enum SinkCall<Item, E> {
    /// `poll_ready` returned this.
    Ready(Poll<Result<(), E>>),
    /// `start_send` was handed this item and returned this.
    Send(Item, Result<(), E>),
    /// `poll_flush` returned this.
    Flush(Poll<Result<(), E>>),
}

/// Whether the last call on a consumer was a readiness check that reported
/// ready: the only point at which one item may be handed over.
pub open spec fn send_permitted<Item, E>(calls: Seq<SinkCall<Item, E>>) -> bool {
    calls.len() > 0 && calls.last() matches SinkCall::Ready(Poll::Ready(Ok(_)))
}

/// A consumer of items with a readiness gate before each item and a separate
/// flush step.
///
/// `calls` is the consumer's history: every call made on it, in order, with
/// what each returned.
pub trait Consumer<Item> {
    type Error;

    /// An implementation checked by Verus defines its history; one that is
    /// not leaves it unspecified.
    closed spec fn calls(&self) -> Seq<SinkCall<Item, Self::Error>> {
        arbitrary()
    }

    /// Is the consumer willing to take one item now?
    fn poll_ready(&mut self, waker: &Waker) -> (r: Poll<Result<(), Self::Error>>)
        ensures
            final(self).calls() == old(self).calls().push(SinkCall::Ready(r)),
    ;

    /// Hands over one item; allowed only right after a readiness check
    /// that reported ready.
    fn start_send(&mut self, item: Item) -> (r: Result<(), Self::Error>)
        requires
            send_permitted(old(self).calls()),
        ensures
            final(self).calls() == old(self).calls().push(SinkCall::Send(item, r)),
    ;

    /// Drives the items the consumer buffers towards their destination.
    fn poll_flush(&mut self, waker: &Waker) -> (r: Poll<Result<(), Self::Error>>)
        ensures
            final(self).calls() == old(self).calls().push(SinkCall::Flush(r)),
    ;
}

/// A borrowed consumer is a consumer: the drivers can work through an
/// exclusive borrow and leave the consumer with its owner.
impl<'a, Item, S: Consumer<Item>> Consumer<Item> for &'a mut S {
    type Error = S::Error;

    open spec fn calls(&self) -> Seq<SinkCall<Item, S::Error>> {
        (**self).calls()
    }

    fn poll_ready(&mut self, waker: &Waker) -> (r: Poll<Result<(), S::Error>>) {
        (**self).poll_ready(waker)
    }

    fn start_send(&mut self, item: Item) -> (r: Result<(), S::Error>) {
        (**self).start_send(item)
    }

    fn poll_flush(&mut self, waker: &Waker) -> (r: Poll<Result<(), S::Error>>) {
        (**self).poll_flush(waker)
    }
}

} // verus!
