use crate::sink::{Consumer, SinkCall};
use crate::task::Poll;
use core::marker::PhantomData;
use core::task::Waker;
use vstd::prelude::*;

verus! {

/// Drives a consumer's flush until it reports completion or an error.
///
/// It resolves once, with what the consumer's `poll_flush` reported, and must
/// not be polled after that.
pub struct Flush<Si, Item> {
    sink: Si,
    resolved: Ghost<bool>,
    _item: PhantomData<Item>,
}

impl<Si: Consumer<Item>, Item> Flush<Si, Item> {
    /// The consumer being flushed.
    pub closed spec fn sink(&self) -> Si {
        self.sink
    }

    /// Whether a poll has already returned a terminal outcome.
    pub closed spec fn is_resolved(&self) -> bool {
        self.resolved@
    }

    pub fn new(sink: Si) -> (r: Self)
        ensures
            r.sink() == sink,
            !r.is_resolved(),
    {
        Flush { sink, resolved: Ghost(false), _item: PhantomData }
    }

    /// Polls the consumer's flush once and reports its outcome unchanged.
    pub fn poll(&mut self, waker: &Waker) -> (r: Poll<Result<(), Si::Error>>)
        requires
            !old(self).is_resolved(),
        ensures
            final(self).sink().calls() == old(self).sink().calls().push(SinkCall::Flush(r)),
            final(self).is_resolved() == (r is Ready),
    {
        let r = self.sink.poll_flush(waker);
        self.resolved = Ghost(r is Ready);
        r
    }

    pub fn get_ref(&self) -> (r: &Si)
        ensures
            *r == self.sink(),
    {
        &self.sink
    }

    pub fn into_inner(self) -> (r: Si)
        ensures
            r == self.sink(),
    {
        self.sink
    }
}

} // verus!
