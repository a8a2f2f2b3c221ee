use crate::task::Poll;
use core::task::Waker;
use vstd::prelude::*;

verus! {

/// A pull source of items: each poll yields an item, the end of the data,
/// or not yet.
///
/// `pulls` is the producer's history: what each call of `poll_next` returned,
/// in order. `remaining` bounds how many more items it can yield: every
/// producer yields finitely many.
pub trait Producer<Item> {
    /// An implementation checked by Verus defines its history; one that is
    /// not leaves it unspecified.
    closed spec fn pulls(&self) -> Seq<Poll<Option<Item>>> {
        arbitrary()
    }

    /// Unspecified unless an implementation checked by Verus defines it.
    closed spec fn remaining(&self) -> nat {
        arbitrary()
    }

    /// The next item, the end of the data, or not yet.
    fn poll_next(&mut self, waker: &Waker) -> (r: Poll<Option<Item>>)
        ensures
            final(self).pulls() == old(self).pulls().push(r),
            r matches Poll::Ready(Some(_)) ==> final(self).remaining() < old(self).remaining(),
    ;
}

/// A borrowed producer is a producer: the send-all driver can pull through
/// an exclusive borrow and leave the producer with its owner.
impl<'a, Item, S: Producer<Item>> Producer<Item> for &'a mut S {
    open spec fn pulls(&self) -> Seq<Poll<Option<Item>>> {
        (**self).pulls()
    }

    open spec fn remaining(&self) -> nat {
        (**self).remaining()
    }

    fn poll_next(&mut self, waker: &Waker) -> (r: Poll<Option<Item>>) {
        (**self).poll_next(waker)
    }
}

/// Wraps a producer and remembers whether it has reported the end of its
/// data; from then on every poll reports the end again without polling the
/// wrapped producer.
pub struct Fuse<St> {
    stream: St,
    done: bool,
}

impl<St> Fuse<St> {
    /// The wrapped producer.
    pub closed spec fn inner(&self) -> St {
        self.stream
    }

    /// Whether the end of the data has been seen.
    pub closed spec fn is_done(&self) -> bool {
        self.done
    }

    pub fn new(stream: St) -> (r: Self)
        ensures
            r.inner() == stream,
            !r.is_done(),
    {
        Fuse { stream, done: false }
    }

    pub fn is_terminated(&self) -> (r: bool)
        ensures
            r == self.is_done(),
    {
        self.done
    }

    pub fn get_ref(&self) -> (r: &St)
        ensures
            *r == self.inner(),
    {
        &self.stream
    }

    pub fn into_inner(self) -> (r: St)
        ensures
            r == self.inner(),
    {
        self.stream
    }

    pub fn poll_next<Item>(&mut self, waker: &Waker) -> (r: Poll<Option<Item>>)
        where
            St: Producer<Item>,
        ensures
            old(self).is_done() ==> {
                &&& r == Poll::<Option<Item>>::Ready(None)
                &&& final(self).inner() == old(self).inner()
                &&& final(self).is_done()
            },
            !old(self).is_done() ==> {
                &&& final(self).inner().pulls() == old(self).inner().pulls().push(r)
                &&& final(self).is_done() == (r == Poll::<Option<Item>>::Ready(None))
                &&& r matches Poll::Ready(Some(_)) ==> final(self).inner().remaining()
                    < old(self).inner().remaining()
            },
    {
        if self.done {
            return Poll::Ready(None);
        }
        let r = self.stream.poll_next(waker);
        if let Poll::Ready(None) = r {
            self.done = true;
        }
        r
    }
}

} // verus!
