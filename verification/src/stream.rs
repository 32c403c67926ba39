//! A stream that yields the items of an iterator, one per poll.
use vstd::prelude::*;
use vstd::std_specs::iter::IteratorSpec;

verus! {

/// Yields the items of the iterator it holds.
#[verifier::reject_recursive_types(T)]
pub struct IterStream<T, It> where It: Iterator<Item = T> {
    inner: It,
}

impl<T, It> IterStream<T, It> where It: Iterator<Item = T> {
    /// The iterator held.
    pub closed spec fn spec_inner(&self) -> It {
        self.inner
    }

    /// A stream over `recv`.
    pub fn new(recv: It) -> (s: Self)
        ensures
            s.spec_inner() == recv,
    {
        Self { inner: recv }
    }

    /// The next item of the iterator (what each poll of the stream returns).
    pub fn next_item(&mut self) -> (item: Option<T>)
        ensures
            final(self).spec_inner().obeys_prophetic_iter_laws()
                == old(self).spec_inner().obeys_prophetic_iter_laws(),
            old(self).spec_inner().obeys_prophetic_iter_laws() ==> {
                if old(self).spec_inner().remaining().len() > 0 {
                    &&& item == Some(old(self).spec_inner().remaining()[0])
                    &&& final(self).spec_inner().remaining() == old(self).spec_inner().remaining().drop_first()
                } else {
                    &&& item is None
                    &&& final(self).spec_inner().remaining() == old(self).spec_inner().remaining()
                }
            },
    {
        self.inner.next()
    }
}

} // verus!
