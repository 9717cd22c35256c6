//! Read-only portions of a slice.

use vstd::prelude::*;
use crate::calc::{next_portion_size, portion_size};
use crate::partition::{lemma_portions_count, portions};

verus! {

/// A cursor over a slice in `n` non-overlapping portions, starting at the
/// beginning of the slice.
///
/// The portions are slices and do not overlap. If the length of the slice is
/// not evenly divided by `n`, the first portions have one more element than
/// the others. Once `n` portions have been handed out the cursor is spent.
#[must_use]
pub struct Portion<'a, T: 'a> {
    v: &'a [T],
    n: usize,
}

impl<'a, T: 'a> Portion<'a, T> {
    /// The part of the source that has not been handed out yet.
    pub closed spec fn remaining(&self) -> Seq<T> {
        self.v@
    }

    /// The number of portions still to come.
    pub closed spec fn count(&self) -> nat {
        self.n as nat
    }

    /// The portions still to come, in order.
    pub open spec fn pending(&self) -> Seq<Seq<T>> {
        portions(self.remaining(), self.count())
    }

    /// A cursor that will hand out `slice` in `n` portions. Dividing into
    /// zero portions is not defined.
    #[inline]
    pub fn new(slice: &'a [T], n: usize) -> (it: Self)
        requires
            n != 0,
        ensures
            it.remaining() == slice@,
            it.count() == n,
    {
        Self { v: slice, n }
    }

    /// Hands out the next portion, or `None` once all have been handed out.
    ///
    /// The portion is the front of what remained, `portion_size` elements
    /// long; the cursor keeps the rest and has one portion less to come.
    #[inline]
    pub fn next(&mut self) -> (r: Option<&'a [T]>)
        ensures
            old(self).count() == 0 ==> r is None && *final(self) == *old(self),
            old(self).count() > 0 ==> ({
                let size = portion_size(old(self).remaining().len(), old(self).count()) as int;
                &&& r is Some
                &&& r.unwrap()@ == old(self).remaining().take(size)
                &&& final(self).remaining() == old(self).remaining().skip(size)
                &&& final(self).count() == old(self).count() - 1
            }),
            old(self).pending() == match r {
                Some(p) => seq![p@] + final(self).pending(),
                None => Seq::empty(),
            },
    {
        if self.n == 0 {
            None
        } else {
            let size: usize = next_portion_size(self.v.len(), self.n);
            self.n -= 1;
            let (fst, snd) = self.v.split_at(size);
            self.v = snd;
            Some(fst)
        }
    }

    /// Hands out all the portions still to come at once, in order.
    pub fn collect(self) -> (parts: Vec<&'a [T]>)
        ensures
            parts@.len() == self.count(),
            forall|i: int| 0 <= i < parts@.len() ==> (#[trigger] parts@[i])@ == self.pending()[i],
    {
        let mut it = self;
        let mut parts: Vec<&'a [T]> = Vec::new();
        proof {
            lemma_portions_count(self.remaining(), self.count());
        }
        while it.n != 0
            invariant
                self.pending().len() == self.count(),
                parts@.len() + it.count() == self.count(),
                forall|i: int|
                    0 <= i < parts@.len() ==> (#[trigger] parts@[i])@ == self.pending()[i],
                it.pending().len() == it.count(),
                forall|i: int|
                    0 <= i < it.pending().len() ==> it.pending()[i] == self.pending()[
                        parts@.len() + i
                    ],
            decreases it.count(),
        {
            let ghost before = it;
            let p = it.next().unwrap();
            proof {
                lemma_portions_count(it.remaining(), it.count());
                assert(before.pending()[0] == p@);
                assert forall|i: int| 0 <= i < it.pending().len() implies it.pending()[i]
                    == self.pending()[parts@.len() + 1 + i] by {
                    assert(it.pending()[i] == before.pending()[i + 1]);
                }
            }
            parts.push(p);
        }
        parts
    }
}

} // verus!
