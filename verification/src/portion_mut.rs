//! Mutable portions of a slice.

use vstd::prelude::*;
use crate::calc::{lemma_portion_size, next_portion_size, portion_size};
use crate::partition::{lemma_portions_count, portions};

verus! {

/// A cursor over a slice in `n` mutable non-overlapping portions, starting
/// at the beginning of the slice.
///
/// The portions are mutable slices and do not overlap, so all of them can be
/// alive and written to at once. If the length of the slice is not evenly
/// divided by `n`, the first portions have one more element than the others.
#[must_use]
pub struct PortionMut<'a, T: 'a> {
    v: &'a mut [T],
    n: usize,
}

impl<'a, T: 'a> PortionMut<'a, T> {
    /// The exclusive borrow of the part of the source that has not been
    /// handed out yet. `final(it.rest())@` is what that part holds when the
    /// borrow ends.
    pub closed spec fn rest(&self) -> &'a mut [T] {
        self.v
    }

    /// The part of the source that has not been handed out yet, as it is now.
    pub open spec fn remaining(&self) -> Seq<T> {
        self.rest()@
    }

    /// The number of portions still to come.
    pub closed spec fn count(&self) -> nat {
        self.n as nat
    }

    /// The portions still to come, in order, as they are now.
    pub open spec fn pending(&self) -> Seq<Seq<T>> {
        portions(self.remaining(), self.count())
    }

    /// A cursor that will hand out `slice` in `n` portions. Dividing into
    /// zero portions is not defined. The cursor holds the borrow itself:
    /// what is left in it at the end is what `slice` holds.
    #[inline]
    pub fn new(slice: &'a mut [T], n: usize) -> (it: Self)
        requires
            n != 0,
        ensures
            it.remaining() == old(slice)@,
            it.count() == n,
            final(slice)@ == final(it.rest())@,
    {
        Self { v: slice, n }
    }

    /// Hands out the next portion, or `None` once all have been handed out.
    ///
    /// The portion is the front of what remained, `portion_size` elements
    /// long; the cursor keeps the rest and has one portion less to come.
    /// The borrow is split in two at that point: what the range ends up
    /// holding is what is written through the portion, followed by what the
    /// cursor's own part ends up holding.
    #[inline]
    pub fn next(&mut self) -> (r: Option<&'a mut [T]>)
        ensures
            old(self).count() == 0 ==> r is None && *final(self) == *old(self),
            old(self).count() > 0 ==> ({
                let size = portion_size(old(self).remaining().len(), old(self).count()) as int;
                &&& r is Some
                &&& r.unwrap()@ == old(self).remaining().take(size)
                &&& final(self).remaining() == old(self).remaining().skip(size)
                &&& final(self).count() == old(self).count() - 1
                &&& final(old(self).rest())@ == final(r.unwrap())@ + final(final(self).rest())@
            }),
            old(self).pending() == match r {
                Some(p) => seq![p@] + final(self).pending(),
                None => Seq::empty(),
            },
    {
        if self.n == 0 {
            None
        } else {
            let size: usize = next_portion_size(self.v.len(), self.n);
            self.n -= 1;
            let mut whole: &'a mut [T] = &mut [];
            core::mem::swap(&mut self.v, &mut whole);
            let (fst, snd) = whole.split_at_mut(size);
            self.v = snd;
            Some(fst)
        }
    }

    /// A cursor that is no longer used writes nothing more: the part of the
    /// source that it still holds ends up as it is now.
    pub proof fn lemma_unused_rest_stays(self)
        ensures
            has_resolved(self) ==> final(self.rest())@ == self.remaining(),
    {
    }

    /// Hands out all the portions still to come at once, in order. All of
    /// them are alive together; what the source holds in the end is what
    /// was written through them, joined in that order.
    pub fn collect(self) -> (parts: Vec<&'a mut [T]>)
        ensures
            parts@.len() == self.count(),
            forall|i: int| 0 <= i < parts@.len() ==> #[trigger] parts@[i]@ == self.pending()[i],
            self.count() == 0 ==> final(self.rest())@ == self.remaining(),
            self.count() > 0 ==> final(self.rest())@ == Seq::new(
                parts@.len(),
                |i: int| final(parts@[i])@,
            ).flatten(),
    {
        let mut it = self;
        let mut parts: Vec<&'a mut [T]> = Vec::new();
        proof {
            lemma_portions_count(self.remaining(), self.count());
            assert(Seq::new(parts@.len(), |i: int| final(parts@[i])@) =~= Seq::<Seq<T>>::empty());
        }
        while it.n != 0
            invariant
                self.pending().len() == self.count(),
                parts@.len() + it.count() == self.count(),
                forall|i: int| 0 <= i < parts@.len() ==> #[trigger] parts@[i]@ == self.pending()[i],
                it.pending().len() == it.count(),
                forall|i: int|
                    0 <= i < it.pending().len() ==> it.pending()[i] == self.pending()[
                        parts@.len() + i
                    ],
                parts@.len() > 0 && it.count() == 0 ==> it.remaining().len() == 0,
                parts@.len() == 0 ==> it == self,
                final(self.rest())@ == Seq::new(parts@.len(), |i: int| final(parts@[i])@).flatten()
                    + final(it.rest())@,
            decreases it.count(),
        {
            let ghost before = it;
            let ghost done = Seq::new(parts@.len(), |i: int| final(parts@[i])@);
            let p = it.next().unwrap();
            proof {
                lemma_portions_count(it.remaining(), it.count());
                lemma_portion_size(before.remaining().len(), before.count());
                assert(before.pending()[0] == p@);
                assert forall|i: int| 0 <= i < it.pending().len() implies it.pending()[i]
                    == self.pending()[parts@.len() + 1 + i] by {
                    assert(it.pending()[i] == before.pending()[i + 1]);
                }
            }
            let ghost last = final(p)@;
            parts.push(p);
            proof {
                assert(Seq::new(parts@.len(), |i: int| final(parts@[i])@) =~= done.push(last));
                done.lemma_flatten_push(last);
            }
        }
        parts
    }
}

} // verus!
