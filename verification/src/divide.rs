//! The two entry points, as methods on slices.

use vstd::prelude::*;
use crate::portion::Portion;
use crate::portion_mut::PortionMut;

verus! {

/// Division of a contiguous sequence into `n` non-overlapping portions.
pub trait Divide<T> {
    /// The elements of the sequence, in order.
    spec fn elements(&self) -> Seq<T>;

    /// Divides the sequence into `n` non-overlapping portions, handed out
    /// one at a time.
    ///
    /// The elements are distributed as evenly as possible. If the length is
    /// not evenly divisible by `n`, the first portions have one more element
    /// than the others. If the length is smaller than `n`, the last portions
    /// are empty. Dividing into zero portions is not defined.
    fn divide(&self, n: usize) -> (it: Portion<'_, T>)
        requires
            n != 0,
        ensures
            it.remaining() == self.elements(),
            it.count() == n,
    ;

    /// Divides the sequence into `n` mutable non-overlapping portions,
    /// handed out one at a time.
    ///
    /// The portions are cut as `divide` cuts them. What is written through
    /// them, and what the cursor is left with, is what the sequence holds
    /// once the borrow ends. Dividing into zero portions is not defined.
    fn divide_mut(&mut self, n: usize) -> (it: PortionMut<'_, T>)
        requires
            n != 0,
        ensures
            it.remaining() == old(self).elements(),
            it.count() == n,
            final(self).elements() == final(it.rest())@,
    ;
}

impl<T> Divide<T> for [T] {
    open spec fn elements(&self) -> Seq<T> {
        self@
    }

    fn divide(&self, n: usize) -> (it: Portion<'_, T>) {
        Portion::new(self, n)
    }

    fn divide_mut(&mut self, n: usize) -> (it: PortionMut<'_, T>) {
        PortionMut::new(self, n)
    }
}

/// Nothing but a zero count is refused: with `n != 0` the read-only entry
/// point and the constructor behind it accept every slice.
pub proof fn lemma_nonzero_count_accepted<'a, T>(slice: &'a [T], n: usize)
    requires
        n != 0,
    ensures
        call_requires(<[T] as Divide<T>>::divide, (slice, n)),
        call_requires(Portion::<'a, T>::new, (slice, n)),
{
}

/// Nothing but a zero count is refused: with `n != 0` the mutable entry
/// point and the constructor behind it accept every slice.
pub proof fn lemma_nonzero_count_accepted_mut<'a, T>(slice: &'a mut [T], n: usize)
    requires
        n != 0,
    ensures
        call_requires(<[T] as Divide<T>>::divide_mut, (slice, n)),
        call_requires(PortionMut::<'a, T>::new, (slice, n)),
{
}

} // verus!
