//! The mathematical model of a division: the sequence of portions that a
//! source yields, and what holds of it.

use vstd::prelude::*;
use crate::calc::{
    lemma_later_portions, lemma_portion_size, lemma_portion_start, lemma_residual, portion_len,
    portion_size, portion_start,
};

verus! {

/// The portions that are handed out, in order, when `count` portions are
/// still to come and `s` is what is left of the source: the first takes
/// `portion_size` elements from the front, the others divide the rest.
pub open spec fn portions<T>(s: Seq<T>, count: nat) -> Seq<Seq<T>>
    decreases count,
{
    if count == 0 {
        Seq::empty()
    } else {
        let size = portion_size(s.len(), count) as int;
        seq![s.take(size)] + portions(s.skip(size), (count - 1) as nat)
    }
}

/// A division into `count` portions yields exactly `count` of them.
pub proof fn lemma_portions_count<T>(s: Seq<T>, count: nat)
    ensures
        portions(s, count).len() == count,
    decreases count,
{
    if count > 0 {
        let size = portion_size(s.len(), count) as int;
        lemma_portions_count(s.skip(size), (count - 1) as nat);
    }
}

/// The portion at position `index` has the size that the closed form gives:
/// one more than `len / count` for the first `len % count` portions, and
/// `len / count` for the others.
pub proof fn lemma_portions_sizes<T>(s: Seq<T>, count: nat, index: nat)
    requires
        index < count,
    ensures
        index < portions(s, count).len(),
        portions(s, count)[index as int].len() == portion_len(s.len(), count, index),
    decreases count,
{
    let size = portion_size(s.len(), count) as int;
    let rest = s.skip(size);
    lemma_portions_count(s, count);
    lemma_portions_count(rest, (count - 1) as nat);
    lemma_portion_size(s.len(), count);
    if index > 0 {
        lemma_residual(s.len(), count);
        lemma_portions_sizes(rest, (count - 1) as nat, (index - 1) as nat);
        assert(portions(s, count)[index as int] == portions(rest, (count - 1) as nat)[index - 1]);
    }
}

/// Concatenating the portions in the order in which they come gives back
/// the source: nothing is lost, repeated or moved.
pub proof fn lemma_portions_concat<T>(s: Seq<T>, count: nat)
    requires
        count >= 1,
    ensures
        portions(s, count).flatten() == s,
    decreases count,
{
    let size = portion_size(s.len(), count) as int;
    let rest = s.skip(size);
    let tail = portions(rest, (count - 1) as nat);
    lemma_portion_size(s.len(), count);
    vstd::seq_lib::lemma_flatten_concat(seq![s.take(size)], tail);
    assert(seq![s.take(size)].flatten() == s.take(size)) by {
        seq![s.take(size)].lemma_flatten_one_element();
    }
    if count == 1 {
        assert(tail.flatten() =~= rest);
    } else {
        lemma_portions_concat(rest, (count - 1) as nat);
    }
    assert(s.take(size) + rest =~= s);
}

/// Where sequences of the sizes of a division are joined in order, each of
/// them lies in the result exactly where its portion lies in the source:
/// from its own `portion_start` to that of the next.
///
/// For what has been written through the portions of a mutable division,
/// this says that each portion's writes are found in that portion's own
/// range of the source, and nowhere else.
pub proof fn lemma_joined_ranges<T>(parts: Seq<Seq<T>>, len: nat, count: nat, index: nat)
    requires
        count >= 1,
        index < count,
        parts.len() == count,
        forall|j: int|
            0 <= j < count ==> (#[trigger] parts[j]).len() == portion_len(len, count, j as nat),
    ensures
        parts.flatten().len() == len,
        portion_start(len, count, index) <= portion_start(len, count, index + 1) <= len,
        parts.flatten().subrange(
            portion_start(len, count, index) as int,
            portion_start(len, count, index + 1) as int,
        ) == parts[index as int],
    decreases count,
{
    let size = portion_size(len, count) as int;
    let tail = parts.drop_first();
    lemma_portion_size(len, count);
    lemma_portion_start(len, count, index);
    assert(parts.flatten() == parts[0] + tail.flatten());
    if count == 1 {
        assert(tail.flatten() =~= Seq::<T>::empty());
        assert(parts.flatten().subrange(0, len as int) =~= parts[0]);
    } else {
        let fewer = (count - 1) as nat;
        let left = (len - size) as nat;
        assert forall|j: int| 0 <= j < fewer implies (#[trigger] tail[j]).len() == portion_len(
            left,
            fewer,
            j as nat,
        ) by {
            lemma_later_portions(len, count, (j + 1) as nat);
            assert(tail[j] == parts[j + 1]);
        }
        if index == 0 {
            lemma_joined_ranges(tail, left, fewer, 0);
            assert(parts.flatten().subrange(0, size) =~= parts[0]);
        } else {
            let before = (index - 1) as nat;
            lemma_joined_ranges(tail, left, fewer, before);
            lemma_later_portions(len, count, index);
            lemma_later_portions(len, count, index + 1);
            let a = portion_start(left, fewer, before) as int;
            let b = portion_start(left, fewer, before + 1) as int;
            assert(tail[before as int] == parts[index as int]);
            assert(parts.flatten().subrange(size + a, size + b) =~= tail.flatten().subrange(a, b));
        }
    }
}

/// The portion at position `index` is the range of the source from its own
/// `portion_start` to that of the next portion. So the portions are
/// contiguous, in order and pairwise disjoint; with `lemma_portion_start`,
/// the first begins at 0 and the last ends where the source ends.
pub proof fn lemma_portions_ranges<T>(s: Seq<T>, count: nat, index: nat)
    requires
        index < count,
    ensures
        index < portions(s, count).len(),
        portion_start(s.len(), count, index) <= portion_start(s.len(), count, index + 1)
            <= s.len(),
        portions(s, count)[index as int] == s.subrange(
            portion_start(s.len(), count, index) as int,
            portion_start(s.len(), count, index + 1) as int,
        ),
{
    let parts = portions(s, count);
    lemma_portions_count(s, count);
    lemma_portions_concat(s, count);
    assert forall|j: int| 0 <= j < count implies (#[trigger] parts[j]).len() == portion_len(
        s.len(),
        count,
        j as nat,
    ) by {
        lemma_portions_sizes(s, count, j as nat);
    }
    lemma_joined_ranges(parts, s.len(), count, index);
}

/// What a mutable division leaves behind. Let `written` be what the
/// portions of `source` hold in the end, each as long as it was handed out,
/// so that the source ends up as `written` joined in order. Then the source
/// is as long as before, portion `index` is found in its own range, and a
/// portion that was left as it was handed out leaves its range as it was.
pub proof fn lemma_writes_stay_in_range<T>(
    source: Seq<T>,
    count: nat,
    written: Seq<Seq<T>>,
    index: nat,
)
    requires
        index < count,
        written.len() == count,
        forall|j: int|
            0 <= j < count ==> (#[trigger] written[j]).len() == portions(source, count)[j].len(),
    ensures
        written.flatten().len() == source.len(),
        portion_start(source.len(), count, index) <= portion_start(source.len(), count, index + 1)
            <= source.len(),
        written.flatten().subrange(
            portion_start(source.len(), count, index) as int,
            portion_start(source.len(), count, index + 1) as int,
        ) == written[index as int],
        written[index as int] == portions(source, count)[index as int]
            ==> written.flatten().subrange(
            portion_start(source.len(), count, index) as int,
            portion_start(source.len(), count, index + 1) as int,
        ) == source.subrange(
            portion_start(source.len(), count, index) as int,
            portion_start(source.len(), count, index + 1) as int,
        ),
{
    assert forall|j: int| 0 <= j < count implies (#[trigger] written[j]).len() == portion_len(
        source.len(),
        count,
        j as nat,
    ) by {
        lemma_portions_sizes(source, count, j as nat);
    }
    lemma_joined_ranges(written, source.len(), count, index);
    lemma_portions_ranges(source, count, index);
}

} // verus!
