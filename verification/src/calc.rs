//! The partition calculator: how many elements the next portion takes, and
//! the closed form of every portion's size and offset.

use vstd::prelude::*;
use vstd::arithmetic::div_mod::{lemma_fundamental_div_mod, lemma_fundamental_div_mod_converse};

verus! {

/// The quotient `len / count` rounded up: the size of the next portion when
/// `len` elements are still to be shared among `count` portions.
pub open spec fn portion_size(len: nat, count: nat) -> nat
    recommends
        count >= 1,
{
    if len % count == 0 {
        len / count
    } else {
        len / count + 1
    }
}

/// The size of the portion at position `index` when `len` elements are
/// divided into `count` portions: the first `len % count` portions hold one
/// element more than the others.
pub open spec fn portion_len(len: nat, count: nat, index: nat) -> nat
    recommends
        count >= 1,
        index < count,
{
    if index < len % count {
        len / count + 1
    } else {
        len / count
    }
}

/// The offset in the source at which the portion at position `index` begins,
/// when `len` elements are divided into `count` portions.
pub open spec fn portion_start(len: nat, count: nat, index: nat) -> nat
    recommends
        count >= 1,
        index <= count,
{
    if index < len % count {
        index * (len / count) + index
    } else {
        index * (len / count) + len % count
    }
}

/// The size of the next portion is the least number that, taken `count`
/// times, covers `len`; it never exceeds `len`, and it is the size that the
/// closed form gives to the first portion.
pub proof fn lemma_portion_size(len: nat, count: nat)
    requires
        count >= 1,
    ensures
        portion_size(len, count) <= len,
        portion_size(len, count) * count >= len,
        (portion_size(len, count) - 1) * count < len || len == 0,
        portion_size(len, count) == portion_len(len, count, 0),
        count == 1 ==> portion_size(len, count) == len,
        len == 0 ==> portion_size(len, count) == 0,
{
    let q: int = len as int / count as int;
    let r: int = len as int % count as int;
    lemma_fundamental_div_mod(len as int, count as int);
    assert(q * count == count * q) by (nonlinear_arith);
    assert(q >= 0) by (nonlinear_arith)
        requires
            len == count * q + r,
            count >= 1,
            0 <= r < count,
    ;
    assert(r > 0 ==> q < len) by (nonlinear_arith)
        requires
            len == count * q + r,
            count >= 1,
            0 <= r < count,
            q >= 0,
    ;
    assert(q <= len) by (nonlinear_arith)
        requires
            len == count * q + r,
            count >= 1,
            0 <= r < count,
            q >= 0,
    ;
    assert((q + 1) * count == q * count + count) by (nonlinear_arith);
    assert((q - 1) * count == q * count - count) by (nonlinear_arith);
    if count == 1 {
        assert(q * 1 == q);
    }
}

/// Recomputing after one portion has left: the quotient stays, and the
/// remainder, where there was one, is one less. So the element that is
/// over goes to the earliest portion still to come.
pub proof fn lemma_residual(len: nat, count: nat)
    requires
        count >= 2,
    ensures
        portion_size(len, count) <= len,
        (len - portion_size(len, count)) / (count - 1) == len / count,
        (len - portion_size(len, count)) % (count - 1) == if len % count == 0 {
            0
        } else {
            len % count - 1
        },
{
    let q: int = len as int / count as int;
    let r: int = len as int % count as int;
    let rest: int = len - portion_size(len, count);
    lemma_portion_size(len, count);
    lemma_fundamental_div_mod(len as int, count as int);
    assert(q * (count - 1) == count * q - q) by (nonlinear_arith);
    if r == 0 {
        lemma_fundamental_div_mod_converse(rest, count - 1, q, 0);
    } else {
        lemma_fundamental_div_mod_converse(rest, count - 1, q, r - 1);
    }
}

/// The closed form seen from the second portion on: what is left after the
/// first portion, divided into one portion less, gives each later portion
/// the size it has in the whole division, at its offset less the first
/// portion's size.
pub proof fn lemma_later_portions(len: nat, count: nat, index: nat)
    requires
        count >= 2,
        1 <= index <= count,
    ensures
        portion_size(len, count) <= len,
        index < count ==> portion_len(
            (len - portion_size(len, count)) as nat,
            (count - 1) as nat,
            (index - 1) as nat,
        ) == portion_len(len, count, index),
        portion_size(len, count) + portion_start(
            (len - portion_size(len, count)) as nat,
            (count - 1) as nat,
            (index - 1) as nat,
        ) == portion_start(len, count, index),
{
    let q: int = len as int / count as int;
    lemma_residual(len, count);
    assert((index - 1) * q == index * q - q) by (nonlinear_arith);
}

/// Offsets and sizes agree: the first portion begins at 0, each portion
/// begins where the one before it ends, and the last one ends at `len`.
pub proof fn lemma_portion_start(len: nat, count: nat, index: nat)
    requires
        count >= 1,
        index < count,
    ensures
        portion_start(len, count, 0) == 0,
        portion_start(len, count, index + 1) == portion_start(len, count, index) + portion_len(
            len,
            count,
            index,
        ),
        portion_start(len, count, index + 1) <= len,
        portion_start(len, count, count) == len,
{
    let q: int = len as int / count as int;
    let r: int = len as int % count as int;
    lemma_fundamental_div_mod(len as int, count as int);
    assert(0 * q == 0);
    assert((index + 1) * q == index * q + q) by (nonlinear_arith);
    assert(count * q == q * count) by (nonlinear_arith);
    assert(q >= 0) by (nonlinear_arith)
        requires
            len == count * q + r,
            count >= 1,
            0 <= r < count,
    ;
    assert((index + 1) * q <= count * q) by (nonlinear_arith)
        requires
            index + 1 <= count,
            q >= 0,
    ;
}

/// Sizes never grow along the sequence, and no two differ by more than one.
pub proof fn lemma_sizes_non_increasing(len: nat, count: nat, i: nat, j: nat)
    requires
        count >= 1,
        i <= j < count,
    ensures
        portion_len(len, count, j) <= portion_len(len, count, i) <= portion_len(len, count, j) + 1,
{
}

/// A source shorter than the number of portions gives one element to each
/// of the first `len` portions and none to the others.
pub proof fn lemma_short_source(len: nat, count: nat, index: nat)
    requires
        len < count,
        index < count,
    ensures
        portion_len(len, count, index) == if index < len {
            1nat
        } else {
            0nat
        },
        portion_start(len, count, index) == if index < len {
            index
        } else {
            len
        },
{
    lemma_fundamental_div_mod_converse(len as int, count as int, 0, len as int);
    assert(index * 0 == 0);
}

/// Computes the size of the next portion: `len / count` rounded up. The
/// result never exceeds `len`, so it is always a valid split point.
pub fn next_portion_size(len: usize, count: usize) -> (size: usize)
    requires
        count >= 1,
    ensures
        size == portion_size(len as nat, count as nat),
        size <= len,
{
    proof {
        lemma_portion_size(len as nat, count as nat);
    }
    let q: usize = len / count;
    if len % count == 0 {
        q
    } else {
        q + 1
    }
}

} // verus!
