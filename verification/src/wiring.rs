//! The random wiring of a column: which input bits its synapses reach.
//!
//! A pool is a sample without replacement of the positions of the input,
//! drawn by Floyd's method and kept in ascending order.

use crate::random::{advance_by, draw_below, RandomSource};
use vstd::prelude::*;

verus! {

/// Every entry is smaller than the one after it.
pub open spec fn ascending(s: Seq<nat>) -> bool {
    forall|i: int, j: int| 0 <= i < j < s.len() ==> s[i] < s[j]
}

/// A sequence whose every entry is smaller than the next is ascending.
pub proof fn lemma_ascending_by_steps(s: Seq<nat>)
    requires
        forall|i: int| 0 < i < s.len() ==> s[i - 1] < #[trigger] s[i],
    ensures
        ascending(s),
    decreases s.len(),
{
    if s.len() > 1 {
        let front = s.drop_last();
        assert forall|i: int| 0 < i < front.len() implies front[i - 1] < #[trigger] front[i] by {
            assert(s[i - 1] < s[i]);
        }
        lemma_ascending_by_steps(front);
        assert forall|i: int, j: int| 0 <= i < j < s.len() implies s[i] < s[j] by {
            if j == s.len() - 1 {
                assert(s[j - 1] < s[j]);
                if i < j - 1 {
                    assert(front[i] < front[j - 1]);
                }
            } else {
                assert(front[i] < front[j]);
            }
        }
    }
}

/// `s` with `x` put in behind the last entry that is not above it.
pub open spec fn inserted(s: Seq<nat>, x: nat) -> Seq<nat>
    decreases s.len(),
{
    if s.len() == 0 || s.last() <= x {
        s.push(x)
    } else {
        inserted(s.drop_last(), x).push(s.last())
    }
}

/// The pool of `size` positions below `length` that a source in `state`
/// gives, in ascending order.
///
/// The pool of `size - 1` positions below `length - 1` is drawn first. One
/// more number `t` below `length` is then drawn: the pool gets `t`, or
/// `length - 1` where it holds `t` already.
pub open spec fn sampled(state: u64, length: nat, size: nat) -> Seq<nat>
    decreases size,
{
    if size == 0 || length == 0 {
        Seq::empty()
    } else {
        let rest = sampled(state, (length - 1) as nat, (size - 1) as nat);
        let t = draw_below(advance_by(state, (size - 1) as nat), length);
        if rest.contains(t) {
            rest.push((length - 1) as nat)
        } else {
            inserted(rest, t)
        }
    }
}

/// The positions of a pool as numbers.
pub open spec fn positions(pool: Seq<usize>) -> Seq<nat> {
    pool.map_values(|x: usize| x as nat)
}

/// In an ascending sequence that lacks `x`, `inserted` puts `x` at the
/// first place whose entry is above it.
pub proof fn lemma_inserted_at(s: Seq<nat>, x: nat, at: int)
    requires
        ascending(s),
        0 <= at <= s.len(),
        forall|i: int| 0 <= i < at ==> s[i] < x,
        forall|i: int| at <= i < s.len() ==> x < s[i],
    ensures
        inserted(s, x) == s.insert(at, x),
        ascending(s.insert(at, x)),
    decreases s.len(),
{
    if at == s.len() {
        assert(s.insert(at, x) =~= s.push(x));
    } else {
        let front = s.drop_last();
        lemma_inserted_at(front, x, at);
        assert(front.insert(at, x).push(s.last()) =~= s.insert(at, x));
    }
}

/// A sampled pool has `size` positions, all below `length`, in ascending
/// order: none occurs twice.
pub proof fn lemma_sampled_is_a_pool(state: u64, length: nat, size: nat)
    requires
        size <= length,
    ensures
        sampled(state, length, size).len() == size,
        ascending(sampled(state, length, size)),
        forall|i: int|
            0 <= i < size ==> #[trigger] sampled(state, length, size)[i] < length,
    decreases size,
{
    if size == 0 || length == 0 {
    } else {
        let rest = sampled(state, (length - 1) as nat, (size - 1) as nat);
        lemma_sampled_is_a_pool(state, (length - 1) as nat, (size - 1) as nat);
        let t = draw_below(advance_by(state, (size - 1) as nat), length);
        if rest.contains(t) {
        } else {
            let at = first_not_below(rest, t);
            lemma_first_not_below(rest, t);
            lemma_inserted_at(rest, t, at);
        }
    }
}

/// The number of entries of `s` that are below `x`.
pub open spec fn first_not_below(s: Seq<nat>, x: nat) -> int
    decreases s.len(),
{
    if s.len() == 0 || s.last() < x {
        s.len() as int
    } else {
        first_not_below(s.drop_last(), x)
    }
}

/// In an ascending sequence the entries below `x` come first.
pub proof fn lemma_first_not_below(s: Seq<nat>, x: nat)
    requires
        ascending(s),
    ensures
        0 <= first_not_below(s, x) <= s.len(),
        forall|i: int| 0 <= i < first_not_below(s, x) ==> s[i] < x,
        forall|i: int| first_not_below(s, x) <= i < s.len() ==> x <= s[i],
    decreases s.len(),
{
    if s.len() == 0 {
    } else if s.last() < x {
        assert forall|i: int| 0 <= i < s.len() implies s[i] < x by {
            if i < s.len() - 1 {
                assert(s[i] < s[s.len() - 1]);
            }
        }
    } else {
        let front = s.drop_last();
        lemma_first_not_below(front, x);
        assert forall|i: int| 0 <= i < first_not_below(s, x) implies s[i] < x by {
            assert(front[i] == s[i]);
        }
        assert forall|i: int| first_not_below(s, x) <= i < s.len() implies x <= s[i] by {
            if i < s.len() - 1 {
                assert(front[i] == s[i]);
            }
        }
    }
}

/// Draws a pool of `size` positions below `length`.
pub fn sample_pool(rng: &mut RandomSource, length: usize, size: usize) -> (pool: Vec<usize>)
    requires
        size <= length,
    ensures
        positions(pool@) == sampled(old(rng)@, length as nat, size as nat),
        final(rng)@ == advance_by(old(rng)@, size as nat),
        pool.len() == size,
        forall|i: int| 0 <= i < pool.len() ==> pool[i] < length,
        forall|i: int, j: int| 0 <= i < j < pool.len() ==> pool[i] < pool[j],
{
    let mut pool: Vec<usize> = Vec::new();
    let first: usize = length - size;
    let mut j: usize = first;
    let ghost seed = rng@;
    assert(positions(pool@) =~= sampled(seed, j as nat, 0));
    while j < length
        invariant
            first == length - size,
            first <= j <= length,
            pool.len() == j - first,
            positions(pool@) == sampled(seed, j as nat, (j - first) as nat),
            rng@ == advance_by(seed, (j - first) as nat),
        decreases length - j,
    {
        let ghost rest = positions(pool@);
        proof {
            lemma_sampled_is_a_pool(seed, j as nat, (j - first) as nat);
        }
        let t: usize = rng.below(j + 1);
        let mut at: usize = 0;
        while at < pool.len() && pool[at] < t
            invariant
                at <= pool.len(),
                rest == positions(pool@),
                forall|i: int| 0 <= i < at ==> rest[i] < t,
            decreases pool.len() - at,
        {
            assert(rest[at as int] == pool[at as int]);
            at += 1;
        }
        if at < pool.len() && pool[at] == t {
            assert(rest[at as int] == t);
            pool.push(j);
            assert(positions(pool@) =~= rest.push(j as nat));
        } else {
            proof {
                assert(at < rest.len() ==> rest[at as int] == pool[at as int]);
                assert forall|i: int| at <= i < rest.len() implies (t as nat) < rest[i] by {
                    if i > at {
                        assert(rest[at as int] < rest[i]);
                    }
                }
                assert(!rest.contains(t as nat));
                lemma_inserted_at(rest, t as nat, at as int);
            }
            pool.insert(at, t);
            assert(positions(pool@) =~= rest.insert(at as int, t as nat));
        }
        j += 1;
    }
    proof {
        lemma_sampled_is_a_pool(seed, length as nat, size as nat);
        assert forall|i: int| 0 <= i < pool.len() implies pool[i] < length by {
            assert(positions(pool@)[i] == pool[i]);
        }
        assert forall|i: int, j: int| 0 <= i < j < pool.len() implies pool[i] < pool[j] by {
            assert(positions(pool@)[i] == pool[i]);
            assert(positions(pool@)[j] == pool[j]);
        }
    }
    pool
}

} // verus!
