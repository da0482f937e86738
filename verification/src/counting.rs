//! Counting the entries of a sequence that reach a value.

use crate::inhibition::positive;
use vstd::prelude::*;

verus! {

/// The number of entries of `s` that are at least `v`.
pub open spec fn count_reaching(s: Seq<nat>, v: nat) -> nat
    decreases s.len(),
{
    if s.len() == 0 {
        0
    } else {
        count_reaching(s.drop_last(), v) + if s.last() >= v {
            1nat
        } else {
            0nat
        }
    }
}

/// No more entries reach a value than there are entries; and where the
/// first `below` entries do not reach it, no more than the rest.
pub proof fn lemma_count_reaching_bounded(s: Seq<nat>, v: nat, below: int)
    requires
        0 <= below <= s.len(),
        forall|i: int| 0 <= i < below ==> s[i] < v,
    ensures
        count_reaching(s, v) <= s.len() - below,
    decreases s.len(),
{
    if s.len() > 0 {
        let front = s.drop_last();
        if below == s.len() {
            lemma_count_reaching_bounded(front, v, below - 1);
        } else {
            lemma_count_reaching_bounded(front, v, below);
        }
    }
}

/// The count of a sequence put together from two is the sum of their
/// counts.
pub proof fn lemma_count_reaching_add(a: Seq<nat>, b: Seq<nat>, v: nat)
    ensures
        count_reaching(a + b, v) == count_reaching(a, v) + count_reaching(b, v),
    decreases b.len(),
{
    if b.len() == 0 {
        assert(a + b =~= a);
    } else {
        lemma_count_reaching_add(a, b.drop_last(), v);
        assert((a + b).drop_last() =~= a + b.drop_last());
    }
}

/// Taking one entry out lowers the count by one where that entry reaches
/// the value, and not at all where it does not.
pub proof fn lemma_count_reaching_remove(s: Seq<nat>, v: nat, at: int)
    requires
        0 <= at < s.len(),
    ensures
        count_reaching(s, v) == count_reaching(s.remove(at), v) + if s[at] >= v {
            1nat
        } else {
            0nat
        },
    decreases s.len(),
{
    if at == s.len() - 1 {
        assert(s.remove(at) =~= s.drop_last());
    } else {
        lemma_count_reaching_remove(s.drop_last(), v, at);
        assert(s.remove(at).drop_last() =~= s.drop_last().remove(at));
    }
}

/// Two sequences that hold the same entries, in whatever order, have the
/// same count.
pub proof fn lemma_count_reaching_permuted(s: Seq<nat>, t: Seq<nat>, v: nat)
    requires
        s.to_multiset() == t.to_multiset(),
    ensures
        count_reaching(s, v) == count_reaching(t, v),
    decreases s.len(),
{
    broadcast use vstd::multiset::group_multiset_axioms;
    broadcast use vstd::seq_lib::group_to_multiset_ensures;

    if s.len() == 0 {
        vstd::seq_lib::to_multiset_len(s);
        vstd::seq_lib::to_multiset_len(t);
    } else {
        let x = s.last();
        let front = s.drop_last();
        assert(s =~= front.push(x));
        assert(s.to_multiset().count(x) > 0);
        assert(t.contains(x));
        let at = choose|at: int| 0 <= at < t.len() && t[at] == x;
        let rest = t.remove(at);
        assert(front.to_multiset() =~= s.to_multiset().remove(x));
        assert(rest.to_multiset() =~= t.to_multiset().remove(x));
        lemma_count_reaching_permuted(front, rest, v);
        lemma_count_reaching_remove(t, v, at);
    }
}

/// Leaving out the entries that are zero does not change how many reach a
/// value above zero.
pub proof fn lemma_count_reaching_positive(s: Seq<nat>, v: nat)
    requires
        v > 0,
    ensures
        count_reaching(s.filter(positive()), v) == count_reaching(s, v),
    decreases s.len(),
{
    if s.len() == 0 {
        assert(s.filter(positive()) =~= s) by {
            reveal(Seq::filter);
        }
    } else {
        let front = s.drop_last();
        lemma_count_reaching_positive(front, v);
        front.lemma_filter_push(s.last(), positive());
        assert(front.push(s.last()) =~= s);
        if s.last() > 0 {
            assert(front.filter(positive()).push(s.last()).drop_last() =~= front.filter(
                positive(),
            ));
        }
    }
}

} // verus!
