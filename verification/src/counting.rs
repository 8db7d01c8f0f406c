//! Marks on cells, and counting the cells that pass a test.

use vstd::prelude::*;
use vstd::set_lib::{lemma_int_range, lemma_len_subset, set_int_range};
use crate::coords::as_ints;

verus! {

/// The test for an index with a set mark.
pub open spec fn marked_pred(marks: Seq<bool>) -> spec_fn(int) -> bool {
    |j: int| 0 <= j < marks.len() && marks[j]
}

/// Distinct indices below `n` are at most `n`.
pub proof fn lemma_distinct_indices_len(s: Seq<int>, n: int)
    requires
        s.no_duplicates(),
        0 <= n,
        forall|k: int| 0 <= k < s.len() ==> 0 <= #[trigger] s[k] < n,
    ensures
        s.len() <= n,
{
    s.unique_seq_to_set();
    lemma_int_range(0, n);
    assert(s.to_set().subset_of(set_int_range(0, n))) by {
        assert forall|x: int| s.to_set().contains(x) implies set_int_range(0, n).contains(x) by {
            let k = choose|k: int| 0 <= k < s.len() && s[k] == x;
            assert(0 <= s[k] < n);
        }
    }
    lemma_len_subset(s.to_set(), set_int_range(0, n));
}

/// In a list without repetition, as many entries pass a test as members of
/// the set of entries do.
pub proof fn lemma_filter_count(s: Seq<int>, p: spec_fn(int) -> bool)
    requires
        s.no_duplicates(),
    ensures
        s.to_set().finite(),
        s.to_set().filter(p).finite(),
        s.filter(p).len() == s.to_set().filter(p).len(),
    decreases s.len(),
{
    broadcast use vstd::seq_lib::group_seq_properties;
    broadcast use vstd::set::group_set_axioms;
    broadcast use vstd::seq_lib::seq_to_set_is_finite;

    s.to_set().lemma_len_filter(p);
    if s.len() == 0 {
        reveal(Seq::filter);
        assert(s.to_set().filter(p) =~= Set::<int>::empty());
    } else {
        let t = s.drop_last();
        let x = s.last();
        assert(s =~= t.push(x));
        assert(t.no_duplicates());
        lemma_filter_count(t, p);
        t.lemma_filter_push(x, p);
        t.lemma_push_to_set_commute(x);
        assert(!t.to_set().contains(x)) by {
            if t.to_set().contains(x) {
                let k = choose|k: int| 0 <= k < t.len() && t[k] == x;
                assert(s[k] == s[s.len() - 1]);
            }
        }
        if p(x) {
            assert(s.to_set().filter(p) =~= t.to_set().filter(p).insert(x));
        } else {
            assert(s.to_set().filter(p) =~= t.to_set().filter(p));
        }
    }
}

/// A vector of `n` marks, none of them set.
pub(crate) fn unmarked(n: usize) -> (marks: Vec<bool>)
    ensures
        marks@.len() == n,
        forall|i: int| 0 <= i < n ==> !marks@[i],
{
    let mut marks: Vec<bool> = Vec::new();
    let mut i: usize = 0;
    while i < n
        invariant
            i <= n,
            marks@.len() == i,
            forall|j: int| 0 <= j < i ==> !marks@[j],
        decreases n - i,
    {
        marks.push(false);
        i += 1;
    }
    marks
}

/// How many of the cells in `neighbors` have a set mark.
pub(crate) fn count_marked(neighbors: &Vec<usize>, marks: &Vec<bool>) -> (count: usize)
    requires
        neighbors@.len() <= 8,
        forall|k: int| 0 <= k < neighbors@.len() ==> #[trigger] neighbors@[k] < marks@.len(),
    ensures
        count == as_ints(neighbors@).filter(marked_pred(marks@)).len(),
        count <= 8,
{
    let ghost listed = as_ints(neighbors@);
    let mut count: usize = 0;
    let mut k: usize = 0;
    proof {
        reveal(Seq::filter);
        assert(listed.take(0) =~= Seq::<int>::empty());
    }
    while k < neighbors.len()
        invariant
            k <= neighbors@.len(),
            neighbors@.len() <= 8,
            listed == as_ints(neighbors@),
            forall|u: int| 0 <= u < neighbors@.len() ==> #[trigger] neighbors@[u] < marks@.len(),
            count == listed.take(k as int).filter(marked_pred(marks@)).len(),
            count <= k,
        decreases neighbors@.len() - k,
    {
        let nb: usize = neighbors[k];
        proof {
            let done = listed.take(k as int);
            assert(listed.take(k + 1) =~= done.push(nb as int));
            done.lemma_filter_push(nb as int, marked_pred(marks@));
        }
        if marks[nb] {
            count += 1;
        }
        k += 1;
    }
    proof {
        assert(listed.take(k as int) =~= listed);
    }
    count
}

} // verus!
