//! What sorting does.

use vstd::prelude::*;

use crate::order::{
    ahead, law_sorted_set, lemma_order_exists, order_of, sorted, sorted_pairs, sorted_set,
};
use crate::text::{lemma_lt_total, lt};

verus! {

/// Whether some positions are each of `n` once.
pub open spec fn each_once(o: Seq<int>, n: nat) -> bool {
    o.len() == n && o.no_duplicates() && forall|i: int|
        0 <= i < o.len() ==> 0 <= #[trigger] o[i] < n
}

/// Sorting texts puts each of them in its place, none twice and none left out: the
/// lesser ahead of the greater, and equal ones as they were.
pub proof fn law_sorting_puts_each_in_its_place(s: Seq<Seq<char>>) -> (o: Seq<int>)
    ensures
        each_once(o, s.len()),
        sorted(s).len() == s.len(),
        forall|i: int| 0 <= i < s.len() ==> #[trigger] sorted(s)[i] == s[o[i]],
        forall|i: int, j: int|
            0 <= i < j < s.len() ==> lt(#[trigger] sorted(s)[i], #[trigger] sorted(s)[j]) || (sorted(
                s,
            )[i] == sorted(s)[j] && o[i] < o[j]),
{
    lemma_order_exists(s);
    let o = order_of(s);
    let t = sorted(s);
    assert forall|i: int, j: int| 0 <= i < j < s.len() implies lt(
        #[trigger] t[i],
        #[trigger] t[j],
    ) || (t[i] == t[j] && o[i] < o[j]) by {
        assert(ahead(s, o[i], o[j]));
        lemma_lt_total(t[i], t[j]);
    }
    assert forall|i: int, j: int| 0 <= i < o.len() && 0 <= j < o.len() && i != j implies o[i]
        != o[j] by {
        if i < j {
            assert(ahead(s, o[i], o[j]));
            crate::order::lemma_not_ahead_self(s, o[i]);
        } else {
            assert(ahead(s, o[j], o[i]));
            crate::order::lemma_not_ahead_self(s, o[i]);
        }
    }
    o
}

/// Sorting pairs goes by the first, and where that ties by the second.
pub proof fn law_pairs_sort_by_first_and_second(s: Seq<(Seq<char>, Seq<char>)>) -> (o: Seq<int>)
    ensures
        each_once(o, s.len()),
        sorted_pairs(s).len() == s.len(),
        forall|i: int| 0 <= i < s.len() ==> #[trigger] sorted_pairs(s)[i] == s[o[i]],
        forall|i: int, j: int|
            0 <= i < j < s.len() ==> {
                let (a, b) = (#[trigger] sorted_pairs(s)[i], #[trigger] sorted_pairs(s)[j]);
                lt(a.0, b.0) || (a.0 == b.0 && (lt(a.1, b.1) || a.1 == b.1))
            },
{
    lemma_order_exists(s);
    let o = order_of(s);
    let t = sorted_pairs(s);
    assert forall|i: int, j: int| 0 <= i < j < s.len() implies {
        let (a, b) = (#[trigger] t[i], #[trigger] t[j]);
        lt(a.0, b.0) || (a.0 == b.0 && (lt(a.1, b.1) || a.1 == b.1))
    } by {
        assert(ahead(s, o[i], o[j]));
        lemma_lt_total(t[i].0, t[j].0);
        lemma_lt_total(t[i].1, t[j].1);
    }
    assert forall|i: int, j: int| 0 <= i < o.len() && 0 <= j < o.len() && i != j implies o[i]
        != o[j] by {
        if i < j {
            assert(ahead(s, o[i], o[j]));
            crate::order::lemma_not_ahead_self(s, o[i]);
        } else {
            assert(ahead(s, o[j], o[i]));
            crate::order::lemma_not_ahead_self(s, o[i]);
        }
    }
    o
}

/// The texts of a list as a set are each of them once, in order.
pub proof fn law_sets_hold_each_once(s: Seq<Seq<char>>, x: Seq<char>, i: int, j: int)
    ensures
        sorted_set(s).contains(x) <==> s.contains(x),
        0 <= i < j < sorted_set(s).len() ==> lt(sorted_set(s)[i], sorted_set(s)[j]),
{
    law_sorted_set(s);
}

} // verus!
