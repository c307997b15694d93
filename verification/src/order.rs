//! Stable sorting.
//!
//! A sort is described by the order it puts positions in: position `i` comes
//! ahead of position `j` when its key precedes the other, or when the keys tie
//! and `i` is the earlier of the two. That order is total, so there is exactly
//! one sequence of positions that follows it.

use vstd::prelude::*;

use crate::text::{chars_less, chars_of, lemma_lt_asymmetric, lemma_lt_total, lemma_lt_transitive, lt};

pub mod laws;

verus! {

/// What items are sorted by.
pub trait Rank: Sized {
    /// Whether this rank sorts strictly before `other`.
    spec fn precedes(self, other: Self) -> bool;

    proof fn lemma_asymmetric(a: Self, b: Self)
        ensures
            !(a.precedes(b) && b.precedes(a)),
    ;

    /// Ranks that tie with the same rank tie with each other.
    proof fn lemma_weak(a: Self, b: Self, c: Self)
        requires
            !a.precedes(b),
            !b.precedes(c),
        ensures
            !a.precedes(c),
    ;
}

/// A sort key: a value with a rank that can be compared.
pub trait Key: Sized {
    type R: Rank;

    spec fn rank(self) -> Self::R;

    fn is_before(&self, other: &Self) -> (r: bool)
        ensures
            r == self.rank().precedes(other.rank()),
    ;
}

/// The ranks of a sequence of keys.
pub open spec fn ranks<K: Key>(keys: Seq<K>) -> Seq<K::R> {
    Seq::new(keys.len(), |i: int| keys[i].rank())
}

/// Whether position `i` comes ahead of position `j`.
pub open spec fn ahead<R: Rank>(keys: Seq<R>, i: int, j: int) -> bool {
    keys[i].precedes(keys[j]) || (!keys[j].precedes(keys[i]) && i < j)
}

/// Whether `o` lists positions of `keys` in order, each ahead of those behind.
pub open spec fn ascending<R: Rank>(keys: Seq<R>, o: Seq<int>) -> bool {
    forall|p: int, q: int| 0 <= p < q < o.len() ==> #[trigger] ahead(keys, o[p], o[q])
}

/// Whether `o` is the stable sort of `keys`: every position once, in order.
pub open spec fn sorts<R: Rank>(keys: Seq<R>, o: Seq<int>) -> bool {
    &&& o.len() == keys.len()
    &&& forall|p: int| 0 <= p < o.len() ==> 0 <= #[trigger] o[p] < keys.len()
    &&& ascending(keys, o)
}

/// The stable sort of `keys`, as a sequence of positions.
pub open spec fn order_of<R: Rank>(keys: Seq<R>) -> Seq<int> {
    choose|o: Seq<int>| sorts(keys, o)
}

pub open spec fn positions(v: Seq<usize>) -> Seq<int> {
    Seq::new(v.len(), |i: int| v[i] as int)
}

proof fn lemma_ahead_transitive<R: Rank>(keys: Seq<R>, i: int, j: int, k: int)
    requires
        ahead(keys, i, j),
        ahead(keys, j, k),
    ensures
        ahead(keys, i, k),
{
    R::lemma_asymmetric(keys[i], keys[j]);
    R::lemma_asymmetric(keys[j], keys[k]);
    R::lemma_asymmetric(keys[i], keys[k]);
    // Neither k before j nor j before i, so not k before i.
    R::lemma_weak(keys[k], keys[j], keys[i]);
    if !keys[i].precedes(keys[k]) {
        if keys[i].precedes(keys[j]) {
            R::lemma_weak(keys[i], keys[k], keys[j]);
        }
        if keys[j].precedes(keys[k]) {
            R::lemma_weak(keys[j], keys[i], keys[k]);
        }
    }
}

proof fn lemma_ahead_total<R: Rank>(keys: Seq<R>, i: int, j: int)
    requires
        i != j,
    ensures
        ahead(keys, i, j) != ahead(keys, j, i),
{
    R::lemma_asymmetric(keys[i], keys[j]);
}

pub(crate) proof fn lemma_not_ahead_self<R: Rank>(keys: Seq<R>, i: int)
    ensures
        !ahead(keys, i, i),
{
    R::lemma_asymmetric(keys[i], keys[i]);
}

/// A sort lists every position.
pub proof fn lemma_sort_is_onto<R: Rank>(keys: Seq<R>, o: Seq<int>, i: int)
    requires
        sorts(keys, o),
        0 <= i < keys.len(),
    ensures
        o.contains(i),
{
    assert forall|p: int, q: int| 0 <= p < q < o.len() implies o[p] != o[q] by {
        assert(ahead(keys, o[p], o[q]));
        lemma_not_ahead_self(keys, o[p]);
    }
    assert(o.no_duplicates());
    o.unique_seq_to_set();
    let all = vstd::set_lib::set_int_range(0, keys.len() as int);
    vstd::set_lib::lemma_int_range(0, keys.len() as int);
    assert(o.to_set().subset_of(all)) by {
        assert forall|x: int| o.to_set().contains(x) implies all.contains(x) by {
            let p = choose|p: int| 0 <= p < o.len() && o[p] == x;
            assert(0 <= o[p] < keys.len());
        }
    }
    vstd::set_lib::lemma_subset_equality(o.to_set(), all);
    assert(all.contains(i));
    assert(o.to_set().contains(i));
}

/// There is only one sort.
pub proof fn lemma_sort_unique<R: Rank>(keys: Seq<R>, a: Seq<int>, b: Seq<int>)
    requires
        sorts(keys, a),
        sorts(keys, b),
    ensures
        a == b,
{
    assert forall|p: int| 0 <= p < a.len() implies a[p] == b[p] by {
        lemma_sort_agrees(keys, a, b, p);
    }
    assert(a =~= b);
}

proof fn lemma_sort_agrees<R: Rank>(keys: Seq<R>, a: Seq<int>, b: Seq<int>, p: int)
    requires
        sorts(keys, a),
        sorts(keys, b),
        0 <= p < a.len(),
    ensures
        a[p] == b[p],
    decreases p,
{
    if a[p] != b[p] {
        assert forall|q: int| 0 <= q < p implies a[q] == b[q] by {
            lemma_sort_agrees(keys, a, b, q);
        }
        // Whatever b holds at p stands behind p in a, and the other way round.
        lemma_sort_is_onto(keys, a, b[p]);
        let x = choose|x: int| 0 <= x < a.len() && a[x] == b[p];
        lemma_sort_is_onto(keys, b, a[p]);
        let y = choose|y: int| 0 <= y < b.len() && b[y] == a[p];
        if x < p {
            assert(b[x] == b[p]);
            assert(ahead(keys, b[x], b[p]));
            lemma_not_ahead_self(keys, b[p]);
        }
        if y < p {
            assert(a[y] == a[p]);
            assert(ahead(keys, a[y], a[p]));
            lemma_not_ahead_self(keys, a[p]);
        }
        assert(ahead(keys, a[p], a[x]));
        assert(ahead(keys, b[p], b[y]));
        lemma_ahead_total(keys, a[p], b[p]);
    }
}

/// Inserting one more position into a sort.
proof fn lemma_insert_position<R: Rank>(keys: Seq<R>, o: Seq<int>, at: int)
    requires
        keys.len() > 0,
        sorts(keys.drop_last(), o),
        0 <= at <= o.len(),
        forall|p: int| 0 <= p < at ==> ahead(keys, #[trigger] o[p], keys.len() - 1),
        forall|p: int| at <= p < o.len() ==> ahead(keys, keys.len() - 1, #[trigger] o[p]),
    ensures
        sorts(keys, o.insert(at, keys.len() - 1)),
{
    let last = keys.len() - 1;
    let n = o.insert(at, last);
    assert forall|p: int, q: int| 0 <= p < q < n.len() implies #[trigger] ahead(keys, n[p], n[q]) by {
        let pp = if p < at {
            p
        } else {
            p - 1
        };
        let qq = if q < at {
            q
        } else {
            q - 1
        };
        if p != at && q != at {
            assert(n[p] == o[pp] && n[q] == o[qq]);
            assert(ahead(keys.drop_last(), o[pp], o[qq]));
        } else if p == at {
            assert(n[q] == o[qq]);
        } else {
            assert(n[p] == o[pp]);
        }
    }
    assert forall|p: int| 0 <= p < n.len() implies 0 <= #[trigger] n[p] < keys.len() by {
        if p < at {
            assert(n[p] == o[p]);
        } else if p > at {
            assert(n[p] == o[p - 1]);
        }
    }
}

/// Every sequence of ranks has a sort.
pub proof fn lemma_order_exists<R: Rank>(keys: Seq<R>)
    ensures
        sorts(keys, order_of(keys)),
    decreases keys.len(),
{
    if keys.len() == 0 {
        assert(sorts(keys, Seq::<int>::empty()));
    } else {
        let front = keys.drop_last();
        lemma_order_exists(front);
        let o = order_of(front);
        let at = lemma_insertion_point(keys, o, 0);
        lemma_insert_position(keys, o, at);
        assert(sorts(keys, o.insert(at, keys.len() - 1)));
    }
}

proof fn lemma_insertion_point<R: Rank>(keys: Seq<R>, o: Seq<int>, from: int) -> (at: int)
    requires
        keys.len() > 0,
        sorts(keys.drop_last(), o),
        0 <= from <= o.len(),
        forall|p: int| 0 <= p < from ==> ahead(keys, #[trigger] o[p], keys.len() - 1),
    ensures
        from <= at <= o.len(),
        forall|p: int| 0 <= p < at ==> ahead(keys, #[trigger] o[p], keys.len() - 1),
        forall|p: int| at <= p < o.len() ==> ahead(keys, keys.len() - 1, #[trigger] o[p]),
    decreases o.len() - from,
{
    let last = keys.len() - 1;
    if from == o.len() {
        from
    } else if ahead(keys, o[from], last) {
        lemma_insertion_point(keys, o, from + 1)
    } else {
        assert(0 <= o[from] < last);
        lemma_ahead_total(keys, o[from], last);
        assert forall|p: int| from <= p < o.len() implies ahead(keys, last, #[trigger] o[p]) by {
            if p > from {
                assert(ahead(keys.drop_last(), o[from], o[p]));
                assert(0 <= o[p] < last);
                assert(ahead(keys, o[from], o[p]));
                lemma_ahead_transitive(keys, last, o[from], o[p]);
            }
        }
        from
    }
}

/// Sorting one item more inserts it somewhere among the sorted others.
pub proof fn lemma_order_inserts<R: Rank>(keys: Seq<R>) -> (at: int)
    requires
        keys.len() > 0,
    ensures
        0 <= at <= order_of(keys.drop_last()).len(),
        order_of(keys) == order_of(keys.drop_last()).insert(at, keys.len() - 1),
{
    lemma_order_exists(keys);
    lemma_order_exists(keys.drop_last());
    let o = order_of(keys.drop_last());
    let at = lemma_insertion_point(keys, o, 0);
    lemma_insert_position(keys, o, at);
    lemma_sort_unique(keys, order_of(keys), o.insert(at, keys.len() - 1));
    at
}

/// A run of positions, in order.
spec fn run<R: Rank>(keys: Seq<R>, v: Seq<usize>, lo: int, hi: int) -> bool {
    &&& v.len() == hi - lo
    &&& forall|p: int| 0 <= p < v.len() ==> lo <= #[trigger] v[p] < hi
    &&& ascending(keys, positions(v))
}

fn merge<K: Key>(keys: &Vec<K>, a: &Vec<usize>, b: &Vec<usize>, lo: usize, mid: usize, hi: usize) -> (out: Vec<usize>)
    requires
        lo <= mid <= hi <= keys@.len(),
        run(ranks(keys@), a@, lo as int, mid as int),
        run(ranks(keys@), b@, mid as int, hi as int),
    ensures
        run(ranks(keys@), out@, lo as int, hi as int),
{
    let mut out: Vec<usize> = Vec::new();
    let mut i: usize = 0;
    let mut j: usize = 0;
    while i < a.len() || j < b.len()
        invariant
            lo <= mid <= hi <= keys@.len(),
            run(ranks(keys@), a@, lo as int, mid as int),
            run(ranks(keys@), b@, mid as int, hi as int),
            i <= a@.len(),
            j <= b@.len(),
            out@.len() == i + j,
            forall|p: int| 0 <= p < out@.len() ==> lo <= #[trigger] out@[p] < hi,
            ascending(ranks(keys@), positions(out@)),
            forall|p: int, q: int|
                0 <= p < out@.len() && i <= q < a@.len() ==> #[trigger] ahead(
                    ranks(keys@),
                    out@[p] as int,
                    a@[q] as int,
                ),
            forall|p: int, q: int|
                0 <= p < out@.len() && j <= q < b@.len() ==> #[trigger] ahead(
                    ranks(keys@),
                    out@[p] as int,
                    b@[q] as int,
                ),
        decreases a@.len() - i + b@.len() - j,
    {
        let ghost before = out@;
        let ghost pa = positions(a@);
        let ghost pb = positions(b@);
        let take_b: bool = if i >= a.len() {
            true
        } else if j >= b.len() {
            false
        } else {
            keys[b[j]].is_before(&keys[a[i]])
        };
        if take_b {
            let x: usize = b[j];
            out.push(x);
            proof {
                assert forall|q: int| i <= q < a@.len() implies #[trigger] ahead(
                    ranks(keys@),
                    x as int,
                    a@[q] as int,
                ) by {
                    if q > i {
                        assert(ahead(ranks(keys@), pa[i as int], pa[q]));
                        lemma_ahead_transitive(ranks(keys@), x as int, a@[i as int] as int, a@[q] as int);
                    }
                }
                assert forall|q: int| j < q < b@.len() implies #[trigger] ahead(
                    ranks(keys@),
                    x as int,
                    b@[q] as int,
                ) by {
                    assert(ahead(ranks(keys@), pb[j as int], pb[q]));
                }
                let po = positions(out@);
                assert forall|p: int, q: int| 0 <= p < q < po.len() implies #[trigger] ahead(
                    ranks(keys@),
                    po[p],
                    po[q],
                ) by {
                    if q < before.len() {
                        assert(ahead(ranks(keys@), positions(before)[p], positions(before)[q]));
                    } else {
                        assert(ahead(ranks(keys@), before[p] as int, b@[j as int] as int));
                    }
                }
            }
            j += 1;
        } else {
            let x: usize = a[i];
            out.push(x);
            proof {
                if j < b@.len() {
                    assert(a@[i as int] < b@[j as int]);
                    K::R::lemma_asymmetric(
                        ranks(keys@)[a@[i as int] as int],
                        ranks(keys@)[b@[j as int] as int],
                    );
                }
                assert forall|q: int| j <= q < b@.len() implies #[trigger] ahead(
                    ranks(keys@),
                    x as int,
                    b@[q] as int,
                ) by {
                    if q > j {
                        assert(ahead(ranks(keys@), pb[j as int], pb[q]));
                        lemma_ahead_transitive(ranks(keys@), x as int, b@[j as int] as int, b@[q] as int);
                    }
                }
                assert forall|q: int| i < q < a@.len() implies #[trigger] ahead(
                    ranks(keys@),
                    x as int,
                    a@[q] as int,
                ) by {
                    assert(ahead(ranks(keys@), pa[i as int], pa[q]));
                }
                let po = positions(out@);
                assert forall|p: int, q: int| 0 <= p < q < po.len() implies #[trigger] ahead(
                    ranks(keys@),
                    po[p],
                    po[q],
                ) by {
                    if q < before.len() {
                        assert(ahead(ranks(keys@), positions(before)[p], positions(before)[q]));
                    } else {
                        assert(ahead(ranks(keys@), before[p] as int, a@[i as int] as int));
                    }
                }
            }
            i += 1;
        }
    }
    out
}

fn sort_run<K: Key>(keys: &Vec<K>, lo: usize, hi: usize) -> (out: Vec<usize>)
    requires
        lo <= hi <= keys@.len(),
    ensures
        run(ranks(keys@), out@, lo as int, hi as int),
    decreases hi - lo,
{
    if hi - lo <= 1 {
        let mut out: Vec<usize> = Vec::new();
        if lo < hi {
            out.push(lo);
        }
        return out;
    }
    let mid: usize = lo + (hi - lo) / 2;
    let a = sort_run(keys, lo, mid);
    let b = sort_run(keys, mid, hi);
    merge(keys, &a, &b, lo, mid, hi)
}

/// The positions of `keys` in sorted order.
pub fn sorted_positions<K: Key>(keys: &Vec<K>) -> (out: Vec<usize>)
    ensures
        positions(out@) == order_of(ranks(keys@)),
        sorts(ranks(keys@), positions(out@)),
{
    let out = sort_run(keys, 0, keys.len());
    proof {
        let o = positions(out@);
        assert forall|p: int| 0 <= p < o.len() implies 0 <= #[trigger] o[p] < keys@.len() by {
            assert(0 <= out@[p] < keys@.len());
        }
        assert(sorts(ranks(keys@), o));
        lemma_sort_unique(ranks(keys@), o, order_of(ranks(keys@)));
    }
    out
}

// ── filters ──────────────────────────────────────────────────────────────────

/// What a filter keeps satisfies it and comes from the sequence; what satisfies
/// it is kept.
pub proof fn lemma_kept<A>(s: Seq<A>, pred: spec_fn(A) -> bool)
    ensures
        forall|k: int|
            0 <= k < s.filter(pred).len() ==> pred(#[trigger] s.filter(pred)[k]) && s.contains(
                s.filter(pred)[k],
            ),
        forall|i: int| 0 <= i < s.len() && pred(#[trigger] s[i]) ==> s.filter(pred).contains(s[i]),
    decreases s.len(),
{
    reveal(Seq::filter);
    if s.len() > 0 {
        let front = s.drop_last();
        lemma_kept(front, pred);
        let ahead = front.filter(pred);
        let kept = s.filter(pred);
        assert forall|k: int| 0 <= k < kept.len() implies pred(#[trigger] kept[k]) && s.contains(
            kept[k],
        ) by {
            if k < ahead.len() {
                assert(kept[k] == ahead[k]);
                let i = front.index_of(ahead[k]);
                assert(s[i] == kept[k]);
            } else {
                assert(kept[k] == s[s.len() - 1]);
            }
        }
        assert forall|i: int| 0 <= i < s.len() && pred(#[trigger] s[i]) implies kept.contains(
            s[i],
        ) by {
            if i < front.len() {
                assert(front[i] == s[i]);
                let k = ahead.index_of(front[i]);
                assert(kept[k] == s[i]);
            } else {
                assert(kept[ahead.len() as int] == s[i]);
            }
        }
    }
}

// ── texts ────────────────────────────────────────────────────────────────────

impl Rank for Seq<char> {
    open spec fn precedes(self, other: Self) -> bool {
        lt(self, other)
    }

    proof fn lemma_asymmetric(a: Self, b: Self) {
        lemma_lt_asymmetric(a, b);
    }

    proof fn lemma_weak(a: Self, b: Self, c: Self) {
        lemma_lt_total(a, b);
        lemma_lt_total(b, c);
        if lt(b, a) && lt(c, b) {
            lemma_lt_transitive(c, b, a);
        }
        if lt(a, c) {
            lemma_lt_asymmetric(a, c);
        }
    }
}

/// A text to sort by.
pub struct TextKey {
    pub chars: Vec<char>,
}

impl Key for TextKey {
    type R = Seq<char>;

    open spec fn rank(self) -> Seq<char> {
        self.chars@
    }

    fn is_before(&self, other: &Self) -> (r: bool) {
        chars_less(&self.chars, &other.chars)
    }
}

/// Texts in ascending order, with equal ones kept.
pub open spec fn sorted(s: Seq<Seq<char>>) -> Seq<Seq<char>> {
    let o = order_of(s);
    Seq::new(o.len(), |i: int| s[o[i]])
}

/// The texts in ascending order, with equal ones kept.
pub fn sort_texts(v: &Vec<String>) -> (r: Vec<String>)
    ensures
        r.deep_view() == sorted(v.deep_view()),
{
    let mut keys: Vec<TextKey> = Vec::new();
    let mut i: usize = 0;
    while i < v.len()
        invariant
            i <= v@.len(),
            keys@.len() == i,
            forall|k: int| 0 <= k < i ==> (#[trigger] keys@[k]).chars@ == v@[k]@,
        decreases v@.len() - i,
    {
        keys.push(TextKey { chars: chars_of(v[i].as_str()) });
        i += 1;
    }
    assert(ranks(keys@) =~= v.deep_view());
    let order = sorted_positions(&keys);
    let ghost o = positions(order@);
    let mut r: Vec<String> = Vec::new();
    let mut k: usize = 0;
    while k < order.len()
        invariant
            k <= order@.len(),
            o == positions(order@),
            sorts(v.deep_view(), o),
            r@.len() == k,
            forall|p: int| 0 <= p < k ==> (#[trigger] r@[p])@ == v@[o[p]]@,
        decreases order@.len() - k,
    {
        assert(0 <= o[k as int] < v@.len());
        r.push(v[order[k]].clone());
        k += 1;
    }
    assert(r.deep_view() =~= sorted(v.deep_view()));
    r
}

/// Pairs of texts sort by the first, then by the second.
impl Rank for (Seq<char>, Seq<char>) {
    open spec fn precedes(self, other: Self) -> bool {
        lt(self.0, other.0) || (self.0 == other.0 && lt(self.1, other.1))
    }

    proof fn lemma_asymmetric(a: Self, b: Self) {
        lemma_lt_asymmetric(a.0, b.0);
        lemma_lt_asymmetric(a.1, b.1);
    }

    proof fn lemma_weak(a: Self, b: Self, c: Self) {
        lemma_lt_total(a.0, b.0);
        lemma_lt_total(b.0, c.0);
        lemma_lt_total(a.1, b.1);
        lemma_lt_total(b.1, c.1);
        if lt(b.0, a.0) && lt(c.0, b.0) {
            lemma_lt_transitive(c.0, b.0, a.0);
        }
        if lt(b.1, a.1) && lt(c.1, b.1) {
            lemma_lt_transitive(c.1, b.1, a.1);
        }
        lemma_lt_asymmetric(a.0, c.0);
        lemma_lt_asymmetric(a.1, c.1);
    }
}

/// A pair of texts to sort by.
pub struct PairKey {
    pub first: Vec<char>,
    pub second: Vec<char>,
}

impl Key for PairKey {
    type R = (Seq<char>, Seq<char>);

    open spec fn rank(self) -> (Seq<char>, Seq<char>) {
        (self.first@, self.second@)
    }

    fn is_before(&self, other: &Self) -> (r: bool) {
        if chars_less(&self.first, &other.first) {
            return true;
        }
        proof {
            lemma_lt_total(self.first@, other.first@);
            lemma_lt_asymmetric(self.first@, other.first@);
        }
        !chars_less(&other.first, &self.first) && chars_less(&self.second, &other.second)
    }
}

/// Pairs of texts in ascending order, with equal ones kept.
pub open spec fn sorted_pairs(s: Seq<(Seq<char>, Seq<char>)>) -> Seq<(Seq<char>, Seq<char>)> {
    let o = order_of(s);
    Seq::new(o.len(), |i: int| s[o[i]])
}

/// The pairs in ascending order, with equal ones kept.
pub fn sort_pairs(v: &Vec<(String, String)>) -> (r: Vec<(String, String)>)
    ensures
        r.deep_view() == sorted_pairs(v.deep_view()),
        r@.len() == v@.len(),
{
    let mut keys: Vec<PairKey> = Vec::new();
    let mut i: usize = 0;
    while i < v.len()
        invariant
            i <= v@.len(),
            keys@.len() == i,
            forall|k: int|
                0 <= k < i ==> (#[trigger] keys@[k]).first@ == v@[k].0@ && keys@[k].second@
                    == v@[k].1@,
        decreases v@.len() - i,
    {
        keys.push(
            PairKey { first: chars_of(v[i].0.as_str()), second: chars_of(v[i].1.as_str()) },
        );
        i += 1;
    }
    assert(ranks(keys@) =~= v.deep_view());
    let order = sorted_positions(&keys);
    let ghost o = positions(order@);
    let mut r: Vec<(String, String)> = Vec::new();
    let mut k: usize = 0;
    while k < order.len()
        invariant
            k <= order@.len(),
            o == positions(order@),
            sorts(v.deep_view(), o),
            r@.len() == k,
            forall|p: int|
                0 <= p < k ==> (#[trigger] r@[p]).0@ == v@[o[p]].0@ && r@[p].1@ == v@[o[p]].1@,
        decreases order@.len() - k,
    {
        assert(0 <= o[k as int] < v@.len());
        let at: usize = order[k];
        r.push((v[at].0.clone(), v[at].1.clone()));
        k += 1;
    }
    assert(r.deep_view() =~= sorted_pairs(v.deep_view()));
    r
}

/// Sorted texts, each once.
pub open spec fn without_repeats(s: Seq<Seq<char>>) -> Seq<Seq<char>>
    decreases s.len(),
{
    if s.len() == 0 {
        seq![]
    } else {
        let ahead = without_repeats(s.drop_last());
        if s.len() > 1 && s[s.len() - 2] == s.last() {
            ahead
        } else {
            ahead.push(s.last())
        }
    }
}

/// The different texts of `s`, in ascending order.
pub open spec fn sorted_set(s: Seq<Seq<char>>) -> Seq<Seq<char>> {
    without_repeats(sorted(s))
}

/// The different texts of `v`, in ascending order.
pub fn sort_set(v: &Vec<String>) -> (r: Vec<String>)
    ensures
        r.deep_view() == sorted_set(v.deep_view()),
{
    let all = sort_texts(v);
    let ghost s = all.deep_view();
    let mut r: Vec<String> = Vec::new();
    assert(r.deep_view() =~= seq![]);
    let mut i: usize = 0;
    while i < all.len()
        invariant
            i <= all@.len(),
            s == all.deep_view(),
            r.deep_view() == without_repeats(s.take(i as int)),
        decreases all@.len() - i,
    {
        let ghost upto = s.take(i + 1);
        let ghost was = r.deep_view();
        assert(upto.drop_last() =~= s.take(i as int));
        assert(upto.last() == all@[i as int]@);
        if i > 0 {
            assert(upto[i - 1] == all@[i - 1]@);
        }
        if i == 0 || all[i - 1] != all[i] {
            r.push(all[i].clone());
            assert(r.deep_view() =~= was.push(all@[i as int]@));
        }
        i += 1;
    }
    assert(s.take(i as int) =~= s);
    r
}

/// Whether texts stand in strictly ascending order.
pub open spec fn strictly_ascending(s: Seq<Seq<char>>) -> bool {
    forall|i: int, j: int| 0 <= i < j < s.len() ==> lt(#[trigger] s[i], #[trigger] s[j])
}

proof fn lemma_without_repeats(s: Seq<Seq<char>>)
    requires
        forall|i: int, j: int| 0 <= i < j < s.len() ==> !lt(#[trigger] s[j], #[trigger] s[i]),
    ensures
        strictly_ascending(without_repeats(s)),
        s.len() > 0 ==> without_repeats(s).len() > 0 && without_repeats(s).last() == s.last(),
        forall|x: Seq<char>| s.contains(x) <==> #[trigger] without_repeats(s).contains(x),
    decreases s.len(),
{
    if s.len() > 0 {
        let front = s.drop_last();
        let x = s.last();
        lemma_without_repeats(front);
        let w = without_repeats(front);
        let all = without_repeats(s);
        if front.len() > 0 {
            assert(front.last() == s[s.len() - 2]);
        }
        if s.len() > 1 && s[s.len() - 2] == x {
            assert(all == w);
            assert forall|y: Seq<char>| s.contains(y) <==> #[trigger] all.contains(y) by {
                if s.contains(y) {
                    let i = s.index_of(y);
                    if i < front.len() {
                        assert(front[i] == y);
                    } else {
                        assert(front[s.len() - 2] == y);
                    }
                    assert(front.contains(y));
                }
                if all.contains(y) {
                    assert(front.contains(y));
                    let i = front.index_of(y);
                    assert(s[i] == y);
                }
            }
        } else {
            assert(all == w.push(x));
            assert forall|i: int| 0 <= i < w.len() implies lt(#[trigger] w[i], x) by {
                let last = front.last();
                lemma_lt_total(last, x);
                assert(!lt(s[s.len() - 1], s[s.len() - 2]));
                if i < w.len() - 1 {
                    assert(lt(w[i], w[w.len() - 1]));
                    lemma_lt_transitive(w[i], last, x);
                }
            }
            assert forall|y: Seq<char>| s.contains(y) <==> #[trigger] all.contains(y) by {
                if s.contains(y) {
                    let i = s.index_of(y);
                    if i < front.len() {
                        assert(front[i] == y);
                        assert(front.contains(y));
                        assert(w.contains(y));
                        let k = w.index_of(y);
                        assert(all[k] == y);
                    } else {
                        assert(all[w.len() as int] == y);
                    }
                }
                if all.contains(y) {
                    let k = all.index_of(y);
                    if k < w.len() {
                        assert(w[k] == y);
                        assert(w.contains(y));
                        let i = front.index_of(y);
                        assert(s[i] == y);
                    } else {
                        assert(s[s.len() - 1] == y);
                    }
                }
            }
        }
    }
}

/// The sorted set of some texts ascends strictly and holds exactly those texts.
pub proof fn law_sorted_set(s: Seq<Seq<char>>)
    ensures
        strictly_ascending(sorted_set(s)),
        forall|x: Seq<char>| s.contains(x) <==> #[trigger] sorted_set(s).contains(x),
{
    lemma_order_exists(s);
    let o = order_of(s);
    let t = sorted(s);
    assert forall|i: int, j: int| 0 <= i < j < t.len() implies !lt(#[trigger] t[j], #[trigger] t[i]) by {
        assert(ahead(s, o[i], o[j]));
        lemma_lt_asymmetric(t[i], t[j]);
    }
    lemma_without_repeats(t);
    assert forall|x: Seq<char>| s.contains(x) <==> #[trigger] sorted_set(s).contains(x) by {
        if s.contains(x) {
            let i = s.index_of(x);
            lemma_sort_is_onto(s, o, i);
            let p = o.index_of(i);
            assert(t[p] == x);
            assert(t.contains(x));
        }
        if sorted_set(s).contains(x) {
            assert(t.contains(x));
            let p = t.index_of(x);
            assert(0 <= o[p] < s.len());
            assert(s[o[p]] == x);
        }
    }
}

/// Two strictly ascending sequences of the same texts are the same.
pub proof fn lemma_ascending_unique(a: Seq<Seq<char>>, b: Seq<Seq<char>>)
    requires
        strictly_ascending(a),
        strictly_ascending(b),
        forall|x: Seq<char>| #[trigger] a.contains(x) <==> b.contains(x),
    ensures
        a == b,
    decreases a.len(),
{
    if a.len() == 0 || b.len() == 0 {
        if a.len() > 0 {
            assert(a.contains(a[0]));
        }
        if b.len() > 0 {
            assert(b.contains(b[0]));
            assert(a.contains(b[0]));
        }
        assert(a =~= b);
    } else {
        let x = a.last();
        let y = b.last();
        assert(a[a.len() - 1] == x && b[b.len() - 1] == y);
        assert(a.contains(x) && b.contains(y));
        assert(a.contains(y));
        let i = choose|i: int| 0 <= i < b.len() && b[i] == x;
        let j = choose|j: int| 0 <= j < a.len() && a[j] == y;
        if x != y {
            assert(lt(b[i], b[b.len() - 1]));
            assert(lt(a[j], a[a.len() - 1]));
            lemma_lt_asymmetric(x, y);
        }
        let p = a.drop_last();
        let q = b.drop_last();
        assert forall|z: Seq<char>| #[trigger] p.contains(z) <==> q.contains(z) by {
            if p.contains(z) {
                let k = choose|k: int| 0 <= k < p.len() && p[k] == z;
                assert(a[k] == z);
                assert(lt(a[k], a[a.len() - 1]));
                lemma_lt_asymmetric(z, x);
                assert(a.contains(z));
                let m = choose|m: int| 0 <= m < b.len() && b[m] == z;
                assert(q[m] == z);
            }
            if q.contains(z) {
                let k = choose|k: int| 0 <= k < q.len() && q[k] == z;
                assert(b[k] == z);
                assert(lt(b[k], b[b.len() - 1]));
                lemma_lt_asymmetric(z, y);
                assert(b.contains(z));
                assert(a.contains(z));
                let m = choose|m: int| 0 <= m < a.len() && a[m] == z;
                assert(p[m] == z);
            }
        }
        lemma_ascending_unique(p, q);
        assert(a =~= p.push(x));
        assert(b =~= q.push(y));
    }
}

proof fn lemma_nothing_repeats(s: Seq<Seq<char>>)
    requires
        s.no_duplicates(),
    ensures
        without_repeats(s) == s,
    decreases s.len(),
{
    if s.len() > 0 {
        let front = s.drop_last();
        assert(front.no_duplicates());
        lemma_nothing_repeats(front);
        if s.len() > 1 {
            assert(s[s.len() - 2] != s[s.len() - 1]);
        }
        assert(s =~= front.push(s.last()));
    }
}

/// Texts that are all different are sorted as their set is.
pub proof fn lemma_sorted_distinct(s: Seq<Seq<char>>)
    requires
        s.no_duplicates(),
    ensures
        sorted(s) == sorted_set(s),
{
    lemma_order_exists(s);
    let o = order_of(s);
    let t = sorted(s);
    assert forall|i: int, j: int| 0 <= i < t.len() && 0 <= j < t.len() && i != j implies t[i]
        != t[j] by {
        let (p, q) = if i < j {
            (i, j)
        } else {
            (j, i)
        };
        assert(ahead(s, o[p], o[q]));
        assert(0 <= o[p] < s.len() && 0 <= o[q] < s.len());
        if o[p] == o[q] {
            lemma_lt_asymmetric(s[o[p]], s[o[q]]);
        }
    }
    lemma_nothing_repeats(t);
}

} // verus!
