//! Counts by name.

use vstd::prelude::*;

use crate::text::{lemma_lt_asymmetric, lemma_lt_total, lemma_lt_transitive, less, lt, same};

pub mod laws;

verus! {

/// How often each name came up, in order of the names.
#[derive(Debug, PartialEq)]
pub struct Tally {
    entries: Vec<(String, usize)>,
}

/// Whether the names of a list stand in strictly ascending order.
pub open spec fn names_ascend(list: Seq<(Seq<char>, usize)>) -> bool {
    forall|i: int, j: int| 0 <= i < j < list.len() ==> lt(#[trigger] list[i].0, #[trigger] list[j].0)
}

/// Whether a list has an entry for a name.
pub open spec fn listed(list: Seq<(Seq<char>, usize)>, name: Seq<char>) -> bool {
    exists|i: int| 0 <= i < list.len() && (#[trigger] list[i]).0 == name
}

/// Where a list has its entry for a name.
pub open spec fn place(list: Seq<(Seq<char>, usize)>, name: Seq<char>) -> int {
    choose|i: int| 0 <= i < list.len() && (#[trigger] list[i]).0 == name
}

/// The counts a list holds, by name.
pub open spec fn counts_of(list: Seq<(Seq<char>, usize)>) -> Map<Seq<char>, nat> {
    Map::new(|k: Seq<char>| listed(list, k), |k: Seq<char>| list[place(list, k)].1 as nat)
}

/// How often a name came up.
pub open spec fn count_in(m: Map<Seq<char>, nat>, name: Seq<char>) -> nat {
    if m.contains_key(name) {
        m[name]
    } else {
        0
    }
}

/// `m` with one more of a name.
pub open spec fn bumped(m: Map<Seq<char>, nat>, name: Seq<char>) -> Map<Seq<char>, nat> {
    m.insert(name, count_in(m, name) + 1)
}

proof fn lemma_counts_of(list: Seq<(Seq<char>, usize)>, i: int)
    requires
        names_ascend(list),
        0 <= i < list.len(),
    ensures
        counts_of(list).contains_key(list[i].0),
        counts_of(list)[list[i].0] == list[i].1,
{
    let k = list[i].0;
    assert(list[i].0 == k);
    assert(listed(list, k));
    let j = place(list, k);
    if j < i {
        lemma_lt_asymmetric(list[j].0, list[i].0);
    }
    if i < j {
        lemma_lt_asymmetric(list[i].0, list[j].0);
    }
}

impl View for Tally {
    type V = Map<Seq<char>, nat>;

    closed spec fn view(&self) -> Map<Seq<char>, nat> {
        counts_of(self.entries.deep_view())
    }
}

impl Tally {
    #[verifier::type_invariant]
    spec fn ordered(self) -> bool {
        names_ascend(self.entries.deep_view())
    }

    pub fn new() -> (r: Self)
        ensures
            r@ == Map::<Seq<char>, nat>::empty(),
    {
        let r = Tally { entries: Vec::new() };
        assert(r@ =~= Map::<Seq<char>, nat>::empty());
        r
    }

    /// Counts one more of `name`.
    pub fn bump(&mut self, name: &str)
        requires
            count_in(old(self)@, name@) < usize::MAX,
        ensures
            final(self)@ == bumped(old(self)@, name@),
    {
        proof {
            use_type_invariant(&*self);
        }
        let mut entries: Vec<(String, usize)> = Vec::new();
        std::mem::swap(&mut entries, &mut self.entries);
        let ghost was = entries.deep_view();
        let mut at: usize = 0;
        while at < entries.len() && less(entries[at].0.as_str(), name)
            invariant
                at <= entries@.len(),
                was == entries.deep_view(),
                names_ascend(was),
                forall|i: int| 0 <= i < at ==> lt((#[trigger] was[i]).0, name@),
            decreases entries@.len() - at,
        {
            assert(was[at as int].0 == entries@[at as int].0@);
            at += 1;
        }
        let ghost key = name@;
        if at < entries.len() && same(entries[at].0.as_str(), name) {
            assert(was[at as int].0 == key);
            proof {
                lemma_counts_of(was, at as int);
            }
            let n: usize = entries[at].1;
            let known = entries[at].0.clone();
            entries.set(at, (known, n + 1));
            let ghost now = entries.deep_view();
            proof {
                assert(now =~= was.update(at as int, (key, (n + 1) as usize)));
                assert forall|i: int, j: int| 0 <= i < j < now.len() implies lt(
                    #[trigger] now[i].0,
                    #[trigger] now[j].0,
                ) by {
                    assert(now[i].0 == was[i].0 && now[j].0 == was[j].0);
                }
                assert forall|i: int| 0 <= i < was.len() && (#[trigger] was[i]).0
                    != key implies now.contains(was[i]) by {
                    assert(now[i] == was[i]);
                }
                assert forall|i: int| 0 <= i < now.len() && (#[trigger] now[i]).0
                    != key implies was.contains(now[i]) by {
                    assert(now[i] == was[i]);
                }
                assert(now[at as int] == (key, (n + 1) as usize));
                lemma_bumped(was, now, key);
            }
        } else {
            proof {
                if at < entries@.len() {
                    assert(was[at as int].0 == entries@[at as int].0@);
                    lemma_lt_total(was[at as int].0, key);
                }
            }
            entries.insert(at, (name.to_string(), 1));
            let ghost now = entries.deep_view();
            proof {
                assert(now =~= was.insert(at as int, (key, 1usize)));
                assert forall|i: int| at <= i < was.len() implies lt(key, (#[trigger] was[i]).0) by {
                    if i > at {
                        lemma_lt_transitive(key, was[at as int].0, was[i].0);
                    }
                }
                assert forall|i: int, j: int| 0 <= i < j < now.len() implies lt(
                    #[trigger] now[i].0,
                    #[trigger] now[j].0,
                ) by {
                    if j < at {
                        assert(now[i] == was[i] && now[j] == was[j]);
                    } else if i < at {
                        assert(now[i] == was[i]);
                        if j > at {
                            assert(now[j] == was[j - 1]);
                        }
                    } else {
                        assert(now[j] == was[j - 1]);
                        if i > at {
                            assert(now[i] == was[i - 1]);
                        }
                    }
                }
                assert forall|i: int| 0 <= i < was.len() implies (#[trigger] was[i]).0 != key by {
                    lemma_lt_asymmetric(key, key);
                }
                assert forall|i: int| 0 <= i < was.len() implies now.contains(#[trigger] was[i]) by {
                    if i < at {
                        assert(now[i] == was[i]);
                    } else {
                        assert(now[i + 1] == was[i]);
                    }
                }
                assert forall|i: int| 0 <= i < now.len() && (#[trigger] now[i]).0
                    != key implies was.contains(now[i]) by {
                    if i < at {
                        assert(now[i] == was[i]);
                    } else {
                        assert(now[i] == was[i - 1]);
                    }
                }
                assert(now[at as int] == (key, 1usize));
                lemma_bumped(was, now, key);
            }
        }
        self.entries = entries;
    }

    pub fn get(&self, name: &str) -> (r: Option<&usize>)
        ensures
            r is Some <==> self@.contains_key(name@),
            r matches Some(n) ==> *n == self@[name@],
    {
        proof {
            use_type_invariant(self);
        }
        let ghost list = self.entries.deep_view();
        let mut i: usize = 0;
        while i < self.entries.len()
            invariant
                i <= self.entries@.len(),
                list == self.entries.deep_view(),
                names_ascend(list),
                forall|k: int| 0 <= k < i ==> (#[trigger] list[k]).0 != name@,
            decreases self.entries@.len() - i,
        {
            assert(list[i as int].0 == self.entries@[i as int].0@);
            if same(self.entries[i].0.as_str(), name) {
                proof {
                    lemma_counts_of(list, i as int);
                }
                return Some(&self.entries[i].1);
            }
            i += 1;
        }
        None
    }

    pub fn contains_key(&self, name: &str) -> (r: bool)
        ensures
            r == self@.contains_key(name@),
    {
        self.get(name).is_some()
    }

    /// Every name with its count, in order of the names.
    pub fn entries(&self) -> (r: &Vec<(String, usize)>)
        ensures
            names_ascend(r.deep_view()),
            counts_of(r.deep_view()) == self@,
    {
        proof {
            use_type_invariant(self);
        }
        &self.entries
    }

    /// A tally that was written down as a list; nothing when its names do not
    /// stand in strictly ascending order.
    pub fn of_entries(entries: Vec<(String, usize)>) -> (r: Option<Self>)
        ensures
            r is Some <==> names_ascend(entries.deep_view()),
            r matches Some(t) ==> t@ == counts_of(entries.deep_view()),
    {
        let ghost list = entries.deep_view();
        let mut i: usize = 1;
        while i < entries.len()
            invariant
                1 <= i,
                i <= entries@.len() || entries@.len() == 0,
                list == entries.deep_view(),
                names_ascend(list.take(if i <= list.len() {
                    i as int
                } else {
                    0
                })),
            decreases entries@.len() - i,
        {
            let ghost upto = list.take(i + 1);
            let ghost ahead = list.take(i as int);
            if !less(entries[i - 1].0.as_str(), entries[i].0.as_str()) {
                assert(!lt(list[i - 1].0, list[i as int].0));
                return None;
            }
            assert forall|a: int, b: int| 0 <= a < b < upto.len() implies lt(
                #[trigger] upto[a].0,
                #[trigger] upto[b].0,
            ) by {
                if b < i {
                    assert(upto[a] == ahead[a] && upto[b] == ahead[b]);
                } else {
                    assert(lt(list[i - 1].0, list[i as int].0));
                    if a < i - 1 {
                        assert(lt(ahead[a].0, ahead[i - 1].0));
                        lemma_lt_transitive(list[a].0, list[i - 1].0, list[i as int].0);
                    }
                }
            }
            i += 1;
        }
        assert(list.take(list.len() as int) =~= list);
        Some(Tally { entries })
    }
}

impl Clone for Tally {
    fn clone(&self) -> (r: Self)
        ensures
            r@ == self@,
    {
        proof {
            use_type_invariant(self);
        }
        let mut entries: Vec<(String, usize)> = Vec::new();
        let mut i: usize = 0;
        while i < self.entries.len()
            invariant
                i <= self.entries@.len(),
                entries@.len() == i,
                forall|k: int|
                    0 <= k < i ==> (#[trigger] entries@[k]).0@ == self.entries@[k].0@ && entries@[k].1
                        == self.entries@[k].1,
            decreases self.entries@.len() - i,
        {
            entries.push((self.entries[i].0.clone(), self.entries[i].1));
            i += 1;
        }
        assert(entries.deep_view() =~= self.entries.deep_view());
        Tally { entries }
    }
}

impl Default for Tally {
    fn default() -> (r: Self)
        ensures
            r@ == Map::<Seq<char>, nat>::empty(),
    {
        Tally::new()
    }
}

/// A list that differs only in one more of `key` holds the bumped counts.
proof fn lemma_bumped(was: Seq<(Seq<char>, usize)>, now: Seq<(Seq<char>, usize)>, key: Seq<char>)
    requires
        names_ascend(was),
        names_ascend(now),
        forall|i: int| 0 <= i < was.len() && (#[trigger] was[i]).0 != key ==> now.contains(was[i]),
        forall|i: int| 0 <= i < now.len() && (#[trigger] now[i]).0 != key ==> was.contains(now[i]),
        now.contains((key, (count_in(counts_of(was), key) + 1) as usize)),
        count_in(counts_of(was), key) < usize::MAX,
    ensures
        counts_of(now) == bumped(counts_of(was), key),
{
    let a = counts_of(now);
    let b = bumped(counts_of(was), key);
    let hit = now.index_of((key, (count_in(counts_of(was), key) + 1) as usize));
    assert(now[hit].0 == key);
    lemma_counts_of(now, hit);
    assert forall|k: Seq<char>| a.contains_key(k) == b.contains_key(k) && (a.contains_key(k)
        ==> a[k] == b[k]) by {
        if k != key {
            if a.contains_key(k) {
                let i = place(now, k);
                lemma_counts_of(now, i);
                let j = was.index_of(now[i]);
                assert(was[j] == now[i]);
                lemma_counts_of(was, j);
            }
            if b.contains_key(k) {
                let i = place(was, k);
                lemma_counts_of(was, i);
                let j = now.index_of(was[i]);
                assert(now[j] == was[i]);
                lemma_counts_of(now, j);
            }
        }
    }
    assert(a =~= b);
}

} // verus!
