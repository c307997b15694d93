//! What counting by name does.

use vstd::prelude::*;

use crate::names::name_or_id;
use crate::tally::{bumped, count_in};

verus! {

/// Counting a name raises its count by one, from nothing where it was not counted
/// yet, and changes no other.
pub proof fn law_counting_raises_one_count(
    m: Map<Seq<char>, nat>,
    name: Seq<char>,
    other: Seq<char>,
)
    requires
        other != name,
    ensures
        bumped(m, name).contains_key(name),
        m.contains_key(name) ==> bumped(m, name)[name] == m[name] + 1,
        !m.contains_key(name) ==> bumped(m, name)[name] == 1,
        bumped(m, name).contains_key(other) == m.contains_key(other),
        m.contains_key(other) ==> bumped(m, name)[other] == m[other],
        count_in(Map::empty(), name) == 0,
        count_in(m, name) == if m.contains_key(name) {
            m[name]
        } else {
            0
        },
{
}

/// An id goes by the name that is known for it, else by itself.
pub proof fn law_ids_go_by_their_names(
    names: Map<Seq<char>, Seq<char>>,
    id: Seq<char>,
    name: Seq<char>,
)
    ensures
        name_or_id(names.insert(id, name), id) == name,
        name_or_id(names.remove(id), id) == id,
{
}

} // verus!
