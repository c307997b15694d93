//! A table of names by id.

use vstd::hash_map::StringHashMap;
use vstd::prelude::*;

verus! {

/// Maps ids to names. Inserting an id again replaces its name.
pub struct Names {
    map: StringHashMap<String>,
}

impl View for Names {
    type V = Map<Seq<char>, Seq<char>>;

    closed spec fn view(&self) -> Map<Seq<char>, Seq<char>> {
        self.map@.map_values(|s: String| s@)
    }
}

/// The name of `id`, or the id itself when it has none.
pub open spec fn name_or_id(names: Map<Seq<char>, Seq<char>>, id: Seq<char>) -> Seq<char> {
    if names.contains_key(id) {
        names[id]
    } else {
        id
    }
}

impl Names {
    pub fn new() -> (r: Self)
        ensures
            r@ == Map::<Seq<char>, Seq<char>>::empty(),
    {
        let r = Names { map: StringHashMap::new() };
        assert(r@ =~= Map::<Seq<char>, Seq<char>>::empty());
        r
    }

    pub fn insert(&mut self, id: String, name: String)
        ensures
            final(self)@ == old(self)@.insert(id@, name@),
    {
        let ghost key = id@;
        self.map.insert(id, name);
        assert(self@ =~= old(self)@.insert(key, name@));
    }

    /// The name of `id`, or the id itself when it has none.
    pub fn name_or_id(&self, id: &str) -> (r: String)
        ensures
            r@ == name_or_id(self@, id@),
    {
        match self.map.get(id) {
            Some(name) => name.clone(),
            None => id.to_string(),
        }
    }
}

impl Default for Names {
    fn default() -> (r: Self)
        ensures
            r@ == Map::<Seq<char>, Seq<char>>::empty(),
    {
        Names::new()
    }
}

} // verus!
