//! The table of named string variables that templates are resolved against.

use vstd::hash_map::StringHashMap;
use vstd::prelude::*;

verus! {

/// A mapping from variable names to their values.
///
/// Names are case-sensitive and unique; no order is kept. The view is the
/// mapping itself, from name to value, both as sequences of characters.
pub struct VariableTable {
    map: StringHashMap<String>,
}

impl View for VariableTable {
    type V = Map<Seq<char>, Seq<char>>;

    closed spec fn view(&self) -> Map<Seq<char>, Seq<char>> {
        self.map@.map_values(|value: String| value@)
    }
}

impl VariableTable {
    /// The table that defines no variable.
    pub fn new() -> (table: Self)
        ensures
            table@ == Map::<Seq<char>, Seq<char>>::empty(),
    {
        let table = VariableTable { map: StringHashMap::new() };
        assert(table@ =~= Map::<Seq<char>, Seq<char>>::empty());
        table
    }

    /// Whether `name` is defined.
    pub fn contains_key(&self, name: &str) -> (found: bool)
        ensures
            found == self@.contains_key(name@),
    {
        self.map.contains_key(name)
    }

    /// The value of `name`, if it is defined.
    pub fn get<'a>(&'a self, name: &str) -> (value: Option<&'a str>)
        ensures
            match value {
                Some(v) => self@.contains_key(name@) && self@[name@] == v@,
                None => !self@.contains_key(name@),
            },
    {
        match self.map.get(name) {
            Some(v) => Some(v.as_str()),
            None => None,
        }
    }

    /// Defines `name` as `value`, replacing an earlier definition of `name`.
    pub fn insert(&mut self, name: String, value: String)
        ensures
            final(self)@ == old(self)@.insert(name@, value@),
    {
        self.map.insert(name, value);
        assert(self@ =~= old(self)@.insert(name@, value@));
    }
}

} // verus!
