//! Maps and sets keyed by text.

use vstd::hash_map::StringHashMap;
use vstd::hash_set::StringHashSet;
use vstd::prelude::*;

verus! {

/// A map from texts to values.
#[verifier::reject_recursive_types(V)]
pub struct TextMap<V> {
    entries: StringHashMap<V>,
}

impl<V> View for TextMap<V> {
    type V = Map<Seq<char>, V>;

    closed spec fn view(&self) -> Map<Seq<char>, V> {
        self.entries@
    }
}

impl<V> TextMap<V> {
    /// The map without entries.
    pub fn new() -> (m: Self)
        ensures
            m@ == Map::<Seq<char>, V>::empty(),
    {
        TextMap { entries: StringHashMap::new() }
    }

    /// Sets the value at `key`; a value that stood there is replaced.
    pub fn insert(&mut self, key: String, value: V)
        ensures
            final(self)@ == old(self)@.insert(key@, value),
    {
        self.entries.insert(key, value);
    }

    /// The value at `key`, if there is one.
    pub fn get(&self, key: &str) -> (value: Option<&V>)
        ensures
            match value {
                Some(v) => self@.contains_key(key@) && *v == self@[key@],
                None => !self@.contains_key(key@),
            },
    {
        self.entries.get(key)
    }

    /// Takes the entry at `key` out, if there is one.
    pub fn remove(&mut self, key: &str)
        ensures
            final(self)@ == old(self)@.remove(key@),
    {
        self.entries.remove(key);
    }

    /// Whether there is a value at `key`.
    pub fn contains_key(&self, key: &str) -> (yes: bool)
        ensures
            yes == self@.contains_key(key@),
    {
        self.entries.contains_key(key)
    }
}

/// A set of texts.
pub struct TextSet {
    entries: StringHashSet,
}

impl View for TextSet {
    type V = Set<Seq<char>>;

    closed spec fn view(&self) -> Set<Seq<char>> {
        self.entries@
    }
}

impl TextSet {
    /// The set without members.
    pub fn new() -> (s: Self)
        ensures
            s@ == Set::<Seq<char>>::empty(),
    {
        TextSet { entries: StringHashSet::new() }
    }

    /// Adds a member; tells whether it was new.
    pub fn insert(&mut self, key: String) -> (new: bool)
        ensures
            final(self)@ == old(self)@.insert(key@),
            new == !old(self)@.contains(key@),
    {
        let new = !self.entries.contains(key.as_str());
        self.entries.insert(key);
        new
    }

    /// Whether a text is a member.
    pub fn contains(&self, key: &str) -> (yes: bool)
        ensures
            yes == self@.contains(key@),
    {
        self.entries.contains(key)
    }
}

} // verus!
