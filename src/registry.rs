//! Maps from names to text: the registry of stored identifiers, and the
//! environment that `ENV` tags read.
use vstd::prelude::*;
use vstd::hash_map::StringHashMap;

verus! {

/// A map from names to text values. Inserting a name that is present
/// replaces its value.
pub struct TextMap {
    entries: StringHashMap<String>,
}

/// The label → identifier registry of a seeding session.
pub type NameRegistry = TextMap;

/// A snapshot of environment variables, name → value.
pub type Environment = TextMap;

impl View for TextMap {
    type V = Map<Seq<char>, Seq<char>>;

    closed spec fn view(&self) -> Map<Seq<char>, Seq<char>> {
        self.entries@.map_values(|v: String| v@)
    }
}

impl TextMap {
    /// An empty map.
    pub fn new() -> (r: Self)
        ensures
            r@ == Map::<Seq<char>, Seq<char>>::empty(),
    {
        let r = TextMap { entries: StringHashMap::new() };
        assert(r@ =~= Map::<Seq<char>, Seq<char>>::empty());
        r
    }

    /// Sets `name` to `value`, replacing any earlier value of `name`.
    pub fn insert(&mut self, name: String, value: String)
        ensures
            final(self)@ == old(self)@.insert(name@, value@),
    {
        let ghost n = name@;
        let ghost v = value@;
        self.entries.insert(name, value);
        assert(self@ =~= old(self)@.insert(n, v));
    }

    /// The value of `name`, if it is present.
    pub fn get(&self, name: &str) -> (r: Option<&String>)
        ensures
            match r {
                Some(v) => self@.contains_key(name@) && v@ == self@[name@],
                None => !self@.contains_key(name@),
            },
    {
        self.entries.get(name)
    }

    /// The number of names present.
    pub fn len(&self) -> (r: usize)
        ensures
            r == self@.len(),
    {
        proof {
            assert(self@.dom() =~= self.entries@.dom());
        }
        self.entries.len()
    }
}

} // verus!
