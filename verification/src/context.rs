//! The variable-lookup context a renderer draws values from: a mapping from
//! variable names to replacement strings, viewed as a `Map` over character
//! sequences.

use vstd::prelude::*;
use vstd::hash_map::StringHashMap;

verus! {

/// A read-only (from the renderer's point of view) mapping from variable
/// names to the strings substituted for them.
pub struct Context {
    table: StringHashMap<String>,
}

impl View for Context {
    type V = Map<Seq<char>, Seq<char>>;

    closed spec fn view(&self) -> Map<Seq<char>, Seq<char>> {
        Map::new(
            |k: Seq<char>| self.table@.contains_key(k),
            |k: Seq<char>| self.table@[k]@,
        )
    }
}

impl Context {
    /// An empty context.
    pub fn new() -> (r: Self)
        ensures
            r@ == Map::<Seq<char>, Seq<char>>::empty(),
    {
        let r = Context { table: StringHashMap::new() };
        proof {
            assert(r@ =~= Map::<Seq<char>, Seq<char>>::empty());
        }
        r
    }

    /// Binds `key` to `value`, replacing any earlier binding of `key`.
    pub fn insert(&mut self, key: String, value: String)
        ensures
            final(self)@ == old(self)@.insert(key@, value@),
    {
        self.table.insert(key, value);
        proof {
            assert(self@ =~= old(self)@.insert(key@, value@));
        }
    }

    /// The value bound to `key`, or `None` when `key` is unbound.
    pub fn get<'a>(&'a self, key: &str) -> (r: Option<&'a String>)
        ensures
            match r {
                Some(v) => self@.contains_key(key@) && v@ == self@[key@],
                None => !self@.contains_key(key@),
            },
    {
        self.table.get(key)
    }

    /// Whether `key` is bound in this context.
    pub fn contains_key(&self, key: &str) -> (r: bool)
        ensures
            r == self@.contains_key(key@),
    {
        self.table.contains_key(key)
    }
}

} // verus!
