//! The registry of shapes: which names make a shape, and from how many
//! numbers each.

use vstd::hash_map::StringHashMap;
use vstd::prelude::*;
use vstd::string::*;

verus! {

/// A table of the shapes that a text may use, by name.
pub struct Registry {
    functions: StringHashMap<usize>,
}

impl View for Registry {
    type V = Map<Seq<char>, usize>;

    /// The arity of each shape, by name.
    closed spec fn view(&self) -> Map<Seq<char>, usize> {
        self.functions@
    }
}

impl Registry {
    /// Registers a shape under `name`, made from `arity` numbers. An earlier
    /// entry under the same name counts no more.
    pub fn register(self, name: &str, arity: usize) -> (r: Registry)
        ensures
            r@ == self@.insert(name@, arity),
    {
        let mut functions = self.functions;
        functions.insert(String::from_str(name), arity);
        Registry { functions }
    }

    /// Whether a shape is registered under `name`.
    pub fn contains(&self, name: &str) -> (r: bool)
        ensures
            r == self@.contains_key(name@),
    {
        self.functions.contains_key(name)
    }

    /// From how many numbers the shape registered under `name` is made.
    pub fn arity(&self, name: &str) -> (r: Option<usize>)
        ensures
            r == if self@.contains_key(name@) {
                Some(self@[name@])
            } else {
                None
            },
    {
        match self.functions.get(name) {
            Some(arity) => Some(*arity),
            None => None,
        }
    }
}

impl Default for Registry {
    fn default() -> (r: Registry)
        ensures
            r@ == Map::<Seq<char>, usize>::empty(),
    {
        Registry { functions: StringHashMap::new() }
    }
}

} // verus!
