//! The registry: every part that can be loaded, by name.

use crate::part_path::PartPath;
use vstd::hash_map::StringHashMap;
use vstd::prelude::*;
use vstd::string::StringExecFns;

verus! {

/// Maps part names to parts. Seen as a mathematical map from names to parts;
/// a name is either bound to exactly one part or absent.
#[verifier::reject_recursive_types(EXTENSION)]
pub struct PartsMap<EXTENSION>(pub(crate) StringHashMap<PartPath<EXTENSION>>);

impl<EXTENSION> View for PartsMap<EXTENSION> {
    type V = Map<Seq<char>, PartPath<EXTENSION>>;

    closed spec fn view(&self) -> Map<Seq<char>, PartPath<EXTENSION>> {
        self.0@
    }
}

impl<EXTENSION> Default for PartsMap<EXTENSION> {
    /// The registry before anything is loaded: no name is bound.
    fn default() -> (parts: Self)
        ensures
            parts@ == Map::<Seq<char>, PartPath<EXTENSION>>::empty(),
    {
        PartsMap(StringHashMap::new())
    }
}

impl<EXTENSION> PartsMap<EXTENSION> {
    /// Binds `name` to `part`. An earlier binding of `name` is replaced, all
    /// other names keep theirs.
    pub fn insert(&mut self, name: String, part: PartPath<EXTENSION>)
        ensures
            final(self)@ == old(self)@.insert(name@, part),
    {
        self.0.insert(name, part);
    }

    /// Whether `name` is bound.
    pub fn contains(&self, name: &str) -> (present: bool)
        ensures
            present == self@.contains_key(name@),
    {
        self.0.contains_key(name)
    }

    /// The part bound to `name`, if any.
    pub fn may_load_part(&self, name: &str) -> (found: Option<&PartPath<EXTENSION>>)
        ensures
            match found {
                Some(part) => self@.contains_key(name@) && *part == self@[name@],
                None => !self@.contains_key(name@),
            },
    {
        self.0.get(name)
    }

    /// The part bound to `name`. An absent name is reported as a
    /// [`PartNotFoundError`] that carries the name; no part stands in for it.
    pub fn load_part(&self, name: &str) -> (found: Result<&PartPath<EXTENSION>, PartNotFoundError>)
        ensures
            match found {
                Ok(part) => self@.contains_key(name@) && *part == self@[name@],
                Err(err) => !self@.contains_key(name@) && err.part@ == name@,
            },
    {
        match self.0.get(name) {
            Some(part) => Ok(part),
            None => Err(PartNotFoundError::new(name)),
        }
    }
}

/// A part was asked for under a name that the registry does not bind.
#[derive(Debug)]
pub struct PartNotFoundError {
    pub part: String,
}

impl PartNotFoundError {
    /// The failure to find `part`.
    pub fn new(part: &str) -> (err: Self)
        ensures
            err.part@ == part@,
    {
        Self { part: part.to_owned() }
    }

    /// The text of this failure, which names the part.
    pub fn message(&self) -> (text: String)
        ensures
            text@ == "unable to read "@ + self.part@ + " part"@,
    {
        let mut text = String::from_str("unable to read ");
        text.append(self.part.as_str());
        text.append(" part");
        text
    }
}

} // verus!
