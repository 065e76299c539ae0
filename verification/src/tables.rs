//! Hash tables of `hashbrown`, with what they hold as mathematical maps and
//! sets.

use vstd::prelude::*;

verus! {

/// A `hashbrown::HashMap` from ids to positions.
#[verifier::external_body]
pub struct IdTable {
    map: hashbrown::HashMap<i64, usize>,
}

/// What an [`IdTable`] holds.
pub uninterp spec fn id_entries(table: IdTable) -> Map<i64, usize>;

impl View for IdTable {
    type V = Map<i64, usize>;

    open spec fn view(&self) -> Map<i64, usize> {
        id_entries(*self)
    }
}

impl IdTable {
    /// `HashMap::new`: nothing is held.
    #[verifier::external_body]
    pub(crate) fn new() -> (r: IdTable)
        ensures
            (id_entries(r) == Map::<i64, usize>::empty()),
    {
        IdTable { map: hashbrown::HashMap::new() }
    }

    /// `HashMap::insert`: the key is held with the value, in place of the value
    /// that it was held with; every other entry stays.
    #[verifier::external_body]
    pub(crate) fn insert(&mut self, id: i64, at: usize)
        ensures
            id_entries(*final(self)) == id_entries(*old(self)).insert(id, at),
    {
        self.map.insert(id, at);
    }

    /// `HashMap::get`: the value that the key is held with, if it is.
    #[verifier::external_body]
    pub(crate) fn get(&self, id: i64) -> (r: Option<usize>)
        ensures
            r == (if id_entries(*self).contains_key(id) {
                Some(id_entries(*self)[id])
            } else {
                None
            }),
    {
        self.map.get(&id).copied()
    }
}

/// A `hashbrown::HashMap` from texts to positions.
#[verifier::external_body]
pub struct TextTable {
    map: hashbrown::HashMap<String, usize>,
}

/// What a [`TextTable`] holds.
pub uninterp spec fn text_entries(table: TextTable) -> Map<Seq<char>, usize>;

impl View for TextTable {
    type V = Map<Seq<char>, usize>;

    open spec fn view(&self) -> Map<Seq<char>, usize> {
        text_entries(*self)
    }
}

impl TextTable {
    /// `HashMap::new`: nothing is held.
    #[verifier::external_body]
    pub(crate) fn new() -> (r: TextTable)
        ensures
            (text_entries(r) == Map::<Seq<char>, usize>::empty()),
    {
        TextTable { map: hashbrown::HashMap::new() }
    }

    /// `HashMap::insert`: the key is held with the value, in place of the value
    /// that it was held with; every other entry stays.
    #[verifier::external_body]
    pub(crate) fn insert(&mut self, key: &str, at: usize)
        ensures
            text_entries(*final(self)) == text_entries(*old(self)).insert(key@, at),
    {
        self.map.insert(key.to_owned(), at);
    }

    /// `HashMap::get`: the value that the key is held with, if it is.
    #[verifier::external_body]
    pub(crate) fn get(&self, key: &str) -> (r: Option<usize>)
        ensures
            r == (if text_entries(*self).contains_key(key@) {
                Some(text_entries(*self)[key@])
            } else {
                None
            }),
    {
        self.map.get(key).copied()
    }
}

/// A `hashbrown::HashSet` of texts.
#[verifier::external_body]
pub struct TextSet {
    set: hashbrown::HashSet<String>,
}

/// What a [`TextSet`] holds.
pub uninterp spec fn text_members(set: TextSet) -> Set<Seq<char>>;

impl View for TextSet {
    type V = Set<Seq<char>>;

    open spec fn view(&self) -> Set<Seq<char>> {
        text_members(*self)
    }
}

/// Whether `walk` holds each text of a set once.
pub open spec fn walks(walk: Seq<String>, set: Set<Seq<char>>) -> bool {
    let found = walk.map_values(|s: String| s@);
    found.no_duplicates() && found.to_set() == set
}

impl TextSet {
    /// `HashSet::new`: nothing is held.
    #[verifier::external_body]
    pub(crate) fn new() -> (r: TextSet)
        ensures
            text_members(r) == Set::<Seq<char>>::empty(),
    {
        TextSet { set: hashbrown::HashSet::new() }
    }

    /// `HashSet::insert`: the text is held, and what was held before.
    #[verifier::external_body]
    pub(crate) fn insert(&mut self, text: &str)
        ensures
            text_members(*final(self)) == text_members(*old(self)).insert(text@),
    {
        self.set.insert(text.to_owned());
    }

    /// `HashSet::remove`: the text is held no more, and the result says whether
    /// it was.
    #[verifier::external_body]
    pub(crate) fn remove(&mut self, text: &str) -> (r: bool)
        ensures
            text_members(*final(self)) == text_members(*old(self)).remove(text@),
            r == text_members(*old(self)).contains(text@),
    {
        self.set.remove(text)
    }

    /// `HashSet::iter`: every text once. The order is left open.
    #[verifier::external_body]
    pub(crate) fn walk(&self) -> (r: Vec<String>)
        ensures
            walks(r@, text_members(*self)),
    {
        self.set.iter().cloned().collect()
    }
}

} // verus!
