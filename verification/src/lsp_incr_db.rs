//! The language server's small per-file store: the text of each open file and
//! the cached analysis that an edit invalidates.

use vstd::prelude::*;
use crate::strmap::StrMap;

verus! {

/// File texts and cached analyses, keyed by path.
pub struct SimpleLspDb {
    files: StrMap<String>,
    cache: StrMap<String>,
}

impl SimpleLspDb {
    /// The text of each file, by path.
    pub closed spec fn texts(&self) -> Map<Seq<char>, Seq<char>> {
        self.files@.map_values(|t: String| t@)
    }

    /// The cached analysis of each file, by path.
    pub closed spec fn analyses(&self) -> Map<Seq<char>, Seq<char>> {
        self.cache@.map_values(|t: String| t@)
    }

    /// A store with no files.
    pub fn new() -> (db: Self)
        ensures
            db.texts() == Map::<Seq<char>, Seq<char>>::empty(),
            db.analyses() == Map::<Seq<char>, Seq<char>>::empty(),
    {
        let db = SimpleLspDb { files: StrMap::new(), cache: StrMap::new() };
        assert(db.texts() =~= Map::<Seq<char>, Seq<char>>::empty());
        assert(db.analyses() =~= Map::<Seq<char>, Seq<char>>::empty());
        db
    }

    /// Records the new text of `path` and drops its cached analysis.
    pub fn set_file_text(&mut self, path: &str, text: &str)
        ensures
            final(self).texts() == old(self).texts().insert(path@, text@),
            final(self).analyses() == old(self).analyses().remove(path@),
    {
        self.files.insert(String::from_str(path), String::from_str(text));
        self.cache.remove(path);
        assert(self.texts() =~= old(self).texts().insert(path@, text@));
        assert(self.analyses() =~= old(self).analyses().remove(path@));
    }

    /// The recorded text of `path`, if any.
    pub fn file_text(&self, path: &str) -> (r: Option<&String>)
        ensures
            r is Some <==> self.texts().contains_key(path@),
            r matches Some(t) ==> t@ == self.texts()[path@],
    {
        self.files.get(path)
    }
}

impl Default for SimpleLspDb {
    fn default() -> (db: Self)
        ensures
            db.texts() == Map::<Seq<char>, Seq<char>>::empty(),
            db.analyses() == Map::<Seq<char>, Seq<char>>::empty(),
    {
        SimpleLspDb::new()
    }
}

} // verus!
