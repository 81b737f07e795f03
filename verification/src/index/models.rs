//! What an import index holds.

use vstd::prelude::*;
use vstd::hash_map::StringHashMap;

verus! {

/// The import index of one language: for each symbol that it knows, the
/// statement that imports it.
pub struct ImportIndex {
    /// The language whose imports the index holds.
    pub lang: String,
    /// The import statement of each symbol, in a hash map of std with
    /// `String` keys, under the specification that vstd gives such a map.
    pub entries: StringHashMap<String>,
}

impl ImportIndex {
    /// An index of the language `lang` that knows no symbol yet.
    pub fn new(lang: String) -> (index: ImportIndex)
        ensures
            index.lang == lang,
            index.entries@ == Map::<Seq<char>, String>::empty(),
    {
        ImportIndex { lang, entries: StringHashMap::new() }
    }

    /// Makes `import` the import statement of `term`, in place of an earlier
    /// one.
    pub fn insert(&mut self, term: String, import: String)
        ensures
            final(self).lang == old(self).lang,
            final(self).entries@ == old(self).entries@.insert(term@, import),
    {
        self.entries.insert(term, import);
    }

    /// The import statement of `term`, where the index knows the term.
    pub fn get(&self, term: &str) -> (res: Option<&String>)
        ensures
            match res {
                Some(import) => self.entries@.contains_key(term@) && *import
                    == self.entries@[term@],
                None => !self.entries@.contains_key(term@),
            },
    {
        self.entries.get(term)
    }
}

} // verus!
