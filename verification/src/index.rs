//! The import index: imports worked out beforehand, kept in one file per
//! language, for the symbols that a search of the project does not find.

pub mod models;

use vstd::prelude::*;
use crate::ag::texts;

verus! {

/// Where the index file of a language is kept below the user's home
/// directory: the directories from the home directory down, then the file,
/// which is named after the language.
pub open spec fn index_file_segments(lang: Seq<char>) -> Seq<Seq<char>> {
    seq![".qf"@, "index"@, "imports"@, lang + ".json"@]
}

/// Where the index file of the language `lang` is kept below the user's home
/// directory.
pub fn get_import_index_filename(lang: &str) -> (segments: Vec<String>)
    ensures
        texts(segments@) == index_file_segments(lang@),
{
    let mut segments: Vec<String> = Vec::new();
    segments.push(".qf".to_owned());
    segments.push("index".to_owned());
    segments.push("imports".to_owned());
    segments.push(lang.to_owned().concat(".json"));
    segments
}

} // verus!
