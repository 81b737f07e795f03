//! What a caller asks for: the search mode, the output style, the language
//! hint, and the rules on their combinations.

use vstd::prelude::*;

verus! {

/// An illegal combination of arguments.
#[derive(Clone, Copy, Debug, PartialEq, Eq, Structural)]
pub enum ArgError {
    /// The import output style was asked for with a search mode other than
    /// import.
    IllegalStyleImport,
    /// A file search was asked for with an output style other than auto.
    IllegalFileOutputMode,
}

/// The kind of occurrence that is searched for.
#[derive(Clone, Copy, Debug, PartialEq, Eq, Structural)]
pub enum SearchMode {
    /// Every usage of the term.
    AllUsage,
    /// Definitions of classes, traits, objects, structs and the like.
    Class,
    /// File names that hold the term.
    File,
    /// Definitions of functions and methods.
    Function,
    /// Imports of the term.
    Import,
    /// A class or a function, told apart by the term's first character.
    Smart,
}

/// How a hit is written.
#[derive(Clone, Copy, Debug, PartialEq, Eq, Structural)]
pub enum OutputStyle {
    /// Coordinates where the hit has them, its text where it has none.
    Auto,
    /// File name, line and column.
    Coords,
    /// A fresh import statement for the term, made from the matched one.
    Import,
    /// File name, line, column and the matched text.
    Quickfix,
}

/// The language hint that a caller gives.
#[derive(Clone, Copy, Debug, PartialEq, Eq, Structural)]
pub enum Language {
    /// No hint: every file is searched.
    Auto,
    Go,
    Js,
    Python,
    Rust,
    Scala,
}

/// The arguments of one invocation.
#[derive(Clone, Debug)]
pub struct Args {
    /// What to search for.
    pub mode: SearchMode,
    /// How the hits are written.
    pub output_style: OutputStyle,
    /// The language hint.
    pub lang: Language,
    /// Whether only the first hit is wanted.
    pub first_hit: bool,
    /// Whether only the file names of the hits are wanted.
    pub list: bool,
    /// Whether the import index may be consulted where a search finds nothing.
    pub use_import_index_file: bool,
    /// The import index file to read in place of the default one.
    pub import_index_file: Option<String>,
    /// The symbol to search for.
    pub term: String,
}

impl ArgError {
    /// The text that tells a user what is wrong.
    pub open spec fn spec_message(self) -> Seq<char> {
        match self {
            ArgError::IllegalStyleImport => "Cannot use output style = import without search mode = import"@,
            ArgError::IllegalFileOutputMode => "With search mode = file, output style must be auto"@,
        }
    }

    /// The text that tells a user what is wrong.
    pub fn message(&self) -> (res: String)
        ensures
            res@ == self.spec_message(),
    {
        match self {
            ArgError::IllegalStyleImport => "Cannot use output style = import without search mode = import".to_owned(),
            ArgError::IllegalFileOutputMode => "With search mode = file, output style must be auto".to_owned(),
        }
    }
}

impl Language {
    /// The lower-case name of the language, by which import indexes are kept
    /// apart.
    pub open spec fn spec_index_name(self) -> Seq<char> {
        match self {
            Language::Auto => "auto"@,
            Language::Go => "go"@,
            Language::Js => "js"@,
            Language::Python => "python"@,
            Language::Rust => "rust"@,
            Language::Scala => "scala"@,
        }
    }

    /// The lower-case name of the language.
    pub fn index_name(&self) -> (res: String)
        ensures
            res@ == self.spec_index_name(),
    {
        match self {
            Language::Auto => "auto".to_owned(),
            Language::Go => "go".to_owned(),
            Language::Js => "js".to_owned(),
            Language::Python => "python".to_owned(),
            Language::Rust => "rust".to_owned(),
            Language::Scala => "scala".to_owned(),
        }
    }
}

impl Args {
    /// What `validate` answers: the first rule that the arguments break.
    pub open spec fn validated(&self) -> Result<(), ArgError> {
        if self.output_style == OutputStyle::Import && self.mode != SearchMode::Import {
            Err(ArgError::IllegalStyleImport)
        } else if self.mode == SearchMode::File && self.output_style != OutputStyle::Auto {
            Err(ArgError::IllegalFileOutputMode)
        } else {
            Ok(())
        }
    }

    /// Checks for illegal combinations of arguments, so that they are reported
    /// before any search is made.
    pub fn validate(&self) -> (res: Result<(), ArgError>)
        ensures
            res == self.validated(),
    {
        if self.output_style == OutputStyle::Import && self.mode != SearchMode::Import {
            return Err(ArgError::IllegalStyleImport);
        }
        if self.mode == SearchMode::File && self.output_style != OutputStyle::Auto {
            return Err(ArgError::IllegalFileOutputMode);
        }
        Ok(())
    }

    /// Whether the import index is to be consulted after a search that gave
    /// `hits` hits: only for an import search written as imports that found
    /// nothing, and only where the caller allowed it.
    pub fn wants_import_index(&self, hits: usize) -> (res: bool)
        ensures
            res == (hits == 0 && self.use_import_index_file && self.mode == SearchMode::Import
                && self.output_style == OutputStyle::Import),
    {
        hits == 0 && self.use_import_index_file && self.mode == SearchMode::Import
            && self.output_style == OutputStyle::Import
    }
}

} // verus!
