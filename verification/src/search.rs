//! Hits and searches: what one line of the search tool's output says, the
//! language of the file that it names, and the search that turns the whole
//! output into ranked hits.

pub mod strategy;

use vstd::prelude::*;
use crate::ag::{Ag, AgError, command_line, texts};
use crate::args::{Language, SearchMode};
use crate::number::{NumberError, parse_u64, parsed_u64};
use crate::search::strategy::go::GoSmartMode;
use crate::search::strategy::{
    SmartMode, get_strategy, pattern_for, smart_template_for, template_for, term_names_function,
};
use crate::sort::{is_ranking_of, lemma_ranked_hit_is_hit, sort_hits, views};
use crate::text::{
    chars_of, is_blank, is_blank_slice, lemma_split_once_at, split_once, split_once_slice,
    string_of,
};

verus! {

/// Why a search gave no hits to return.
#[derive(Clone, Debug, PartialEq, Eq)]
pub enum SearchError {
    /// The search tool gave no output to work on.
    Ag(AgError),
    /// A line of the tool's output has fewer than four fields.
    HitFragmentCount,
    /// The line or column field of a line of the tool's output is no number.
    HitParseError(NumberError),
}

impl SearchError {
    /// The text that tells a user what went wrong.
    pub open spec fn spec_message(self) -> Seq<char> {
        match self {
            SearchError::Ag(e) => "Ag error: "@ + e.spec_message(),
            SearchError::HitFragmentCount => "Hit fragment count error"@,
            SearchError::HitParseError(e) => "Error parsing line/col from ag: "@
                + e.spec_message(),
        }
    }

    /// The text that tells a user what went wrong.
    pub fn message(&self) -> (res: String)
        ensures
            res@ == self.spec_message(),
    {
        match self {
            SearchError::Ag(e) => "Ag error: ".to_owned().concat(e.message().as_str()),
            SearchError::HitFragmentCount => "Hit fragment count error".to_owned(),
            SearchError::HitParseError(e) => "Error parsing line/col from ag: ".to_owned().concat(
                e.message().as_str(),
            ),
        }
    }
}

/// The language of a file, as its name tells it.
#[derive(Clone, Copy, Debug, PartialEq, Eq, Structural)]
pub enum DetectedLanguage {
    Go,
    Js,
    Python,
    Rust,
    Scala,
    /// The file name has no extension, or one that stands for none of the
    /// languages above.
    Unknown,
}

/// One matched location, or one matched file name.
#[derive(Clone, Debug, PartialEq, Eq)]
pub struct Hit {
    /// The term that was searched for.
    pub term: String,
    /// The file that the match is in.
    pub filename: String,
    /// The line of the match, counted from one. Absent for a file name match.
    pub line: Option<u64>,
    /// The column of the match, counted from one. Absent for a file name
    /// match.
    pub col: Option<u64>,
    /// The matched line, or the file name again for a file name match.
    pub text: String,
    /// The language of the file.
    pub lang: DetectedLanguage,
}

/// What a hit holds.
pub struct HitView {
    pub term: Seq<char>,
    pub filename: Seq<char>,
    pub line: Option<u64>,
    pub col: Option<u64>,
    pub text: Seq<char>,
    pub lang: DetectedLanguage,
}

impl View for Hit {
    type V = HitView;

    open spec fn view(&self) -> HitView {
        HitView {
            term: self.term@,
            filename: self.filename@,
            line: self.line,
            col: self.col,
            text: self.text@,
            lang: self.lang,
        }
    }
}

impl HitView {
    /// A hit has a line and a column, or neither.
    pub open spec fn well_formed(self) -> bool {
        self.line is Some <==> self.col is Some
    }
}

/// The extension of a file name: what follows its last dot. `None` where the
/// name holds no dot.
pub open spec fn extension(filename: Seq<char>) -> Option<Seq<char>> {
    match filename.index_of_last('.') {
        Some(i) => Some(filename.skip(i + 1)),
        None => None,
    }
}

/// `c` with an ASCII upper-case letter turned into its lower-case letter.
pub open spec fn ascii_lowercase(c: char) -> char {
    if 'A' <= c <= 'Z' {
        (c as int + 32) as char
    } else {
        c
    }
}

/// `s` with each ASCII upper-case letter turned into its lower-case letter.
pub open spec fn lowercased(s: Seq<char>) -> Seq<char> {
    s.map_values(|c: char| ascii_lowercase(c))
}

/// The language that a lower-case extension stands for.
pub open spec fn language_of_extension(ext: Seq<char>) -> DetectedLanguage {
    if ext == "go"@ {
        DetectedLanguage::Go
    } else if ext == "js"@ {
        DetectedLanguage::Js
    } else if ext == "py"@ {
        DetectedLanguage::Python
    } else if ext == "rs"@ {
        DetectedLanguage::Rust
    } else if ext == "sbt"@ || ext == "sc"@ || ext == "scala"@ {
        DetectedLanguage::Scala
    } else {
        DetectedLanguage::Unknown
    }
}

/// The language of the file named `filename`: that of its extension, whatever
/// the case of the extension's letters.
pub open spec fn detected_language(filename: Seq<char>) -> DetectedLanguage {
    match extension(filename) {
        Some(ext) => language_of_extension(lowercased(ext)),
        None => DetectedLanguage::Unknown,
    }
}

/// `c` with an ASCII upper-case letter turned into its lower-case letter.
fn to_ascii_lowercase(c: char) -> (res: char)
    ensures
        res == ascii_lowercase(c),
{
    if 'A' <= c && c <= 'Z' {
        ((c as u8) + 32) as char
    } else {
        c
    }
}

/// Whether `chars` is `word` but for the case of its ASCII letters.
fn is_word(chars: &[char], word: &str) -> (res: bool)
    ensures
        res == (lowercased(chars@) == word@),
{
    let expected = chars_of(word);
    if chars.len() != expected.len() {
        return false;
    }
    let mut i: usize = 0;
    while i < chars.len()
        invariant
            i <= chars.len(),
            chars.len() == expected.len(),
            expected@ == word@,
            forall|j: int| 0 <= j < i ==> lowercased(chars@)[j] == expected@[j],
        decreases chars.len() - i,
    {
        if to_ascii_lowercase(chars[i]) != expected[i] {
            return false;
        }
        i += 1;
    }
    assert(lowercased(chars@) =~= word@);
    true
}

/// The index of the last `c` in `chars`.
fn find_last(chars: &[char], c: char) -> (res: Option<usize>)
    ensures
        match res {
            Some(i) => i < chars.len() && chars@.index_of_last(c) == Some(i as int),
            None => chars@.index_of_last(c) is None,
        },
{
    let mut i: usize = chars.len();
    while i > 0
        invariant
            i <= chars.len(),
            forall|j: int| i <= j < chars.len() ==> chars@[j] != c,
        decreases i,
    {
        i -= 1;
        if chars[i] == c {
            proof {
                chars@.index_of_last_ensures(c);
            }
            return Some(i);
        }
    }
    proof {
        chars@.index_of_last_ensures(c);
    }
    None
}

/// The language of the file whose name is `filename`.
fn detect_chars(filename: &[char]) -> (lang: DetectedLanguage)
    ensures
        lang == detected_language(filename@),
{
    match find_last(filename, '.') {
        None => DetectedLanguage::Unknown,
        Some(i) => {
            let ext = vstd::slice::slice_subrange(filename, i + 1, filename.len());
            if is_word(ext, "go") {
                DetectedLanguage::Go
            } else if is_word(ext, "js") {
                DetectedLanguage::Js
            } else if is_word(ext, "py") {
                DetectedLanguage::Python
            } else if is_word(ext, "rs") {
                DetectedLanguage::Rust
            } else if is_word(ext, "sbt") || is_word(ext, "sc") || is_word(ext, "scala") {
                DetectedLanguage::Scala
            } else {
                DetectedLanguage::Unknown
            }
        },
    }
}

/// The language of the file whose name is `filename`. Only the extension
/// counts, and the case of its letters does not.
pub fn detect_language(filename: &str) -> (lang: DetectedLanguage)
    ensures
        lang == detected_language(filename@),
{
    let chars = chars_of(filename);
    detect_chars(chars.as_slice())
}

impl Hit {
    /// What a line of the search tool's output says about a search for
    /// `term`. The line holds a file name, a line number, a column number and
    /// the matched text, with a colon after each of the first three. Colons
    /// in the text belong to the text.
    pub open spec fn parsed(line: Seq<char>, term: Seq<char>) -> Result<HitView, SearchError> {
        match split_once(line, ':') {
            None => Err(SearchError::HitFragmentCount),
            Some((filename, rest)) => match split_once(rest, ':') {
                None => Err(SearchError::HitFragmentCount),
                Some((line_field, rest)) => match split_once(rest, ':') {
                    None => Err(SearchError::HitFragmentCount),
                    Some((col_field, text)) => match parsed_u64(line_field) {
                        Err(e) => Err(SearchError::HitParseError(e)),
                        Ok(line_number) => match parsed_u64(col_field) {
                            Err(e) => Err(SearchError::HitParseError(e)),
                            Ok(col_number) => Ok(
                                HitView {
                                    term,
                                    filename,
                                    line: Some(line_number),
                                    col: Some(col_number),
                                    text,
                                    lang: detected_language(filename),
                                },
                            ),
                        },
                    },
                },
            },
        }
    }

    /// What a line of the search tool's output says about a file name search
    /// for `term`: the line is the file name.
    pub open spec fn parsed_filename(line: Seq<char>, term: Seq<char>) -> HitView {
        HitView {
            term,
            filename: line,
            line: None,
            col: None,
            text: line,
            lang: detected_language(line),
        }
    }

    /// Reads one line of the search tool's output.
    fn parse_chars(line: &[char], term: &str) -> (res: Result<Hit, SearchError>)
        ensures
            match res {
                Ok(hit) => Hit::parsed(line@, term@) == Ok::<HitView, SearchError>(hit@),
                Err(e) => Hit::parsed(line@, term@) == Err::<HitView, SearchError>(e),
            },
    {
        let (filename, rest) = match split_once_slice(line, ':') {
            Some(cut) => cut,
            None => { return Err(SearchError::HitFragmentCount); },
        };
        let (line_field, rest) = match split_once_slice(rest, ':') {
            Some(cut) => cut,
            None => { return Err(SearchError::HitFragmentCount); },
        };
        let (col_field, text) = match split_once_slice(rest, ':') {
            Some(cut) => cut,
            None => { return Err(SearchError::HitFragmentCount); },
        };
        let line_number = match parse_u64(line_field) {
            Ok(n) => n,
            Err(e) => { return Err(SearchError::HitParseError(e)); },
        };
        let col_number = match parse_u64(col_field) {
            Ok(n) => n,
            Err(e) => { return Err(SearchError::HitParseError(e)); },
        };
        Ok(
            Hit {
                term: term.to_owned(),
                filename: string_of(filename),
                line: Some(line_number),
                col: Some(col_number),
                text: string_of(text),
                lang: detect_chars(filename),
            },
        )
    }

    /// Reads one line of the search tool's output.
    fn parse_filename_chars(line: &[char], term: &str) -> (hit: Hit)
        ensures
            hit@ == Hit::parsed_filename(line@, term@),
    {
        Hit {
            term: term.to_owned(),
            filename: string_of(line),
            line: None,
            col: None,
            text: string_of(line),
            lang: detect_chars(line),
        }
    }

    /// Reads one line of the output of a search for `term` in file contents:
    /// file name, line, column and the matched text, with colons between
    /// them. A line with fewer than four fields is refused, and so is one
    /// whose line or column is no number.
    pub fn parse(line: &str, term: &str) -> (res: Result<Hit, SearchError>)
        ensures
            match res {
                Ok(hit) => Hit::parsed(line@, term@) == Ok::<HitView, SearchError>(hit@)
                    && hit@.well_formed(),
                Err(e) => Hit::parsed(line@, term@) == Err::<HitView, SearchError>(e),
            },
    {
        let chars = chars_of(line);
        Hit::parse_chars(chars.as_slice(), term)
    }

    /// Reads one line of the output of a search for `term` in file names: the
    /// line is the file name, and the hit has no line and no column.
    pub fn parse_filename(line: &str, term: &str) -> (res: Result<Hit, SearchError>)
        ensures
            res matches Ok(hit) && hit@ == Hit::parsed_filename(line@, term@)
                && hit@.well_formed(),
    {
        let chars = chars_of(line);
        Ok(Hit::parse_filename_chars(chars.as_slice(), term))
    }
}

/// The lines of `text`: what stands between its line feeds, before the
/// first and after the last. A text without a line feed is one line.
pub open spec fn lines(text: Seq<char>) -> Seq<Seq<char>>
    decreases text.len(),
{
    match split_once(text, '\n') {
        None => seq![text],
        Some((line, rest)) => {
            proof {
                text.index_of_first_ensures('\n');
            }
            seq![line] + lines(rest)
        },
    }
}

/// What one line of the search tool's output says in a search of mode
/// `mode`.
pub open spec fn parsed_line(line: Seq<char>, term: Seq<char>, mode: SearchMode) -> Result<
    HitView,
    SearchError,
> {
    if mode == SearchMode::File {
        Ok(Hit::parsed_filename(line, term))
    } else {
        Hit::parsed(line, term)
    }
}

/// The hits that the lines of the search tool's output stand for, in the
/// order of the lines. Blank lines stand for nothing. The first line that
/// cannot be read decides the error.
pub open spec fn hits_of_lines(lines: Seq<Seq<char>>, term: Seq<char>, mode: SearchMode) -> Result<
    Seq<HitView>,
    SearchError,
>
    decreases lines.len(),
{
    if lines.len() == 0 {
        Ok(Seq::empty())
    } else {
        match hits_of_lines(lines.drop_last(), term, mode) {
            Err(e) => Err(e),
            Ok(hits) => if is_blank(lines.last()) {
                Ok(hits)
            } else {
                match parsed_line(lines.last(), term, mode) {
                    Err(e) => Err(e),
                    Ok(hit) => Ok(hits.push(hit)),
                }
            },
        }
    }
}

/// The flags that keep the search tool to the files of a language. Without
/// a language every file is searched.
pub open spec fn language_flags(lang: Language) -> Seq<Seq<char>> {
    match lang {
        Language::Auto => Seq::empty(),
        Language::Go => seq!["--go"@],
        Language::Js => seq!["--js"@],
        Language::Python => seq!["--python"@],
        Language::Rust => seq!["--rust"@],
        Language::Scala => seq!["--scala"@],
    }
}

/// A search: the tool, what is searched for, and in which language.
pub struct Search {
    ag: Ag,
    mode: SearchMode,
    lang: Language,
}

/// What a search holds.
pub struct SearchView {
    /// The arguments that the tool is run with in every search.
    pub extra_args: Seq<Seq<char>>,
    pub mode: SearchMode,
    pub lang: Language,
}

impl View for Search {
    type V = SearchView;

    closed spec fn view(&self) -> SearchView {
        SearchView { extra_args: self.ag@, mode: self.mode, lang: self.lang }
    }
}

/// Reads one line of the search tool's output and adds its hit, if it has
/// one, to `hits`.
fn read_line(hits: &mut Vec<Hit>, line: &[char], term: &str, mode: &SearchMode) -> (res: Result<
    (),
    SearchError,
>)
    ensures
        match res {
            Ok(()) => if is_blank(line@) {
                final(hits)@ == old(hits)@
            } else {
                parsed_line(line@, term@, *mode) == Ok::<HitView, SearchError>(
                    final(hits)@.last()@,
                ) && final(hits)@.len() > 0 && final(hits)@.drop_last() == old(hits)@
                    && final(hits)@.last()@.well_formed()
            },
            Err(e) => !is_blank(line@) && parsed_line(line@, term@, *mode) == Err::<
                HitView,
                SearchError,
            >(e),
        },
{
    if is_blank_slice(line) {
        return Ok(());
    }
    let hit = match mode {
        SearchMode::File => Hit::parse_filename_chars(line, term),
        _ => match Hit::parse_chars(line, term) {
            Ok(hit) => hit,
            Err(e) => { return Err(e); },
        },
    };
    hits.push(hit);
    Ok(())
}

impl Search {
    /// A search of mode `mode` in the language `lang`, made with `ag`.
    pub fn new(ag: Ag, mode: &SearchMode, lang: &Language) -> (search: Search)
        ensures
            search@ == (SearchView { extra_args: ag@, mode: *mode, lang: *lang }),
    {
        Search { ag, mode: *mode, lang: *lang }
    }

    /// The template to find a symbol as either a class or a function. For
    /// most languages a term that begins in lower case is searched as a
    /// function and any other as a class. Go does not tell them apart by
    /// case, so both are searched for.
    pub fn get_smart_pattern(&self, term: &str) -> (res: String)
        ensures
            res@ == template_for(SearchMode::Smart, self@.lang, term@),
    {
        match self.lang {
            Language::Go => (GoSmartMode {  }).get_pattern(term),
            _ => smart_template_for(term_names_function(term)).to_owned(),
        }
    }

    /// The pattern to run the search tool with: the term, quoted, in the
    /// template of the search mode.
    pub fn get_pattern(&self, term: &str) -> (res: String)
        ensures
            res@ == pattern_for(self@.mode, self@.lang, term@),
    {
        get_strategy(&self.lang).get_pattern(&self.mode, term)
    }

    /// The arguments that keep the search tool to the files of the search's
    /// language.
    pub fn get_ag_args(&self) -> (res: Vec<String>)
        ensures
            texts(res@) == language_flags(self@.lang),
    {
        let mut flags: Vec<String> = Vec::new();
        match self.lang {
            Language::Auto => {},
            Language::Go => {
                flags.push("--go".to_owned());
            },
            Language::Js => {
                flags.push("--js".to_owned());
            },
            Language::Python => {
                flags.push("--python".to_owned());
            },
            Language::Rust => {
                flags.push("--rust".to_owned());
            },
            Language::Scala => {
                flags.push("--scala".to_owned());
            },
        }
        flags
    }

    /// The arguments to run the search tool with in a search for `term`.
    pub fn command_line(&self, term: &str) -> (argv: Vec<String>)
        ensures
            texts(argv@) == command_line(
                self@.extra_args,
                pattern_for(self@.mode, self@.lang, term@),
                self@.mode == SearchMode::File,
                language_flags(self@.lang),
            ),
    {
        let pattern = self.get_pattern(term);
        let flags = self.get_ag_args();
        self.ag.command(pattern.as_str(), self.mode == SearchMode::File, flags.as_slice())
    }

    /// The hits of a search for `term`, from what the search tool wrote
    /// when run with `command_line(term)`, in ranked order. Blank lines of
    /// the output are passed over. A line that cannot be read ends the
    /// search with its error.
    pub fn search(&self, term: &str, output: &str) -> (res: Result<Vec<Hit>, SearchError>)
        ensures
            match res {
                Ok(hits) => hits_of_lines(lines(output@), term@, self@.mode) matches Ok(found)
                    && hits@.len() == found.len() && is_ranking_of(
                    views(hits@),
                    found,
                    self@.mode,
                ) && forall|i: int| 0 <= i < hits@.len() ==> (#[trigger] hits@[i])@.well_formed(),
                Err(e) => hits_of_lines(lines(output@), term@, self@.mode) == Err::<
                    Seq<HitView>,
                    SearchError,
                >(e),
            },
    {
        let chars = chars_of(output);
        let mut rest: &[char] = chars.as_slice();
        let mut hits: Vec<Hit> = Vec::new();
        let ghost mut done: Seq<Seq<char>> = Seq::empty();
        assert(views(hits@) =~= Seq::<HitView>::empty());
        loop
            invariant_except_break
                lines(output@) == done + lines(rest@),
            invariant
                hits_of_lines(done, term@, self.mode) == Ok::<Seq<HitView>, SearchError>(
                    views(hits@),
                ),
                forall|i: int| 0 <= i < hits@.len() ==> (#[trigger] hits@[i])@.well_formed(),
            ensures
                done == lines(output@),
            decreases rest@.len(),
        {
            let ghost before = done;
            let ghost found = views(hits@);
            let ghost earlier = hits@;
            let (line, tail) = match split_once_slice(rest, '\n') {
                Some((line, tail)) => (line, Some(tail)),
                None => (rest, None),
            };
            proof {
                rest@.index_of_first_ensures('\n');
                done = done.push(line@);
                assert(done.drop_last() == before);
            }
            match read_line(&mut hits, line, term, &self.mode) {
                Ok(()) => {
                    assert(!is_blank(line@) ==> views(hits@) =~= found.push(hits@.last()@));
                    assert forall|i: int| 0 <= i < hits@.len() implies (
                    #[trigger] hits@[i])@.well_formed() by {
                        if !is_blank(line@) && i < hits@.len() - 1 {
                            assert(hits@[i] == earlier[i]);
                        }
                    }
                },
                Err(e) => {
                    proof {
                        lemma_error_stays(done, lines(output@), term@, self.mode);
                    }
                    return Err(e);
                },
            }
            match tail {
                Some(tail) => {
                    rest = tail;
                },
                None => {
                    break ;
                },
            }
        }
        let ghost found = views(hits@);
        sort_hits(&mut hits, &self.mode);
        assert forall|i: int| 0 <= i < hits@.len() implies (#[trigger] hits@[i])@.well_formed() by {
            let j = lemma_ranked_hit_is_hit(views(hits@), found, self.mode, i);
            assert(found[j].well_formed());
        }
        Ok(hits)
    }
}

/// An error in the first lines of an output is the error of the whole
/// output.
pub proof fn lemma_error_stays(
    first: Seq<Seq<char>>,
    all: Seq<Seq<char>>,
    term: Seq<char>,
    mode: SearchMode,
)
    requires
        first.is_prefix_of(all),
        hits_of_lines(first, term, mode) is Err,
    ensures
        hits_of_lines(all, term, mode) == hits_of_lines(first, term, mode),
    decreases all.len(),
{
    if first.len() < all.len() {
        assert(first.is_prefix_of(all.drop_last()));
        lemma_error_stays(first, all.drop_last(), term, mode);
    } else {
        assert(first =~= all);
    }
}

/// The extension of a file name that ends with a dot and `ext` is `ext`,
/// where `ext` holds no dot.
pub proof fn lemma_extension_of(stem: Seq<char>, ext: Seq<char>)
    requires
        !ext.contains('.'),
    ensures
        extension(stem + seq!['.'] + ext) == Some(ext),
{
    let name = stem + seq!['.'] + ext;
    name.index_of_last_ensures('.');
    assert(name[stem.len() as int] == '.');
    assert(name.contains('.'));
    let i = name.index_of_last('.').unwrap();
    if i > stem.len() {
        assert(ext[i - stem.len() - 1] == name[i]);
        assert(ext.contains('.'));
    }
    assert(i == stem.len());
    assert(name.skip(i + 1) =~= ext);
}

/// The language of a file depends on its extension alone, and not on the
/// case of the extension's letters: two file names whose extensions differ
/// in the case of their letters at most have the same language.
pub proof fn lemma_language_by_extension(
    stem: Seq<char>,
    ext: Seq<char>,
    other_stem: Seq<char>,
    other_ext: Seq<char>,
)
    requires
        !ext.contains('.'),
        !other_ext.contains('.'),
        lowercased(ext) == lowercased(other_ext),
    ensures
        detected_language(stem + seq!['.'] + ext) == detected_language(
            other_stem + seq!['.'] + other_ext,
        ),
        detected_language(stem + seq!['.'] + ext) == language_of_extension(lowercased(ext)),
{
    lemma_extension_of(stem, ext);
    lemma_extension_of(other_stem, other_ext);
}

/// A file name without a dot has no language.
pub proof fn lemma_no_extension_no_language(filename: Seq<char>)
    requires
        !filename.contains('.'),
    ensures
        detected_language(filename) == DetectedLanguage::Unknown,
{
    filename.index_of_last_ensures('.');
}

/// A line feed at the end of a text ends its last line and begins an empty
/// one.
pub proof fn lemma_lines_of_ended_text(text: Seq<char>)
    ensures
        lines(text + seq!['\n']) == lines(text).push(Seq::empty()),
    decreases text.len(),
{
    let ended = text + seq!['\n'];
    text.index_of_first_ensures('\n');
    match text.index_of_first('\n') {
        None => {
            lemma_split_once_at(text, Seq::empty(), '\n');
            assert(ended =~= text + seq!['\n'] + Seq::<char>::empty());
            Seq::<char>::empty().index_of_first_ensures('\n');
            assert(lines(Seq::<char>::empty()) =~= seq![Seq::<char>::empty()]);
            assert(seq![text] + seq![Seq::<char>::empty()] =~= seq![text].push(Seq::empty()));
        },
        Some(i) => {
            let line = text.take(i);
            let rest = text.skip(i + 1);
            assert(!line.contains('\n')) by {
                if line.contains('\n') {
                    let j = choose|j: int| 0 <= j < line.len() && line[j] == '\n';
                    assert(text[j] == line[j]);
                }
            }
            assert(ended =~= line + seq!['\n'] + (rest + seq!['\n']));
            lemma_split_once_at(line, rest + seq!['\n'], '\n');
            lemma_lines_of_ended_text(rest);
            assert(seq![line] + lines(rest).push(Seq::empty()) =~= (seq![line] + lines(
                rest,
            )).push(Seq::empty()));
        },
    }
}

/// A search tolerates an output that ends with a line feed, and one that
/// is empty: the line feed at the end adds no hit and no error, and an empty
/// output holds no hit.
pub proof fn lemma_output_may_end_with_line_feed(
    output: Seq<char>,
    term: Seq<char>,
    mode: SearchMode,
)
    ensures
        hits_of_lines(lines(output + seq!['\n']), term, mode) == hits_of_lines(
            lines(output),
            term,
            mode,
        ),
        hits_of_lines(lines(Seq::empty()), term, mode) == Ok::<Seq<HitView>, SearchError>(
            Seq::empty(),
        ),
{
    lemma_lines_of_ended_text(output);
    assert(lines(output).push(Seq::empty()).drop_last() =~= lines(output));
    Seq::<char>::empty().index_of_first_ensures('\n');
    assert(lines(Seq::<char>::empty()) =~= seq![Seq::<char>::empty()]);
    assert(seq![Seq::<char>::empty()].drop_last() =~= Seq::<Seq<char>>::empty());
    assert(hits_of_lines(Seq::<Seq<char>>::empty(), term, mode) == Ok::<
        Seq<HitView>,
        SearchError,
    >(Seq::empty()));
    assert(is_blank(seq![Seq::<char>::empty()].last()));
}

} // verus!
