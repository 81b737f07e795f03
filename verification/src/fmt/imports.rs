//! Import statements made from matched import lines. What part of a line
//! counts is found with regular expressions; the statement is built from
//! what they find.

use vstd::prelude::*;
use regex::Regex;
use crate::fmt::{FormatError, FormatErrorView, written_view};
use crate::search::{DetectedLanguage, Hit, HitView};
use crate::text::{
    chars_of, lemma_substitute_one, placeholder_at, string_of, substitute, substitute_chars,
};

verus! {

/// Matches a Python import line. Its first group is what stands before the
/// imported names: the `from` clause if there is one, the word `import`, and
/// a dotted module path that ends in a dot.
pub const PYTHON_PATTERN: &'static str = r#"^((?:from [\w\.]+ )?import (?:[\w\.]+\.)?).*$"#;

/// Matches a Scala import line. Its first group is the dotted path before
/// the last dot.
pub const SCALA_PATTERN: &'static str = r#"^\s*import ([^\s]+)\..*$"#;

/// Matches a Rust `use` line. Its first group is the path before the last
/// `::`, with that `::`, where there is one.
pub const RUST_PATTERN: &'static str = r#"^\s*use\s+([\w:]+::)?[^:]+;$"#;

/// Matches a line with a quoted Go import path whose last segment is what
/// stands in place of the placeholder: the path is that text alone, or ends
/// with a slash and that text. Its first group is the path.
pub const GO_TEMPLATE: &'static str = r#"^.*"((?:[^"]*/)?{})""#;

/// The replacement that stands for the first group of a match.
pub const FIRST_GROUP: &'static str = "$1";

/// Names what `regex::Regex::replace` returns for a haystack and a
/// replacement text, called on the regular expression that
/// `regex::Regex::new` makes of `pattern`. `None` where `Regex::new` refuses
/// the pattern.
pub uninterp spec fn regex_replace(
    pattern: Seq<char>,
    haystack: Seq<char>,
    replacement: Seq<char>,
) -> Option<Seq<char>>;

/// Names what matched the group `group` in the match that
/// `regex::Regex::captures` finds in a haystack, called on the regular
/// expression that `regex::Regex::new` makes of `pattern`. `None` where
/// `Regex::new` refuses the pattern, where nothing matches, and where the
/// group took no part in the match.
pub uninterp spec fn regex_capture(pattern: Seq<char>, haystack: Seq<char>, group: usize) -> Option<
    Seq<char>,
>;

/// A character that has a meaning of its own in a regular expression of the
/// regex crate.
pub open spec fn is_meta_character(c: char) -> bool {
    ||| c == '\\'
    ||| c == '.'
    ||| c == '+'
    ||| c == '*'
    ||| c == '?'
    ||| c == '('
    ||| c == ')'
    ||| c == '|'
    ||| c == '['
    ||| c == ']'
    ||| c == '{'
    ||| c == '}'
    ||| c == '^'
    ||| c == '$'
    ||| c == '#'
    ||| c == '&'
    ||| c == '-'
    ||| c == '~'
}

/// `text` as a regular expression that matches `text` and nothing else: with
/// a backslash before each character that has a meaning of its own.
pub open spec fn escaped(text: Seq<char>) -> Seq<char>
    decreases text.len(),
{
    if text.len() == 0 {
        text
    } else if is_meta_character(text.last()) {
        escaped(text.drop_last()) + seq!['\\', text.last()]
    } else {
        escaped(text.drop_last()).push(text.last())
    }
}

/// Whether `c` has a meaning of its own in a regular expression.
pub fn is_meta(c: char) -> (res: bool)
    ensures
        res == is_meta_character(c),
{
    c == '\\' || c == '.' || c == '+' || c == '*' || c == '?' || c == '(' || c == ')' || c == '|'
        || c == '[' || c == ']' || c == '{' || c == '}' || c == '^' || c == '$' || c == '#' || c
        == '&' || c == '-' || c == '~'
}

/// Puts a backslash before each character of `text` that has a meaning of
/// its own in a regular expression.
pub fn escape(text: &[char]) -> (out: Vec<char>)
    ensures
        out@ == escaped(text@),
{
    let mut out: Vec<char> = Vec::new();
    let mut i: usize = 0;
    assert(text@.take(0) =~= Seq::<char>::empty());
    while i < text.len()
        invariant
            i <= text.len(),
            out@ == escaped(text@.take(i as int)),
        decreases text.len() - i,
    {
        assert(text@.take(i + 1).drop_last() =~= text@.take(i as int));
        if is_meta(text[i]) {
            out.push('\\');
        }
        out.push(text[i]);
        i += 1;
    }
    assert(text@.take(i as int) =~= text@);
    out
}

/// What an optional text holds.
pub open spec fn option_text(text: Option<String>) -> Option<Seq<char>> {
    match text {
        Some(text) => Some(text@),
        None => None,
    }
}

/// Compiles `pattern` with `regex::Regex::new` and has `regex::Regex::replace`
/// replace the leftmost-first match in `haystack` by `replacement`, in which `$1`
/// stands for the first group. Trusted: what comes back depends on the three
/// texts alone.
#[verifier::external_body]
fn replace_first(pattern: &str, haystack: &str, replacement: &str) -> (res: Option<String>)
    ensures
        option_text(res) == regex_replace(pattern@, haystack@, replacement@),
{
    match Regex::new(pattern) {
        Ok(regex) => Some(regex.replace(haystack, replacement).into_owned()),
        Err(_) => None,
    }
}

/// Compiles `pattern` with `regex::Regex::new`, has `regex::Regex::captures`
/// find the leftmost-first match in `haystack`, and hands out what its group
/// `group` matched. Trusted: what comes back depends on the two texts and the
/// group alone.
#[verifier::external_body]
fn capture_group(pattern: &str, haystack: &str, group: usize) -> (res: Option<String>)
    ensures
        option_text(res) == regex_capture(pattern@, haystack@, group),
{
    match Regex::new(pattern) {
        Ok(regex) => match regex.captures(haystack) {
            Some(captures) => match captures.get(group) {
                Some(found) => Some(found.as_str().to_owned()),
                None => None,
            },
            None => None,
        },
        Err(_) => None,
    }
}

/// What is reported where a matched text is no import of the term.
pub open spec fn not_found(term: Seq<char>, text: Seq<char>) -> FormatErrorView {
    FormatErrorView::Pattern("failed to find ["@ + term + "] in ["@ + text + "]"@)
}

/// The Python import of `term` after the prefix `prefix` of the matched
/// line.
pub open spec fn python_import_of(prefix: Option<Seq<char>>, term: Seq<char>, text: Seq<char>) -> Result<
    Seq<char>,
    FormatErrorView,
> {
    match prefix {
        Some(prefix) => Ok(prefix + term),
        None => Err(not_found(term, text)),
    }
}

/// The Scala import of `term` from the package `package` of the matched
/// line.
pub open spec fn scala_import_of(package: Option<Seq<char>>, term: Seq<char>, text: Seq<char>) -> Result<
    Seq<char>,
    FormatErrorView,
> {
    match package {
        Some(package) => Ok("import "@ + package + "."@ + term),
        None => Err(not_found(term, text)),
    }
}

/// The Rust import of `term` from the path `path` of the matched line. The
/// path ends in `::`, or is empty.
pub open spec fn rust_import_of(path: Option<Seq<char>>, term: Seq<char>, text: Seq<char>) -> Result<
    Seq<char>,
    FormatErrorView,
> {
    match path {
        Some(path) => Ok("use "@ + path + term + ";"@),
        None => Err(not_found(term, text)),
    }
}

/// The Go import of the path `path` that was found in the matched line for
/// `term`.
pub open spec fn go_import_of(path: Option<Seq<char>>, term: Seq<char>, text: Seq<char>) -> Result<
    Seq<char>,
    FormatErrorView,
> {
    match path {
        Some(path) => Ok("import \""@ + path + "\""@),
        None => Err(not_found(term, text)),
    }
}

/// The import statement for the term of a hit, made from the import line
/// that the hit matched.
pub open spec fn synthesized(hit: HitView) -> Result<Seq<char>, FormatErrorView> {
    match hit.lang {
        DetectedLanguage::Go => go_import_of(
            regex_capture(substitute(GO_TEMPLATE@, escaped(hit.term)), hit.text, 1),
            hit.term,
            hit.text,
        ),
        DetectedLanguage::Python => python_import_of(
            regex_replace(PYTHON_PATTERN@, hit.text, FIRST_GROUP@),
            hit.term,
            hit.text,
        ),
        DetectedLanguage::Rust => rust_import_of(
            regex_replace(RUST_PATTERN@, hit.text, FIRST_GROUP@),
            hit.term,
            hit.text,
        ),
        DetectedLanguage::Scala => scala_import_of(
            regex_replace(SCALA_PATTERN@, hit.text, FIRST_GROUP@),
            hit.term,
            hit.text,
        ),
        DetectedLanguage::Js => Err(FormatErrorView::UnsupportedLanguage),
        DetectedLanguage::Unknown => Err(FormatErrorView::UnsupportedLanguage),
    }
}

/// The error for a matched text that is no import of the term.
fn pattern_error(term: &str, text: &str) -> (e: FormatError)
    ensures
        e@ == not_found(term@, text@),
{
    FormatError::Pattern(
        "failed to find [".to_owned().concat(term).concat("] in [").concat(text).concat("]"),
    )
}

/// A Python import in the format of the one found: `import x` or
/// `from x import y`, with `term` in place of the names that the line
/// imports. `prefix` is what the line holds before those names.
pub fn python_import(prefix: Option<String>, term: &str, text: &str) -> (res: Result<
    String,
    FormatError,
>)
    ensures
        written_view(res) == python_import_of(option_text(prefix), term@, text@),
{
    match prefix {
        Some(prefix) => Ok(prefix.concat(term)),
        None => Err(pattern_error(term, text)),
    }
}

/// A Scala import of `term` from `package`, the package that the matched
/// line imports from.
pub fn scala_import(package: Option<String>, term: &str, text: &str) -> (res: Result<
    String,
    FormatError,
>)
    ensures
        written_view(res) == scala_import_of(option_text(package), term@, text@),
{
    match package {
        Some(package) => Ok(
            "import ".to_owned().concat(package.as_str()).concat(".").concat(term),
        ),
        None => Err(pattern_error(term, text)),
    }
}

/// A Rust import of `term` from `path`, the path that the matched line
/// imports from.
pub fn rust_import(path: Option<String>, term: &str, text: &str) -> (res: Result<
    String,
    FormatError,
>)
    ensures
        written_view(res) == rust_import_of(option_text(path), term@, text@),
{
    match path {
        Some(path) => Ok("use ".to_owned().concat(path.as_str()).concat(term).concat(";")),
        None => Err(pattern_error(term, text)),
    }
}

/// A Go import of `path`, the quoted path that the matched line holds for
/// `term`. Where the line holds none, the import cannot be made.
pub fn go_import(path: Option<String>, term: &str, text: &str) -> (res: Result<
    String,
    FormatError,
>)
    ensures
        written_view(res) == go_import_of(option_text(path), term@, text@),
{
    match path {
        Some(path) => Ok("import \"".to_owned().concat(path.as_str()).concat("\"")),
        None => Err(pattern_error(term, text)),
    }
}

/// The pattern that finds the quoted Go import path of `term`: a path whose
/// last segment is `term`, character by character.
pub fn go_pattern(term: &str) -> (res: String)
    ensures
        res@ == substitute(GO_TEMPLATE@, escaped(term@)),
{
    let template = chars_of(GO_TEMPLATE);
    let term = chars_of(term);
    let term = escape(term.as_slice());
    let pattern = substitute_chars(template.as_slice(), term.as_slice());
    string_of(pattern.as_slice())
}

/// The Python import of `term`, made from the import line `text`.
pub fn gen_py(term: &str, text: &str) -> (res: Result<String, FormatError>)
    ensures
        written_view(res) == python_import_of(
            regex_replace(PYTHON_PATTERN@, text@, FIRST_GROUP@),
            term@,
            text@,
        ),
{
    python_import(replace_first(PYTHON_PATTERN, text, FIRST_GROUP), term, text)
}

/// The Scala import of `term`, made from the import line `text`.
pub fn gen_scala(term: &str, text: &str) -> (res: Result<String, FormatError>)
    ensures
        written_view(res) == scala_import_of(
            regex_replace(SCALA_PATTERN@, text@, FIRST_GROUP@),
            term@,
            text@,
        ),
{
    scala_import(replace_first(SCALA_PATTERN, text, FIRST_GROUP), term, text)
}

/// The Rust import of `term`, made from the import line `text`.
pub fn gen_rust(term: &str, text: &str) -> (res: Result<String, FormatError>)
    ensures
        written_view(res) == rust_import_of(
            regex_replace(RUST_PATTERN@, text@, FIRST_GROUP@),
            term@,
            text@,
        ),
{
    rust_import(replace_first(RUST_PATTERN, text, FIRST_GROUP), term, text)
}

/// The Go import of the quoted path that the line `text` holds for `term`.
pub fn gen_go(term: &str, text: &str) -> (res: Result<String, FormatError>)
    ensures
        written_view(res) == go_import_of(
            regex_capture(substitute(GO_TEMPLATE@, escaped(term@)), text@, 1),
            term@,
            text@,
        ),
{
    let pattern = go_pattern(term);
    go_import(capture_group(pattern.as_str(), text, 1), term, text)
}

/// Makes an import statement for the term of a hit from the import line that
/// the hit matched. The statement imports the term alone, whatever else the
/// line imports. No import is made for a language without one of the forms
/// above.
pub fn generate_import(h: &Hit) -> (res: Result<String, FormatError>)
    ensures
        written_view(res) == synthesized(h@),
{
    match h.lang {
        DetectedLanguage::Go => gen_go(h.term.as_str(), h.text.as_str()),
        DetectedLanguage::Python => gen_py(h.term.as_str(), h.text.as_str()),
        DetectedLanguage::Rust => gen_rust(h.term.as_str(), h.text.as_str()),
        DetectedLanguage::Scala => gen_scala(h.term.as_str(), h.text.as_str()),
        _ => Err(FormatError::UnsupportedLanguage),
    }
}

/// A text without a character that has a meaning of its own stays as it
/// is.
pub proof fn lemma_escaped_plain(text: Seq<char>)
    requires
        forall|i: int| 0 <= i < text.len() ==> !is_meta_character(#[trigger] text[i]),
    ensures
        escaped(text) == text,
    decreases text.len(),
{
    if text.len() > 0 {
        lemma_escaped_plain(text.drop_last());
        assert(text.drop_last().push(text.last()) =~= text);
    }
}

/// Escaping goes character by character: two texts in a row are escaped one
/// after the other.
proof fn lemma_escaped_concat(first: Seq<char>, second: Seq<char>)
    ensures
        escaped(first + second) == escaped(first) + escaped(second),
    decreases second.len(),
{
    if second.len() == 0 {
        assert(first + second =~= first);
        assert(escaped(first) + escaped(second) =~= escaped(first));
    } else {
        lemma_escaped_concat(first, second.drop_last());
        assert((first + second).drop_last() =~= first + second.drop_last());
        assert((first + second).last() == second.last());
        if is_meta_character(second.last()) {
            assert(escaped(first) + (escaped(second.drop_last()) + seq!['\\', second.last()])
                =~= (escaped(first) + escaped(second.drop_last())) + seq!['\\', second.last()]);
        } else {
            assert(escaped(first) + escaped(second.drop_last()).push(second.last()) =~= (escaped(
                first,
            ) + escaped(second.drop_last())).push(second.last()));
        }
    }
}

/// The text that a regular expression of escaped characters stands for: a
/// backslash and a character with a meaning of its own stand for that
/// character, and any other character stands for itself. `None` for a
/// regular expression that holds anything else.
pub open spec fn escaped_text(pattern: Seq<char>) -> Option<Seq<char>>
    decreases pattern.len(),
{
    if pattern.len() == 0 {
        Some(pattern)
    } else if pattern[0] == '\\' {
        if pattern.len() >= 2 && is_meta_character(pattern[1]) {
            match escaped_text(pattern.skip(2)) {
                Some(text) => Some(seq![pattern[1]] + text),
                None => None,
            }
        } else {
            None
        }
    } else if is_meta_character(pattern[0]) {
        None
    } else {
        match escaped_text(pattern.skip(1)) {
            Some(text) => Some(seq![pattern[0]] + text),
            None => None,
        }
    }
}

/// An escaped term stands for the term: as a regular expression it is the
/// text of the term, whatever the term holds.
pub proof fn lemma_escaped_term_reads_as_term(term: Seq<char>)
    ensures
        escaped_text(escaped(term)) == Some(term),
    decreases term.len(),
{
    if term.len() > 0 {
        let first = seq![term[0]];
        let rest = term.skip(1);
        assert(term =~= first + rest);
        lemma_escaped_concat(first, rest);
        lemma_escaped_term_reads_as_term(rest);
        assert(first.drop_last() =~= Seq::<char>::empty());
        assert(escaped(first.drop_last()) =~= Seq::<char>::empty());
        let pattern = escaped(term);
        if is_meta_character(term[0]) {
            assert(escaped(first) =~= seq!['\\', term[0]]);
            assert(pattern =~= seq!['\\', term[0]] + escaped(rest));
            assert(pattern.skip(2) =~= escaped(rest));
        } else {
            assert(escaped(first) =~= first);
            assert(pattern =~= first + escaped(rest));
            assert(pattern.skip(1) =~= escaped(rest));
        }
    }
}

/// The pattern that finds the Go import path of a term: anything up to a
/// quote, then the path, which is the escaped term or ends with a slash and
/// the escaped term, then the closing quote.
pub proof fn lemma_go_pattern(term: Seq<char>)
    ensures
        substitute(GO_TEMPLATE@, escaped(term)) == r#"^.*"((?:[^"]*/)?"#@ + escaped(term)
            + r#")""#@,
{
    let before = r#"^.*"((?:[^"]*/)?"#@;
    let after = r#")""#@;
    reveal_strlit(r#"^.*"((?:[^"]*/)?{})""#);
    reveal_strlit(r#"^.*"((?:[^"]*/)?"#);
    reveal_strlit(r#")""#);
    assert(GO_TEMPLATE@ =~= before + seq!['{', '}'] + after);
    assert forall|i: int| !placeholder_at(before, i) by {}
    assert forall|i: int| !placeholder_at(after, i) by {}
    lemma_substitute_one(before, after, escaped(term));
}

} // verus!
