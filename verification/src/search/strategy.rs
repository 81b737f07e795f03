//! The query compiler: the pattern that the search tool is run with, for
//! each search mode and language.

pub mod go;

use vstd::prelude::*;
use crate::args::{Language, SearchMode};
use crate::text::{
    chars_of, lemma_substitute_concat, lemma_substitute_one, lemma_substitute_plain,
    placeholder_at, string_of, substitute, substitute_chars,
};

verus! {

/// Finds imports of a term. After `import` or `use` anything may stand up
/// to one of the characters that can precede the imported symbol: a dot in
/// Python and Scala, a colon in Rust, a slash or a quote in Go, a brace or a
/// comma in a group of imports, a space before a lone symbol. Then comes the
/// term, and after it a character that can end it: a brace, a comma or a
/// space, a semicolon in Rust, a slash or a quote in Go, or the end of the
/// line.
pub const IMPORT_PATTERN: &'static str = r#"(?:import|use).*[\.\{{,:/" ]{}(?:[\{{\}},;/" ]|$)"#;

/// Finds definitions of classes and of what other languages have in their
/// place. After the term only blanks and an opening bracket, a colon, or the
/// end of the line may follow, so that no longer name matches.
pub const CLASS_PATTERN: &'static str =
    r#"(?:case class|class|trait|object|type|struct|impl|enum) {}\h*(?:[\[\(\{{: ]|$)"#;

/// Finds definitions of functions and methods. Between the keyword and the
/// term a receiver in round brackets may stand, as Go has it.
pub const FUNCTION_PATTERN: &'static str = r#"(?:def|fn|function|func) (?:\(.+\) )?{}[\<\[\(: ]"#;

/// Finds the term wherever it stands.
pub const PLAIN_PATTERN: &'static str = "{}";

/// Names what `char::is_lowercase` returns: whether `c` has the Unicode
/// property `Lowercase`.
pub uninterp spec fn is_lowercase(c: char) -> bool;

/// Asks `char::is_lowercase` whether `c` is a lower-case character. Trusted:
/// the answer depends on `c` alone.
#[verifier::external_body]
fn char_is_lowercase(c: char) -> (res: bool)
    ensures
        res == is_lowercase(c),
{
    c.is_lowercase()
}

/// Whether a term reads as the name of a function: it begins with a
/// lower-case character, or is empty.
pub open spec fn names_function(term: Seq<char>) -> bool {
    term.len() == 0 || is_lowercase(term[0])
}

/// What stands for `\E` inside a quoted run: the run ends, a backslash and
/// an `E` follow that stand for themselves, and a new run begins.
pub const QUOTED_END: &'static str = "\\E\\\\E\\Q";

/// Whether `\E`, which ends a quoted run, stands at index `i` of `term`.
pub open spec fn end_of_quote_at(term: Seq<char>, i: int) -> bool {
    0 <= i && i + 1 < term.len() && term[i] == '\\' && term[i + 1] == 'E'
}

/// The term as it stands inside a quoted run: as it is, but for each `\E`
/// in it, found from left to right, which is written so that it does not end
/// the run for good.
pub open spec fn quoted_run(term: Seq<char>) -> Seq<char>
    decreases term.len(),
{
    if term.len() == 0 {
        term
    } else if end_of_quote_at(term, 0) {
        QUOTED_END@ + quoted_run(term.skip(2))
    } else {
        seq![term[0]] + quoted_run(term.skip(1))
    }
}

/// The term as the search tool is to read it: in a quoted run between `\Q`
/// and `\E`, so that each of its characters stands for itself.
pub open spec fn quoted(term: Seq<char>) -> Seq<char> {
    "\\Q"@ + quoted_run(term) + "\\E"@
}

/// Quotes a term for the search tool.
pub fn quote(term: &str) -> (res: String)
    ensures
        res@ == quoted(term@),
{
    let term = chars_of(term);
    let end = chars_of(QUOTED_END);
    let mut run: Vec<char> = Vec::new();
    let mut i: usize = 0;
    assert(term@.skip(0) == term@);
    while i < term.len()
        invariant
            i <= term.len(),
            end@ == QUOTED_END@,
            quoted_run(term@) == run@ + quoted_run(term@.skip(i as int)),
        decreases term.len() - i,
    {
        let ghost rest = term@.skip(i as int);
        if term[i] == '\\' && i + 1 < term.len() && term[i + 1] == 'E' {
            assert(rest.skip(2) == term@.skip(i + 2));
            run.extend_from_slice(end.as_slice());
            i += 2;
        } else {
            assert(rest.skip(1) == term@.skip(i + 1));
            run.push(term[i]);
            i += 1;
        }
    }
    let run = string_of(run.as_slice());
    "\\Q".to_owned().concat(run.as_str()).concat("\\E")
}

/// The template of a smart search in a language other than Go: that of a
/// function search for a term that reads as a function's name, that of a
/// class search for any other.
pub open spec fn default_smart_template(term: Seq<char>) -> Seq<char> {
    if names_function(term) {
        FUNCTION_PATTERN@
    } else {
        CLASS_PATTERN@
    }
}

/// The template of a smart search in Go: either a class or a function, as
/// the case of a Go name does not tell them apart.
pub open spec fn go_smart_template() -> Seq<char> {
    "(?:"@ + CLASS_PATTERN@ + "|"@ + FUNCTION_PATTERN@ + ")"@
}

/// The template of a search: the pattern with a placeholder in each place
/// of the term.
pub open spec fn template_for(mode: SearchMode, lang: Language, term: Seq<char>) -> Seq<char> {
    match mode {
        SearchMode::AllUsage => PLAIN_PATTERN@,
        SearchMode::File => PLAIN_PATTERN@,
        SearchMode::Class => CLASS_PATTERN@,
        SearchMode::Function => FUNCTION_PATTERN@,
        SearchMode::Import => IMPORT_PATTERN@,
        SearchMode::Smart => if lang == Language::Go {
            go_smart_template()
        } else {
            default_smart_template(term)
        },
    }
}

/// The pattern of a search: its template with the quoted term in each
/// place of the term.
pub open spec fn pattern_for(mode: SearchMode, lang: Language, term: Seq<char>) -> Seq<char> {
    substitute(template_for(mode, lang, term), quoted(term))
}

/// Whether `term` reads as the name of a function.
pub fn term_names_function(term: &str) -> (res: bool)
    ensures
        res == names_function(term@),
{
    if term.is_empty() {
        true
    } else {
        char_is_lowercase(term.get_char(0))
    }
}

/// The template of a smart search in a language other than Go, for a term
/// that reads as a function's name or does not.
pub fn smart_template_for(names_function: bool) -> (res: &'static str)
    ensures
        res@ == if names_function {
            FUNCTION_PATTERN@
        } else {
            CLASS_PATTERN@
        },
{
    if names_function {
        FUNCTION_PATTERN
    } else {
        CLASS_PATTERN
    }
}

/// How a smart search finds its template.
pub trait SmartMode {
    /// The template for a search for `term`.
    spec fn template(&self, term: Seq<char>) -> Seq<char>;

    /// The template for a search for `term`.
    fn get_pattern(&self, term: &str) -> (res: String)
        ensures
            res@ == self.template(term@),
    ;
}

/// The smart search of most languages: a term that begins in lower case is
/// searched as a function, any other as a class.
pub struct DefaultSmartMode {}

impl SmartMode for DefaultSmartMode {
    open spec fn template(&self, term: Seq<char>) -> Seq<char> {
        default_smart_template(term)
    }

    fn get_pattern(&self, term: &str) -> (res: String) {
        smart_template_for(term_names_function(term)).to_owned()
    }
}

/// The smart search of a strategy: one of those that the languages have.
pub enum LanguageSmartMode {
    Default(DefaultSmartMode),
    Go(go::GoSmartMode),
}

impl SmartMode for LanguageSmartMode {
    open spec fn template(&self, term: Seq<char>) -> Seq<char> {
        match self {
            LanguageSmartMode::Default(smart) => smart.template(term),
            LanguageSmartMode::Go(smart) => smart.template(term),
        }
    }

    fn get_pattern(&self, term: &str) -> (res: String) {
        match self {
            LanguageSmartMode::Default(smart) => smart.get_pattern(term),
            LanguageSmartMode::Go(smart) => smart.get_pattern(term),
        }
    }
}

/// The templates of the search modes, for one language.
pub struct SearchStrategy {
    all_usage_pattern: String,
    file_pattern: String,
    class_pattern: String,
    function_pattern: String,
    import_pattern: String,
    smart_mode: LanguageSmartMode,
}

impl SearchStrategy {
    /// The template of a search of mode `mode` for `term`.
    pub closed spec fn template(&self, mode: SearchMode, term: Seq<char>) -> Seq<char> {
        match mode {
            SearchMode::AllUsage => self.all_usage_pattern@,
            SearchMode::File => self.file_pattern@,
            SearchMode::Class => self.class_pattern@,
            SearchMode::Function => self.function_pattern@,
            SearchMode::Import => self.import_pattern@,
            SearchMode::Smart => self.smart_mode.template(term),
        }
    }

    /// The pattern of a search of mode `mode` for `term`.
    pub open spec fn pattern(&self, mode: SearchMode, term: Seq<char>) -> Seq<char> {
        substitute(self.template(mode, term), quoted(term))
    }

    /// A strategy with the given templates.
    pub fn new(
        all_usage: &str,
        file: &str,
        class: &str,
        function: &str,
        import: &str,
        smart: LanguageSmartMode,
    ) -> (strategy: SearchStrategy)
        ensures
            forall|term: Seq<char>| #[trigger]
                strategy.template(SearchMode::AllUsage, term) == all_usage@,
            forall|term: Seq<char>| #[trigger] strategy.template(SearchMode::File, term) == file@,
            forall|term: Seq<char>| #[trigger]
                strategy.template(SearchMode::Class, term) == class@,
            forall|term: Seq<char>| #[trigger]
                strategy.template(SearchMode::Function, term) == function@,
            forall|term: Seq<char>| #[trigger]
                strategy.template(SearchMode::Import, term) == import@,
            forall|term: Seq<char>| #[trigger]
                strategy.template(SearchMode::Smart, term) == smart.template(term),
    {
        SearchStrategy {
            all_usage_pattern: all_usage.to_owned(),
            file_pattern: file.to_owned(),
            class_pattern: class.to_owned(),
            function_pattern: function.to_owned(),
            import_pattern: import.to_owned(),
            smart_mode: smart,
        }
    }

    /// The strategy of every language but Go.
    pub fn default() -> (strategy: SearchStrategy)
        ensures
            forall|mode: SearchMode, term: Seq<char>| #[trigger]
                strategy.template(mode, term) == template_for(mode, Language::Auto, term),
    {
        SearchStrategy::new(
            PLAIN_PATTERN,
            PLAIN_PATTERN,
            CLASS_PATTERN,
            FUNCTION_PATTERN,
            IMPORT_PATTERN,
            LanguageSmartMode::Default(DefaultSmartMode {  }),
        )
    }

    /// Wraps the term in the pattern of the search mode.
    pub fn get_pattern(&self, mode: &SearchMode, term: &str) -> (res: String)
        ensures
            res@ == self.pattern(*mode, term@),
    {
        let raw = quote(term);
        let template = match mode {
            SearchMode::AllUsage => self.all_usage_pattern.clone(),
            SearchMode::File => self.file_pattern.clone(),
            SearchMode::Class => self.class_pattern.clone(),
            SearchMode::Function => self.function_pattern.clone(),
            SearchMode::Import => self.import_pattern.clone(),
            SearchMode::Smart => self.smart_mode.get_pattern(term),
        };
        let template = chars_of(template.as_str());
        let raw = chars_of(raw.as_str());
        let pattern = substitute_chars(template.as_slice(), raw.as_slice());
        string_of(pattern.as_slice())
    }
}

/// The strategy of a language.
pub fn get_strategy(lang: &Language) -> (strategy: SearchStrategy)
    ensures
        forall|mode: SearchMode, term: Seq<char>| #[trigger]
            strategy.template(mode, term) == template_for(mode, *lang, term),
{
    match lang {
        Language::Go => go::get_strategy(),
        _ => SearchStrategy::default(),
    }
}

/// The pattern of a search for every usage of a term, and that of a search
/// for file names, is the quoted term: whatever the term holds is searched
/// for as it stands.
pub proof fn lemma_plain_pattern_is_quoted_term(lang: Language, term: Seq<char>)
    ensures
        pattern_for(SearchMode::AllUsage, lang, term) == quoted(term),
        pattern_for(SearchMode::File, lang, term) == quoted(term),
{
    reveal_strlit("{}");
    assert(PLAIN_PATTERN@ =~= Seq::<char>::empty() + seq!['{', '}'] + Seq::<char>::empty());
    lemma_substitute_one(Seq::empty(), Seq::empty(), quoted(term));
}

/// The pattern of a class search: the keywords of class-like definitions,
/// the quoted term, and what may follow a name.
pub proof fn lemma_class_pattern(lang: Language, term: Seq<char>)
    ensures
        pattern_for(SearchMode::Class, lang, term)
            == r#"(?:case class|class|trait|object|type|struct|impl|enum) "#@ + quoted(term)
            + r#"\h*(?:[\[\(\{{: ]|$)"#@,
{
    let before = r#"(?:case class|class|trait|object|type|struct|impl|enum) "#@;
    let after = r#"\h*(?:[\[\(\{{: ]|$)"#@;
    reveal_strlit(r#"(?:case class|class|trait|object|type|struct|impl|enum) {}\h*(?:[\[\(\{{: ]|$)"#);
    reveal_strlit(r#"(?:case class|class|trait|object|type|struct|impl|enum) "#);
    reveal_strlit(r#"\h*(?:[\[\(\{{: ]|$)"#);
    assert(CLASS_PATTERN@ =~= before + seq!['{', '}'] + after);
    assert forall|i: int| !placeholder_at(before, i) by {}
    assert forall|i: int| !placeholder_at(after, i) by {}
    lemma_substitute_one(before, after, quoted(term));
}

/// The pattern of a function search: the keywords of function definitions,
/// a receiver in round brackets if there is one, the quoted term, and what
/// may follow a function's name.
pub proof fn lemma_function_pattern(lang: Language, term: Seq<char>)
    ensures
        pattern_for(SearchMode::Function, lang, term) == r#"(?:def|fn|function|func) (?:\(.+\) )?"#@
            + quoted(term) + r#"[\<\[\(: ]"#@,
{
    let before = r#"(?:def|fn|function|func) (?:\(.+\) )?"#@;
    let after = r#"[\<\[\(: ]"#@;
    reveal_strlit(r#"(?:def|fn|function|func) (?:\(.+\) )?{}[\<\[\(: ]"#);
    reveal_strlit(r#"(?:def|fn|function|func) (?:\(.+\) )?"#);
    reveal_strlit(r#"[\<\[\(: ]"#);
    assert(FUNCTION_PATTERN@ =~= before + seq!['{', '}'] + after);
    assert forall|i: int| !placeholder_at(before, i) by {}
    assert forall|i: int| !placeholder_at(after, i) by {}
    lemma_substitute_one(before, after, quoted(term));
}

/// The pattern of an import search: the keyword, anything up to a
/// character that can stand before an imported name, the quoted term, and a
/// character that can stand after the name, or the end of the line.
pub proof fn lemma_import_pattern(lang: Language, term: Seq<char>)
    ensures
        pattern_for(SearchMode::Import, lang, term) == r#"(?:import|use).*[\.\{{,:/" ]"#@ + quoted(
            term,
        ) + r#"(?:[\{{\}},;/" ]|$)"#@,
{
    let before = r#"(?:import|use).*[\.\{{,:/" ]"#@;
    let after = r#"(?:[\{{\}},;/" ]|$)"#@;
    reveal_strlit(r#"(?:import|use).*[\.\{{,:/" ]{}(?:[\{{\}},;/" ]|$)"#);
    reveal_strlit(r#"(?:import|use).*[\.\{{,:/" ]"#);
    reveal_strlit(r#"(?:[\{{\}},;/" ]|$)"#);
    assert(IMPORT_PATTERN@ =~= before + seq!['{', '}'] + after);
    assert forall|i: int| !placeholder_at(before, i) by {}
    assert forall|i: int| !placeholder_at(after, i) by {}
    lemma_substitute_one(before, after, quoted(term));
}

/// The pattern of a smart search in Go: that of a class search or that of a
/// function search, whichever matches.
pub proof fn lemma_go_smart_pattern(term: Seq<char>)
    ensures
        pattern_for(SearchMode::Smart, Language::Go, term) == "(?:"@ + pattern_for(
            SearchMode::Class,
            Language::Go,
            term,
        ) + "|"@ + pattern_for(SearchMode::Function, Language::Go, term) + ")"@,
{
    let value = quoted(term);
    reveal_strlit("(?:");
    reveal_strlit("|");
    reveal_strlit(")");
    reveal_strlit(r#"(?:case class|class|trait|object|type|struct|impl|enum) {}\h*(?:[\[\(\{{: ]|$)"#);
    reveal_strlit(r#"(?:def|fn|function|func) (?:\(.+\) )?{}[\<\[\(: ]"#);
    assert forall|i: int| !placeholder_at("(?:"@, i) by {}
    assert forall|i: int| !placeholder_at("|"@, i) by {}
    assert forall|i: int| !placeholder_at(")"@, i) by {}
    lemma_substitute_plain("(?:"@, value);
    lemma_substitute_plain("|"@, value);
    lemma_substitute_plain(")"@, value);
    lemma_substitute_concat("(?:"@, CLASS_PATTERN@, value);
    lemma_substitute_concat("(?:"@ + CLASS_PATTERN@, "|"@, value);
    lemma_substitute_concat("(?:"@ + CLASS_PATTERN@ + "|"@, FUNCTION_PATTERN@, value);
    lemma_substitute_concat("(?:"@ + CLASS_PATTERN@ + "|"@ + FUNCTION_PATTERN@, ")"@, value);
}

/// The pattern of a smart search in a language other than Go: that of a
/// function search for a term that reads as a function's name, that of a
/// class search for any other.
pub proof fn lemma_smart_pattern(lang: Language, term: Seq<char>)
    requires
        lang != Language::Go,
    ensures
        pattern_for(SearchMode::Smart, lang, term) == if names_function(term) {
            pattern_for(SearchMode::Function, lang, term)
        } else {
            pattern_for(SearchMode::Class, lang, term)
        },
{
}

/// A term that holds no `\E` is quoted by putting it between `\Q` and
/// `\E`.
pub proof fn lemma_quoted_plain_term(term: Seq<char>)
    requires
        forall|i: int| !end_of_quote_at(term, i),
    ensures
        quoted(term) == "\\Q"@ + term + "\\E"@,
{
    lemma_quoted_run_plain(term);
}

/// A term that holds no `\E` stands in a quoted run as it is.
pub proof fn lemma_quoted_run_plain(term: Seq<char>)
    requires
        forall|i: int| !end_of_quote_at(term, i),
    ensures
        quoted_run(term) == term,
    decreases term.len(),
{
    if term.len() > 0 {
        assert(!end_of_quote_at(term, 0));
        assert forall|i: int| !end_of_quote_at(term.skip(1), i) by {
            assert(!end_of_quote_at(term, i + 1));
        }
        lemma_quoted_run_plain(term.skip(1));
        assert(seq![term[0]] + term.skip(1) =~= term);
    }
}

/// The text that a pattern of quoted runs stands for, as the search tool
/// reads it. Inside a run, which `in_run` tells, every character stands for
/// itself until `\E` ends the run. Outside a run `\Q` begins one, two
/// backslashes stand for one, and a letter stands for itself. `None` for a
/// pattern that holds anything else outside its runs.
pub open spec fn quoted_text(pattern: Seq<char>, in_run: bool) -> Option<Seq<char>>
    decreases pattern.len(),
{
    if pattern.len() == 0 {
        Some(pattern)
    } else if in_run {
        if end_of_quote_at(pattern, 0) {
            quoted_text(pattern.skip(2), false)
        } else {
            match quoted_text(pattern.skip(1), true) {
                Some(text) => Some(seq![pattern[0]] + text),
                None => None,
            }
        }
    } else if pattern[0] == '\\' {
        if pattern.len() >= 2 && pattern[1] == 'Q' {
            quoted_text(pattern.skip(2), true)
        } else if pattern.len() >= 2 && pattern[1] == '\\' {
            match quoted_text(pattern.skip(2), false) {
                Some(text) => Some(seq!['\\'] + text),
                None => None,
            }
        } else {
            None
        }
    } else if 'a' <= pattern[0] <= 'z' || 'A' <= pattern[0] <= 'Z' {
        match quoted_text(pattern.skip(1), false) {
            Some(text) => Some(seq![pattern[0]] + text),
            None => None,
        }
    } else {
        None
    }
}

/// What follows a term in its quoted run does not begin with `E` unless the
/// term does: a backslash at the end of what stands before is not taken for
/// the end of the run.
proof fn lemma_quoted_run_first(term: Seq<char>, rest: Seq<char>)
    ensures
        (quoted_run(term) + "\\E"@ + rest).len() >= 2,
        (quoted_run(term) + "\\E"@ + rest)[0] == 'E' ==> term.len() > 0 && term[0] == 'E',
{
    reveal_strlit("\\E");
    reveal_strlit("\\E\\\\E\\Q");
}

/// A term in its quoted run, read inside a run, is the term, and what
/// follows the run is read outside of it.
proof fn lemma_quoted_run_is_term(term: Seq<char>, rest: Seq<char>)
    ensures
        quoted_text(quoted_run(term) + "\\E"@ + rest, true) == match quoted_text(rest, false) {
            Some(text) => Some(term + text),
            None => None,
        },
    decreases term.len(),
{
    reveal_strlit("\\E");
    reveal_strlit("\\E\\\\E\\Q");
    let end = "\\E"@;
    let pattern = quoted_run(term) + end + rest;
    if term.len() == 0 {
        assert(pattern =~= end + rest);
        assert(end_of_quote_at(pattern, 0));
        assert(pattern.skip(2) =~= rest);
        if quoted_text(rest, false) is Some {
            assert(term + quoted_text(rest, false)->0 =~= quoted_text(rest, false)->0);
        }
        assert(quoted_text(pattern, true) == quoted_text(rest, false));
    } else if end_of_quote_at(term, 0) {
        let inner = quoted_run(term.skip(2)) + end + rest;
        lemma_quoted_run_is_term(term.skip(2), rest);
        assert(pattern =~= QUOTED_END@ + inner);
        assert(end_of_quote_at(pattern, 0));
        let outside = pattern.skip(2);
        assert(outside =~= seq!['\\', '\\', 'E', '\\', 'Q'] + inner);
        assert(outside.skip(2) =~= seq!['E', '\\', 'Q'] + inner);
        assert(outside.skip(2).skip(1) =~= seq!['\\', 'Q'] + inner);
        assert(outside.skip(2).skip(1).skip(2) =~= inner);
        assert(quoted_text(outside.skip(2).skip(1), false) == quoted_text(inner, true));
        assert(quoted_text(outside.skip(2), false) == match quoted_text(inner, true) {
            Some(text) => Some(seq!['E'] + text),
            None => None,
        });
        assert(quoted_text(outside, false) == match quoted_text(outside.skip(2), false) {
            Some(text) => Some(seq!['\\'] + text),
            None => None,
        });
        assert(quoted_text(pattern, true) == quoted_text(outside, false));
        if quoted_text(rest, false) is Some {
            let text = quoted_text(rest, false)->0;
            assert(seq!['\\'] + (seq!['E'] + (term.skip(2) + text)) =~= term + text);
        }
    } else {
        let inner = quoted_run(term.skip(1)) + end + rest;
        lemma_quoted_run_is_term(term.skip(1), rest);
        lemma_quoted_run_first(term.skip(1), rest);
        assert(pattern =~= seq![term[0]] + inner);
        assert(pattern.skip(1) =~= inner);
        assert(!end_of_quote_at(pattern, 0)) by {
            if term[0] == '\\' && inner[0] == 'E' {
                assert(term.skip(1)[0] == term[1]);
            }
        }
        assert(quoted_text(pattern, true) == match quoted_text(inner, true) {
            Some(text) => Some(seq![term[0]] + text),
            None => None,
        });
        if quoted_text(rest, false) is Some {
            let text = quoted_text(rest, false)->0;
            assert(seq![term[0]] + (term.skip(1) + text) =~= term + text);
        }
    }
}

/// A quoted term stands for the term: the search tool reads it as the text
/// of the term, whatever the term holds.
pub proof fn lemma_quoted_term_reads_as_term(term: Seq<char>)
    ensures
        quoted_text(quoted(term), false) == Some(term),
{
    reveal_strlit("\\Q");
    reveal_strlit("\\E");
    let run = quoted_run(term) + "\\E"@ + Seq::<char>::empty();
    lemma_quoted_run_is_term(term, Seq::empty());
    assert(quoted(term) =~= seq!['\\', 'Q'] + run);
    assert(quoted(term).skip(2) =~= run);
    assert(term + Seq::<char>::empty() =~= term);
}

} // verus!
