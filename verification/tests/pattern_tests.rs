use qf::ag::{Ag, AgError, PROGRAM};
use qf::args::{ArgError, Args, Language, OutputStyle, SearchMode};
use qf::index::get_import_index_filename;
use qf::index::models::ImportIndex;
use qf::number::NumberError;
use qf::search::strategy::{
    get_strategy, quote, smart_template_for, term_names_function, DefaultSmartMode, SearchStrategy,
    SmartMode, CLASS_PATTERN, FUNCTION_PATTERN, IMPORT_PATTERN,
};
use qf::search::{DetectedLanguage, Hit, Search, SearchError};

const CLASS: &str = r#"(?:case class|class|trait|object|type|struct|impl|enum) \QUpdate\E\h*(?:[\[\(\{{: ]|$)"#;
const FUNCTION: &str = r#"(?:def|fn|function|func) (?:\(.+\) )?\Qupdate\E[\<\[\(: ]"#;
const IMPORT: &str = r#"(?:import|use).*[\.\{{,:/" ]\QUpdate\E(?:[\{{\}},;/" ]|$)"#;

fn search(mode: SearchMode, lang: Language) -> Search {
    Search::new(Ag::default(), &mode, &lang)
}

fn languages() -> Vec<Language> {
    vec![
        Language::Auto,
        Language::Go,
        Language::Js,
        Language::Python,
        Language::Rust,
        Language::Scala,
    ]
}

fn modes() -> Vec<SearchMode> {
    vec![
        SearchMode::AllUsage,
        SearchMode::Class,
        SearchMode::File,
        SearchMode::Function,
        SearchMode::Import,
        SearchMode::Smart,
    ]
}

#[test]
fn pattern_quotes_the_term() {
    for lang in languages() {
        assert_eq!(search(SearchMode::AllUsage, lang).get_pattern("a.b*c"), r"\Qa.b*c\E");
        assert_eq!(search(SearchMode::File, lang).get_pattern("a.b*c"), r"\Qa.b*c\E");
        assert_eq!(search(SearchMode::AllUsage, lang).get_pattern(""), r"\Q\E");
        assert_eq!(search(SearchMode::AllUsage, lang).get_pattern("{}"), r"\Q{}\E");
    }
}

#[test]
fn pattern_quotes_a_term_that_ends_the_quote() {
    let all = search(SearchMode::AllUsage, Language::Auto);

    assert_eq!(all.get_pattern(r"a\Eb"), r"\Qa\E\\E\Qb\E");
    assert_eq!(all.get_pattern(r"\E"), r"\Q\E\\E\Q\E");
    assert_eq!(all.get_pattern(r"\\E"), r"\Q\\E\\E\Q\E");
    assert_eq!(all.get_pattern(r"\E\E"), r"\Q\E\\E\Q\E\\E\Q\E");
    assert_eq!(all.get_pattern(r"a\Qb"), r"\Qa\Qb\E");
    assert_eq!(all.get_pattern(r"a\eb\"), r"\Qa\eb\\E");
    assert_eq!(quote(r"x\Ey"), r"\Qx\E\\E\Qy\E");
    assert_eq!(quote("plain"), r"\Qplain\E");
    assert_eq!(
        search(SearchMode::Function, Language::Rust).get_pattern(r"a\Eb"),
        r#"(?:def|fn|function|func) (?:\(.+\) )?\Qa\E\\E\Qb\E[\<\[\(: ]"#
    );
}

#[test]
fn pattern_of_each_mode() {
    for lang in languages() {
        assert_eq!(search(SearchMode::Class, lang).get_pattern("Update"), CLASS);
        assert_eq!(search(SearchMode::Function, lang).get_pattern("update"), FUNCTION);
        assert_eq!(search(SearchMode::Import, lang).get_pattern("Update"), IMPORT);
    }
}

#[test]
fn pattern_keeps_placeholders_of_the_term() {
    assert_eq!(
        search(SearchMode::Function, Language::Rust).get_pattern("a{}b"),
        r#"(?:def|fn|function|func) (?:\(.+\) )?\Qa{}b\E[\<\[\(: ]"#
    );
}

#[test]
fn smart_pattern_by_the_first_character() {
    for lang in [Language::Auto, Language::Js, Language::Python, Language::Rust, Language::Scala] {
        let smart = search(SearchMode::Smart, lang);
        assert_eq!(smart.get_pattern("update"), FUNCTION);
        assert_eq!(smart.get_pattern("Update"), CLASS);
        assert_eq!(smart.get_smart_pattern("update"), FUNCTION_PATTERN);
        assert_eq!(smart.get_smart_pattern("Update"), CLASS_PATTERN);
        assert_eq!(smart.get_smart_pattern(""), FUNCTION_PATTERN);
        assert_eq!(smart.get_smart_pattern("δelta"), FUNCTION_PATTERN);
        assert_eq!(smart.get_smart_pattern("Δelta"), CLASS_PATTERN);
        assert_eq!(smart.get_smart_pattern("_private"), CLASS_PATTERN);
        assert_eq!(smart.get_smart_pattern("1st"), CLASS_PATTERN);
    }
}

#[test]
fn smart_pattern_of_go() {
    let smart = search(SearchMode::Smart, Language::Go);
    let template = format!("(?:{}|{})", CLASS_PATTERN, FUNCTION_PATTERN);

    assert_eq!(smart.get_smart_pattern("Feed"), template);
    assert_eq!(smart.get_smart_pattern("feed"), template);
    assert_eq!(smart.get_pattern("Feed"), template.replace("{}", r"\QFeed\E"));
    assert_eq!(
        smart.get_pattern("Update"),
        format!("(?:{}|{})", CLASS, FUNCTION.replace("update", "Update"))
    );
}

#[test]
fn names_of_functions() {
    assert!(term_names_function("update"));
    assert!(term_names_function(""));
    assert!(term_names_function("ßharp"));
    assert!(!term_names_function("Update"));
    assert!(!term_names_function("中"));
    assert!(!term_names_function(" update"));
    for term in ["a", "Z", "é", "É", "ǅ", "ª", "1", "_", "ⅷ", "Ⅷ"] {
        assert_eq!(
            term_names_function(term),
            term.chars().next().unwrap().is_lowercase(),
            "{}",
            term
        );
    }
}

#[test]
fn smart_templates() {
    assert_eq!(smart_template_for(true), FUNCTION_PATTERN);
    assert_eq!(smart_template_for(false), CLASS_PATTERN);
    assert_eq!(DefaultSmartMode {}.get_pattern("update"), FUNCTION_PATTERN);
    assert_eq!(DefaultSmartMode {}.get_pattern("Update"), CLASS_PATTERN);
}

#[test]
fn templates() {
    assert_eq!(
        CLASS_PATTERN,
        "(?:case class|class|trait|object|type|struct|impl|enum) {}\\h*(?:[\\[\\(\\{{: ]|$)"
    );
    assert_eq!(FUNCTION_PATTERN, "(?:def|fn|function|func) (?:\\(.+\\) )?{}[\\<\\[\\(: ]");
    assert_eq!(IMPORT_PATTERN, "(?:import|use).*[\\.\\{{,:/\" ]{}(?:[\\{{\\}},;/\" ]|$)");
}

#[test]
fn strategy_of_each_language() {
    for lang in languages() {
        let strategy = get_strategy(&lang);
        for mode in modes() {
            for term in ["update", "Update", "a.b*c", ""] {
                assert_eq!(
                    strategy.get_pattern(&mode, term),
                    search(mode, lang).get_pattern(term)
                );
            }
        }
    }
}

#[test]
fn default_strategy() {
    let strategy = SearchStrategy::default();

    assert_eq!(strategy.get_pattern(&SearchMode::Class, "Update"), CLASS);
    assert_eq!(strategy.get_pattern(&SearchMode::Smart, "Update"), CLASS);
    assert_eq!(strategy.get_pattern(&SearchMode::Smart, "update"), FUNCTION);
    assert_eq!(strategy.get_pattern(&SearchMode::File, "Update"), r"\QUpdate\E");
}

#[test]
fn tool_flags_of_each_language() {
    let flags = |lang: Language| search(SearchMode::AllUsage, lang).get_ag_args();
    assert_eq!(flags(Language::Auto), Vec::<String>::new());
    assert_eq!(flags(Language::Go), vec!["--go"]);
    assert_eq!(flags(Language::Js), vec!["--js"]);
    assert_eq!(flags(Language::Python), vec!["--python"]);
    assert_eq!(flags(Language::Rust), vec!["--rust"]);
    assert_eq!(flags(Language::Scala), vec!["--scala"]);
}

#[test]
fn command_of_the_tool() {
    let ag = Ag::new(vec!["--ignore".to_string(), "/src".to_string()]);
    let extra = vec!["--scala".to_string()];

    assert_eq!(PROGRAM, "ag");
    assert_eq!(
        ag.command("pattern", false, &extra),
        vec!["-s", "--column", "--ignore", "/src", "--scala", "pattern"]
    );
    assert_eq!(
        ag.command("pattern", true, &extra),
        vec!["-s", "--column", "--ignore", "/src", "--scala", "-g", "pattern"]
    );
    assert_eq!(Ag::default().command("-g", false, &[]), vec!["-s", "--column", "-g"]);
}

#[test]
fn command_line_of_a_search() {
    let ag = Ag::new(vec!["--ignore".to_string(), "/src".to_string()]);

    let class = Search::new(ag.clone(), &SearchMode::Class, &Language::Scala);
    assert_eq!(
        class.command_line("Update"),
        vec!["-s", "--column", "--ignore", "/src", "--scala", CLASS]
    );

    let file = Search::new(ag, &SearchMode::File, &Language::Auto);
    assert_eq!(
        file.command_line("Update"),
        vec!["-s", "--column", "--ignore", "/src", "-g", r"\QUpdate\E"]
    );
}

#[test]
fn search_reads_every_line() {
    let output = "b.py:2:1:x = 1\na.py:7:5:    x = 2\na.py:3:1:x = 3\n";

    let hits = search(SearchMode::AllUsage, Language::Auto).search("x", output).unwrap();

    let found: Vec<(&str, u64)> =
        hits.iter().map(|h| (h.filename.as_str(), h.line.unwrap())).collect();
    assert_eq!(found, vec![("a.py", 3), ("b.py", 2), ("a.py", 7)]);
    assert!(hits.iter().all(|h| h.term == "x" && h.lang == DetectedLanguage::Python));
}

#[test]
fn search_passes_over_blank_lines() {
    let all = search(SearchMode::AllUsage, Language::Auto);

    assert_eq!(all.search("x", ""), Ok(vec![]));
    assert_eq!(all.search("x", "\n"), Ok(vec![]));
    assert_eq!(all.search("x", "\n  \n\t\n\r\n"), Ok(vec![]));
    assert_eq!(all.search("x", "\n\na.py:1:1:x\n   \nb.py:1:1:x").unwrap().len(), 2);
    assert_eq!(all.search("x", "a.py:1:1:x").unwrap().len(), 1);

    let files = search(SearchMode::File, Language::Auto);
    assert_eq!(files.search("x", "\n \nb/x.py\n\na/x.rs\n").unwrap().len(), 2);
}

#[test]
fn search_keeps_the_text_as_it_is() {
    let all = search(SearchMode::AllUsage, Language::Auto);

    let hits = all.search("x", "a.py:1:3:  x: int = 1  \r\n").unwrap();

    assert_eq!(hits[0].text, "  x: int = 1  \r");
}

#[test]
fn search_ends_with_the_first_error() {
    let all = search(SearchMode::AllUsage, Language::Auto);

    assert_eq!(
        all.search("x", "a.py:1:1:x\nbroken\nb.py:x:1:x\n"),
        Err(SearchError::HitFragmentCount)
    );
    assert_eq!(
        all.search("x", "a.py:1:1:x\nb.py:x:1:x\nbroken\n"),
        Err(SearchError::HitParseError(NumberError::InvalidDigit))
    );
    assert_eq!(
        all.search("x", "a.py:1:1:x\n\nb.py:1::x"),
        Err(SearchError::HitParseError(NumberError::Empty))
    );
}

#[test]
fn search_for_files_takes_every_line_for_a_name() {
    let files = search(SearchMode::File, Language::Auto);

    let hits = files.search("x", "b/x.py\nbroken\na:1:2:x.rs\n").unwrap();

    let expected: Vec<Hit> =
        ["a:1:2:x.rs", "b/x.py", "broken"].iter().map(|n| Hit::parse_filename(n, "x").unwrap()).collect();
    assert_eq!(hits, expected);
}

#[test]
fn search_ranks_functions() {
    let output = "a.scala:1:1:def f(x: Int): Unit = {\na.scala:9:3:  def f(x: Int): Unit\nb.scala:3:1:def f(x: Int): Unit\n";

    let hits = search(SearchMode::Function, Language::Scala).search("f", output).unwrap();

    let found: Vec<(&str, u64)> =
        hits.iter().map(|h| (h.filename.as_str(), h.line.unwrap())).collect();
    assert_eq!(found, vec![("b.scala", 3), ("a.scala", 1), ("a.scala", 9)]);
}

#[test]
fn argument_errors() {
    assert_eq!(
        ArgError::IllegalStyleImport.message(),
        "Cannot use output style = import without search mode = import"
    );
    assert_eq!(
        ArgError::IllegalFileOutputMode.message(),
        "With search mode = file, output style must be auto"
    );
    assert_eq!(AgError::Utf8.message(), "Non-utf8 output read from ag process");
    assert_eq!(
        AgError::Process("No such file or directory".to_string()).message(),
        "Ag process error: No such file or directory"
    );
    assert_eq!(
        SearchError::Ag(AgError::Utf8).message(),
        "Ag error: Non-utf8 output read from ag process"
    );
}

fn args(mode: SearchMode, output_style: OutputStyle, use_import_index_file: bool) -> Args {
    Args {
        mode,
        output_style,
        lang: Language::Rust,
        first_hit: false,
        list: false,
        use_import_index_file,
        import_index_file: None,
        term: "PathBuf".to_string(),
    }
}

#[test]
fn validate_each_combination() {
    for mode in modes() {
        for style in
            [OutputStyle::Auto, OutputStyle::Coords, OutputStyle::Import, OutputStyle::Quickfix]
        {
            let expected = if style == OutputStyle::Import && mode != SearchMode::Import {
                Err(ArgError::IllegalStyleImport)
            } else if mode == SearchMode::File && style != OutputStyle::Auto {
                Err(ArgError::IllegalFileOutputMode)
            } else {
                Ok(())
            };
            assert_eq!(args(mode, style, false).validate(), expected);
        }
    }
    assert_eq!(
        args(SearchMode::File, OutputStyle::Import, false).validate(),
        Err(ArgError::IllegalStyleImport)
    );
    assert_eq!(args(SearchMode::Import, OutputStyle::Import, true).validate(), Ok(()));
}

#[test]
fn import_index_is_the_last_resort() {
    assert!(args(SearchMode::Import, OutputStyle::Import, true).wants_import_index(0));
    assert!(!args(SearchMode::Import, OutputStyle::Import, true).wants_import_index(1));
    assert!(!args(SearchMode::Import, OutputStyle::Import, false).wants_import_index(0));
    assert!(!args(SearchMode::Import, OutputStyle::Coords, true).wants_import_index(0));
    assert!(!args(SearchMode::Class, OutputStyle::Auto, true).wants_import_index(0));
}

#[test]
fn names_of_languages() {
    let names: Vec<String> = languages().iter().map(|lang| lang.index_name()).collect();

    assert_eq!(names, vec!["auto", "go", "js", "python", "rust", "scala"]);
    for lang in languages() {
        assert_eq!(lang.index_name(), format!("{:?}", lang).to_lowercase());
    }
}

#[test]
fn import_index_file_of_a_language() {
    assert_eq!(get_import_index_filename("rust"), vec![".qf", "index", "imports", "rust.json"]);
    assert_eq!(get_import_index_filename(""), vec![".qf", "index", "imports", ".json"]);
}

#[test]
fn import_index_entries() {
    let mut index = ImportIndex::new("rust".to_string());
    assert_eq!(index.lang, "rust");
    assert_eq!(index.get("PathBuf"), None);

    index.insert("PathBuf".to_string(), "use std::path::PathBuf".to_string());
    index.insert("fs".to_string(), "use std::fs".to_string());
    assert_eq!(index.get("PathBuf"), Some(&"use std::path::PathBuf".to_string()));
    assert_eq!(index.get("fs"), Some(&"use std::fs".to_string()));
    assert_eq!(index.get("Path"), None);

    index.insert("fs".to_string(), "use std::fs;".to_string());
    assert_eq!(index.get("fs"), Some(&"use std::fs;".to_string()));
    assert_eq!(index.lang, "rust");
}
