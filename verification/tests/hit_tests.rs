use qf::args::SearchMode;
use qf::number::{parse_u64, NumberError};
use qf::search::{detect_language, DetectedLanguage, Hit, SearchError};
use qf::sort::sort_hits;
use qf::text::{chars_of, is_blank_slice, is_whitespace_char, substitute_chars};

fn hit(filename: &str, line: u64, text: &str) -> Hit {
    Hit {
        term: "term".to_string(),
        filename: filename.to_string(),
        line: Some(line),
        col: Some(1),
        text: text.to_string(),
        lang: DetectedLanguage::Unknown,
    }
}

fn texts(hits: &[Hit]) -> Vec<&str> {
    hits.iter().map(|h| h.text.as_str()).collect()
}

#[test]
fn detect_by_extension_whatever_the_case() {
    assert_eq!(detect_language("Foo.RS"), DetectedLanguage::Rust);
    assert_eq!(detect_language("foo.rs"), DetectedLanguage::Rust);
    assert_eq!(detect_language("a.b.rs"), DetectedLanguage::Rust);
    assert_eq!(detect_language("foo.Rs"), DetectedLanguage::Rust);
}

#[test]
fn detect_each_extension() {
    assert_eq!(detect_language("main.go"), DetectedLanguage::Go);
    assert_eq!(detect_language("index.js"), DetectedLanguage::Js);
    assert_eq!(detect_language("cli.py"), DetectedLanguage::Python);
    assert_eq!(detect_language("lib.rs"), DetectedLanguage::Rust);
    assert_eq!(detect_language("build.sbt"), DetectedLanguage::Scala);
    assert_eq!(detect_language("script.sc"), DetectedLanguage::Scala);
    assert_eq!(detect_language("Update.scala"), DetectedLanguage::Scala);
    assert_eq!(detect_language("Update.SCALA"), DetectedLanguage::Scala);
    assert_eq!(detect_language(".rs"), DetectedLanguage::Rust);
    assert_eq!(detect_language("dir.d/cli.py"), DetectedLanguage::Python);
}

#[test]
fn detect_unknown() {
    assert_eq!(detect_language("Potato.h"), DetectedLanguage::Unknown);
    assert_eq!(detect_language("Makefile"), DetectedLanguage::Unknown);
    assert_eq!(detect_language("rs"), DetectedLanguage::Unknown);
    assert_eq!(detect_language("py"), DetectedLanguage::Unknown);
    assert_eq!(detect_language(""), DetectedLanguage::Unknown);
    assert_eq!(detect_language("foo."), DetectedLanguage::Unknown);
    assert_eq!(detect_language("foo.rs.bak"), DetectedLanguage::Unknown);
    assert_eq!(detect_language("foo.rss"), DetectedLanguage::Unknown);
    assert_eq!(detect_language("foo.r"), DetectedLanguage::Unknown);
    assert_eq!(detect_language("src.rs/notes"), DetectedLanguage::Unknown);
    assert_eq!(detect_language("foo.\u{17f}c"), DetectedLanguage::Unknown);
    assert_eq!(detect_language("foo.r\u{455}"), DetectedLanguage::Unknown);
}

#[test]
fn detect_as_lowercasing_does() {
    let names = ["x.GO", "x.Js", "x.pY", "x.RS", "x.Sbt", "x.SC", "x.ScAlA", "x.K", "x.\u{212a}"];
    let known = ["go", "js", "py", "rs", "sbt", "sc", "scala"];
    for name in names {
        let extension = name.split('.').last().unwrap().to_lowercase();
        let expected = known.contains(&extension.as_str());
        assert_eq!(detect_language(name) != DetectedLanguage::Unknown, expected, "{}", name);
    }
}

#[test]
fn parse_line_of_four_fields() {
    let expected = Hit {
        term: "needle".to_string(),
        filename: "f.py".to_string(),
        line: Some(10),
        col: Some(3),
        text: "text".to_string(),
        lang: DetectedLanguage::Python,
    };

    assert_eq!(Hit::parse("f.py:10:3:text", "needle"), Ok(expected));
}

#[test]
fn parse_keeps_colons_of_the_text() {
    let parsed = Hit::parse("src/a.scala:7:12:def f(x: Int): Unit = {", "f").unwrap();

    assert_eq!(parsed.filename, "src/a.scala");
    assert_eq!(parsed.line, Some(7));
    assert_eq!(parsed.col, Some(12));
    assert_eq!(parsed.text, "def f(x: Int): Unit = {");
    assert_eq!(parsed.lang, DetectedLanguage::Scala);
    assert_eq!(parsed.term, "f");
}

#[test]
fn parse_empty_text() {
    let parsed = Hit::parse("a.rs:1:1:", "x").unwrap();

    assert_eq!(parsed.text, "");
    assert_eq!(parsed.lang, DetectedLanguage::Rust);
}

#[test]
fn parse_too_few_fields() {
    assert_eq!(Hit::parse("f.py:10:3", "x"), Err(SearchError::HitFragmentCount));
    assert_eq!(Hit::parse("f.py:10", "x"), Err(SearchError::HitFragmentCount));
    assert_eq!(Hit::parse("f.py", "x"), Err(SearchError::HitFragmentCount));
    assert_eq!(Hit::parse("", "x"), Err(SearchError::HitFragmentCount));
}

#[test]
fn parse_line_or_column_that_is_no_number() {
    assert_eq!(
        Hit::parse("f.py:ten:3:text", "x"),
        Err(SearchError::HitParseError(NumberError::InvalidDigit))
    );
    assert_eq!(
        Hit::parse("f.py:10:3a:text", "x"),
        Err(SearchError::HitParseError(NumberError::InvalidDigit))
    );
    assert_eq!(
        Hit::parse("f.py::3:text", "x"),
        Err(SearchError::HitParseError(NumberError::Empty))
    );
    assert_eq!(
        Hit::parse("f.py:1::text", "x"),
        Err(SearchError::HitParseError(NumberError::Empty))
    );
    assert_eq!(
        Hit::parse("f.py:-1:3:text", "x"),
        Err(SearchError::HitParseError(NumberError::InvalidDigit))
    );
    assert_eq!(
        Hit::parse("f.py:18446744073709551616:3:text", "x"),
        Err(SearchError::HitParseError(NumberError::Overflow))
    );
    assert_eq!(
        Hit::parse("f.py: 1:3:text", "x"),
        Err(SearchError::HitParseError(NumberError::InvalidDigit))
    );
}

#[test]
fn parse_reports_the_line_before_the_column() {
    assert_eq!(
        Hit::parse("f.py::x:text", "x"),
        Err(SearchError::HitParseError(NumberError::Empty))
    );
    assert_eq!(
        Hit::parse("f.py:x::text", "x"),
        Err(SearchError::HitParseError(NumberError::InvalidDigit))
    );
}

#[test]
fn parse_numbers_at_the_limits() {
    let parsed = Hit::parse("f.py:18446744073709551615:0:text", "x").unwrap();
    assert_eq!(parsed.line, Some(u64::MAX));
    assert_eq!(parsed.col, Some(0));

    let parsed = Hit::parse("f.py:+7:007:text", "x").unwrap();
    assert_eq!(parsed.line, Some(7));
    assert_eq!(parsed.col, Some(7));
}

#[test]
fn numbers_read_as_std_reads_them() {
    let fields = [
        "", "0", "7", "42", "007", "+", "+0", "+42", "++1", "-", "-0", "-1", "1-", "1 ", " 1",
        "1_000", "0x10", "1e3", "12a", "a12", "١٢", "18446744073709551615",
        "18446744073709551616", "99999999999999999999", "000000000000000000000000001",
        "+18446744073709551615", "+18446744073709551616", "184467440737095516150",
    ];
    for field in fields {
        let chars: Vec<char> = field.chars().collect();
        assert_eq!(parse_u64(&chars).ok(), field.parse::<u64>().ok(), "{:?}", field);
    }
}

#[test]
fn number_errors() {
    let read = |field: &str| parse_u64(&field.chars().collect::<Vec<char>>());
    assert_eq!(read(""), Err(NumberError::Empty));
    assert_eq!(read("+"), Err(NumberError::InvalidDigit));
    assert_eq!(read("12x"), Err(NumberError::InvalidDigit));
    assert_eq!(read("99999999999999999999x"), Err(NumberError::InvalidDigit));
    assert_eq!(read("99999999999999999999"), Err(NumberError::Overflow));
    assert_eq!(read("1234567890"), Ok(1234567890));
}

#[test]
fn number_error_messages() {
    assert_eq!(NumberError::Empty.message(), "cannot parse integer from empty string");
    assert_eq!(NumberError::InvalidDigit.message(), "invalid digit found in string");
    assert_eq!(NumberError::Overflow.message(), "number too large to fit in target type");
    assert_eq!(SearchError::HitFragmentCount.message(), "Hit fragment count error");
    assert_eq!(
        SearchError::HitParseError(NumberError::InvalidDigit).message(),
        "Error parsing line/col from ag: invalid digit found in string"
    );
}

#[test]
fn parse_filename_line() {
    let expected = Hit {
        term: "Update".to_string(),
        filename: "model/Update.scala".to_string(),
        line: None,
        col: None,
        text: "model/Update.scala".to_string(),
        lang: DetectedLanguage::Scala,
    };

    assert_eq!(Hit::parse_filename("model/Update.scala", "Update"), Ok(expected));
}

#[test]
fn parse_filename_with_colons() {
    let parsed = Hit::parse_filename("a:1:2:b.py", "b").unwrap();

    assert_eq!(parsed.filename, "a:1:2:b.py");
    assert_eq!(parsed.text, "a:1:2:b.py");
    assert_eq!(parsed.line, None);
    assert_eq!(parsed.col, None);
    assert_eq!(parsed.lang, DetectedLanguage::Python);
}

#[test]
fn whitespace_is_what_std_takes_for_it() {
    for code in 0..=0x10ffffu32 {
        if let Some(c) = char::from_u32(code) {
            assert_eq!(is_whitespace_char(c), c.is_whitespace(), "U+{:04X}", code);
        }
    }
}

#[test]
fn blank_lines() {
    let blank = |line: &str| is_blank_slice(&chars_of(line));
    assert!(blank(""));
    assert!(blank("  \t "));
    assert!(blank("\r"));
    assert!(blank("\u{a0}\u{3000}"));
    assert!(!blank("  x "));
    assert!(!blank("\u{200b}"));
}

#[test]
fn chars_of_a_text() {
    assert_eq!(chars_of("aé中😀"), vec!['a', 'é', '中', '😀']);
    assert_eq!(chars_of(""), Vec::<char>::new());
}

#[test]
fn substitute_each_placeholder() {
    let fill = |template: &str, value: &str| -> String {
        substitute_chars(&chars_of(template), &chars_of(value)).into_iter().collect()
    };
    assert_eq!(fill("{}", "x"), "x");
    assert_eq!(fill("a{}b", "xyz"), "axyzb");
    assert_eq!(fill("{}{}", "ab"), "abab");
    assert_eq!(fill("a{}b{}c", ""), "abc");
    assert_eq!(fill("no placeholder", "x"), "no placeholder");
    assert_eq!(fill("{{}}", "x"), "{x}");
    assert_eq!(fill("{", "x"), "{");
    assert_eq!(fill("}{", "x"), "}{");
    assert_eq!(fill("{}", "{}"), "{}");
    assert_eq!(fill("a{}", "{}{}"), "a{}{}");
    assert_eq!(fill("", "x"), "");
    assert_eq!(fill("é{}中", "😀"), "é😀中");
    assert_eq!(fill("a{}b{}c", "x"), "a{}b{}c".replace("{}", "x"));
}

#[test]
fn sort_less_indented_first() {
    let mut hits = vec![hit("a.py", 1, "    def f():"), hit("b.py", 9, "def f():")];

    sort_hits(&mut hits, &SearchMode::AllUsage);

    assert_eq!(texts(&hits), vec!["def f():", "    def f():"]);
}

#[test]
fn sort_counts_every_leading_space_and_tab() {
    let mut hits = vec![
        hit("a.py", 1, "        x"),
        hit("a.py", 2, "  x"),
        hit("a.py", 3, "\t\t\tx"),
        hit("a.py", 4, " \t x y"),
        hit("a.py", 5, "x"),
        hit("a.py", 6, " x"),
        hit("a.py", 7, "\u{a0}\u{a0}\u{a0}\u{a0}\u{a0}x"),
    ];

    sort_hits(&mut hits, &SearchMode::Class);

    let lines: Vec<u64> = hits.iter().map(|h| h.line.unwrap()).collect();
    assert_eq!(lines, vec![5, 7, 6, 2, 3, 4, 1]);
}

#[test]
fn sort_functions_without_body_first() {
    let mut hits = vec![
        hit("a.scala", 1, "def f(x: Int): Unit = {"),
        hit("a.py", 2, "def f(x):"),
        hit("a.scala", 3, "def f(x: Int): Unit"),
        hit("a.scala", 4, "def f(x: Int) ="),
    ];

    sort_hits(&mut hits, &SearchMode::Function);

    let lines: Vec<u64> = hits.iter().map(|h| h.line.unwrap()).collect();
    assert_eq!(lines, vec![3, 2, 1, 4]);
}

#[test]
fn sort_indent_counts_before_the_body() {
    let mut hits = vec![hit("a.scala", 1, "  def f(x: Int): Unit"), hit("a.scala", 2, "def f(x) = {")];

    sort_hits(&mut hits, &SearchMode::Function);

    assert_eq!(texts(&hits), vec!["def f(x) = {", "  def f(x: Int): Unit"]);
}

#[test]
fn sort_takes_no_note_of_bodies_in_other_searches() {
    for mode in [
        SearchMode::AllUsage,
        SearchMode::Class,
        SearchMode::File,
        SearchMode::Import,
        SearchMode::Smart,
    ] {
        let mut hits = vec![hit("a.scala", 1, "class A {"), hit("a.scala", 3, "class A")];

        sort_hits(&mut hits, &mode);

        assert_eq!(texts(&hits), vec!["class A {", "class A"]);
    }
}

#[test]
fn sort_by_file_name_then_line() {
    let mut hits = vec![
        hit("b.py", 1, "x1"),
        hit("a.py", 20, "x2"),
        hit("ab.py", 3, "x3"),
        hit("a.py", 3, "x4"),
        hit("B.py", 7, "x5"),
        hit("a", 9, "x6"),
        hit("é.py", 1, "x7"),
        hit("z.py", 1, "x8"),
    ];

    sort_hits(&mut hits, &SearchMode::AllUsage);

    assert_eq!(texts(&hits), vec!["x5", "x6", "x4", "x2", "x3", "x1", "x8", "x7"]);
}

#[test]
fn sort_file_names_as_std_orders_them() {
    let names = ["", "a", "A", "a/b", "a.b", "ab", "é", "z", "日本", "\u{10000}", "\u{ffff}", "a\u{0}"];
    let mut hits: Vec<Hit> = names.iter().map(|name| hit(name, 1, "x")).collect();

    sort_hits(&mut hits, &SearchMode::AllUsage);

    let mut expected: Vec<String> = names.iter().map(|name| name.to_string()).collect();
    expected.sort();
    let sorted: Vec<String> = hits.into_iter().map(|h| h.filename).collect();
    assert_eq!(sorted, expected);
}

#[test]
fn sort_takes_a_missing_line_for_zero() {
    let mut without = hit("a.py", 0, "file");
    without.line = None;
    without.col = None;
    let mut hits = vec![hit("a.py", 1, "one"), without, hit("a.py", 0, "zero")];

    sort_hits(&mut hits, &SearchMode::AllUsage);

    assert_eq!(texts(&hits), vec!["file", "zero", "one"]);
}

#[test]
fn sort_keeps_the_order_of_hits_that_rank_alike() {
    let mut hits = Vec::new();
    for col in 0..50u64 {
        let mut h = hit(if col % 2 == 0 { "b.py" } else { "a.py" }, col % 3, "same text");
        h.col = Some(col);
        hits.push(h);
    }
    let mut expected = hits.clone();
    expected.sort_by_key(|h| (h.filename.clone(), h.line));

    sort_hits(&mut hits, &SearchMode::Function);

    assert_eq!(hits, expected);
}

#[test]
fn sort_as_a_stable_sort_by_key_does() {
    let texts = ["x", " x", "  x {", "x:", "x =", "\tx", "", " ", "x {", "    x"];
    let files = ["b.rs", "a.rs", "a.rs", "c/d.rs"];
    let mut hits = Vec::new();
    let mut seed: u64 = 12345;
    for n in 0..300u64 {
        seed = seed.wrapping_mul(6364136223846793005).wrapping_add(1442695040888963407);
        let pick = (seed >> 33) as usize;
        let mut h = hit(files[pick % files.len()], (pick / 7 % 5) as u64, texts[pick / 64 % texts.len()]);
        h.col = Some(n);
        hits.push(h);
    }
    for mode in [SearchMode::Function, SearchMode::Class] {
        let mut expected = hits.clone();
        expected.sort_by_key(|h| {
            let indent = h.text.chars().take_while(|c| *c == ' ' || *c == '\t').count();
            let has_body = mode == SearchMode::Function
                && h.text.chars().last().map(|c| ['{', ':', '='].contains(&c)).unwrap_or(false);
            (indent, has_body, h.filename.clone(), h.line.unwrap_or(0))
        });
        let mut actual = hits.clone();

        sort_hits(&mut actual, &mode);

        assert_eq!(actual, expected);
    }
}

#[test]
fn sort_nothing_and_one() {
    let mut none: Vec<Hit> = Vec::new();
    sort_hits(&mut none, &SearchMode::Function);
    assert_eq!(none, vec![]);

    let mut one = vec![hit("a.py", 1, "  x")];
    sort_hits(&mut one, &SearchMode::Function);
    assert_eq!(one, vec![hit("a.py", 1, "  x")]);
}
