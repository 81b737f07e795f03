use qf::args::OutputStyle;
use qf::fmt::{FormatError, HitFormatter};
use qf::search::{DetectedLanguage, Hit};

/// A typical hit for a filename search, no coordinates
fn filename_hit(filename: &str) -> Hit {
    Hit {
        term: filename.to_string(),
        filename: filename.to_string(),
        line: None,
        col: None,
        text: filename.to_string(),
        lang: DetectedLanguage::Scala,
    }
}

/// A typical hit for a normal term search, coordinates included
fn term_hit(term: &str, text: &str) -> Hit {
    Hit {
        term: term.to_string(),
        filename: "Example.scala".to_string(),
        line: Some(1337),
        col: Some(66),
        text: text.to_string(),
        lang: DetectedLanguage::Scala,
    }
}

#[test]
/// Use coordinates format if no specific format specified
fn auto_coord_fmt() {
    let formatter = HitFormatter::new(&OutputStyle::Auto);
    let hit = term_hit("Example", "class Example");

    let expected = "Example.scala:1337:66".to_string();
    let actual = formatter.write(&hit);

    assert_eq!(actual, Ok(expected));
}

#[test]
/// Show text only with auto format if no line/col info (filename search only)
fn auto_coord_filename_fmt() {
    let formatter = HitFormatter::new(&OutputStyle::Auto);
    let hit = filename_hit("Example.scala");

    let expected = "Example.scala".to_string();
    let actual = formatter.write(&hit);

    assert_eq!(actual, Ok(expected));
}

#[test]
/// Show coord format if specified
fn coord_fmt() {
    let formatter = HitFormatter::new(&OutputStyle::Coords);
    let hit = term_hit("Example", "class Example");

    let expected = "Example.scala:1337:66".to_string();
    let actual = formatter.write(&hit);

    assert_eq!(actual, Ok(expected));
}

#[test]
/// Error if coord format specified but coords not found
fn coord_fmt_no_coords() {
    let formatter = HitFormatter::new(&OutputStyle::Coords);
    let hit = filename_hit("Example.scala");

    let expected = FormatError::MissingProperty("line number".to_string());
    let actual = formatter.write(&hit);

    assert_eq!(actual, Err(expected));
}

#[test]
/// Show quickfix format if specified
fn quickfix_fmt() {
    let formatter = HitFormatter::new(&OutputStyle::Quickfix);
    let hit = term_hit("Example", "class Example");

    let expected = "Example.scala:1337:66:class Example".to_string();
    let actual = formatter.write(&hit);

    assert_eq!(actual, Ok(expected));
}

#[test]
/// Error if quickfix format specified but coords not found
fn quickfix_fmt_no_coords() {
    let formatter = HitFormatter::new(&OutputStyle::Quickfix);
    let hit = filename_hit("Example.scala");

    let expected = FormatError::MissingProperty("line number".to_string());
    let actual = formatter.write(&hit);

    assert_eq!(actual, Err(expected));
}

#[test]
fn import_fmt_scala_single() {
    let formatter = HitFormatter::new(&OutputStyle::Import);
    let hit = term_hit("Potato", "import com.example.foo.bar.Potato");

    let expected = "import com.example.foo.bar.Potato".to_string();
    let actual = formatter.write(&hit);

    assert_eq!(actual, Ok(expected));
}

#[test]
fn coords_of_a_hit() {
    let hit = term_hit("Example", "class Example");

    let expected = ["Example.scala".to_string(), "1337".to_string(), "66".to_string()];
    assert_eq!(HitFormatter::get_coords(&hit), Ok(expected));
}

#[test]
fn coords_without_column() {
    let mut hit = term_hit("Example", "class Example");
    hit.col = None;

    let expected = FormatError::MissingProperty("col number".to_string());
    assert_eq!(HitFormatter::get_coords(&hit), Err(expected.clone()));
    assert_eq!(HitFormatter::new(&OutputStyle::Auto).write(&hit), Err(expected));
}

#[test]
fn coords_at_the_limits() {
    let mut hit = term_hit("Example", "class Example");
    hit.line = Some(0);
    hit.col = Some(u64::MAX);

    let formatter = HitFormatter::new(&OutputStyle::Quickfix);
    let expected = "Example.scala:0:18446744073709551615:class Example".to_string();
    assert_eq!(formatter.write(&hit), Ok(expected));
}

#[test]
fn quickfix_line_reads_back_as_the_hit() {
    let hit = Hit {
        term: "Example".to_string(),
        filename: "src/Example.scala".to_string(),
        line: Some(12),
        col: Some(7),
        text: "class Example extends Base: // see: docs".to_string(),
        lang: DetectedLanguage::Scala,
    };

    let written = HitFormatter::new(&OutputStyle::Quickfix).write(&hit).unwrap();
    assert_eq!(written, "src/Example.scala:12:7:class Example extends Base: // see: docs");
    assert_eq!(Hit::parse(&written, "Example"), Ok(hit));
}

#[test]
fn import_fmt_unsupported_language() {
    let formatter = HitFormatter::new(&OutputStyle::Import);
    let mut hit = term_hit("Potato", "#include<Potato.h>");
    hit.lang = DetectedLanguage::Unknown;

    assert_eq!(formatter.write(&hit), Err(FormatError::UnsupportedLanguage));
}

#[test]
fn format_error_messages() {
    assert_eq!(
        FormatError::MissingProperty("line number".to_string()).message(),
        "Missing required properties: line number"
    );
    assert_eq!(FormatError::UnsupportedLanguage.message(), "Unsupported language");
    assert_eq!(
        FormatError::Pattern("failed to find [a] in [b]".to_string()).message(),
        "Pattern not found: failed to find [a] in [b]"
    );
}
