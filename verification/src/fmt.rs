//! How a hit is written: as coordinates, as a quickfix line, or as an import
//! statement.

pub mod imports;

use vstd::prelude::*;
use crate::args::OutputStyle;
use crate::fmt::imports::{generate_import, synthesized};
use crate::number::{
    decimal, is_digit, lemma_decimal_is_number, lemma_decimal_round_trip, push_decimal,
};
use crate::search::{Hit, HitView, SearchError, detected_language};
use crate::text::{lemma_split_once_at, string_of};

verus! {

/// Why a hit cannot be written in the style asked for.
#[derive(Clone, Debug, PartialEq, Eq)]
pub enum FormatError {
    /// The hit lacks what the style needs; the payload names it.
    MissingProperty(String),
    /// No import can be made for the language of the hit.
    UnsupportedLanguage,
    /// The matched text is no import of the term; the payload says what was
    /// looked for, and where.
    Pattern(String),
}

/// What a format error holds.
pub enum FormatErrorView {
    MissingProperty(Seq<char>),
    UnsupportedLanguage,
    Pattern(Seq<char>),
}

impl View for FormatError {
    type V = FormatErrorView;

    open spec fn view(&self) -> FormatErrorView {
        match self {
            FormatError::MissingProperty(what) => FormatErrorView::MissingProperty(what@),
            FormatError::UnsupportedLanguage => FormatErrorView::UnsupportedLanguage,
            FormatError::Pattern(what) => FormatErrorView::Pattern(what@),
        }
    }
}

impl FormatError {
    /// The text that tells a user what is wrong.
    pub open spec fn spec_message(self) -> Seq<char> {
        match self {
            FormatError::MissingProperty(what) => "Missing required properties: "@ + what@,
            FormatError::UnsupportedLanguage => "Unsupported language"@,
            FormatError::Pattern(what) => "Pattern not found: "@ + what@,
        }
    }

    /// The text that tells a user what is wrong.
    pub fn message(&self) -> (res: String)
        ensures
            res@ == self.spec_message(),
    {
        match self {
            FormatError::MissingProperty(what) => "Missing required properties: ".to_owned().concat(
                what.as_str(),
            ),
            FormatError::UnsupportedLanguage => "Unsupported language".to_owned(),
            FormatError::Pattern(what) => "Pattern not found: ".to_owned().concat(what.as_str()),
        }
    }
}

/// What a written hit, or the refusal to write it, holds.
pub open spec fn written_view(res: Result<String, FormatError>) -> Result<
    Seq<char>,
    FormatErrorView,
> {
    match res {
        Ok(text) => Ok(text@),
        Err(e) => Err(e@),
    }
}

/// The coordinates of a hit: its file name, its line and its column. A hit
/// without a line has none, and neither has one without a column.
pub open spec fn coords(hit: HitView) -> Result<(Seq<char>, Seq<char>, Seq<char>), FormatErrorView> {
    match hit.line {
        None => Err(FormatErrorView::MissingProperty("line number"@)),
        Some(line) => match hit.col {
            None => Err(FormatErrorView::MissingProperty("col number"@)),
            Some(col) => Ok((hit.filename, decimal(line as nat), decimal(col as nat))),
        },
    }
}

/// The coordinates of a hit in one text, with colons between them.
pub open spec fn coords_text(hit: HitView) -> Result<Seq<char>, FormatErrorView> {
    match coords(hit) {
        Ok((filename, line, col)) => Ok(filename + ":"@ + line + ":"@ + col),
        Err(e) => Err(e),
    }
}

/// A hit written in the style `style`.
pub open spec fn written(style: OutputStyle, hit: HitView) -> Result<Seq<char>, FormatErrorView> {
    match style {
        OutputStyle::Auto => if hit.line is None {
            Ok(hit.text)
        } else {
            coords_text(hit)
        },
        OutputStyle::Import => synthesized(hit),
        OutputStyle::Coords => coords_text(hit),
        OutputStyle::Quickfix => match coords_text(hit) {
            Ok(text) => Ok(text + ":"@ + hit.text),
            Err(e) => Err(e),
        },
    }
}

/// Writes hits in one style.
pub struct HitFormatter {
    style: OutputStyle,
}

impl View for HitFormatter {
    type V = OutputStyle;

    /// The style in which the hits are written.
    closed spec fn view(&self) -> OutputStyle {
        self.style
    }
}

/// The decimal digits of `n`.
fn decimal_string(n: u64) -> (res: String)
    ensures
        res@ == decimal(n as nat),
{
    let mut digits: Vec<char> = Vec::new();
    push_decimal(n, &mut digits);
    string_of(digits.as_slice())
}

/// The coordinates of a hit in one text, with colons between them.
fn coords_string(h: &Hit) -> (res: Result<String, FormatError>)
    ensures
        written_view(res) == coords_text(h@),
{
    match HitFormatter::get_coords(h) {
        Ok(parts) => Ok(
            parts[0].clone().concat(":").concat(parts[1].as_str()).concat(":").concat(
                parts[2].as_str(),
            ),
        ),
        Err(e) => Err(e),
    }
}

impl HitFormatter {
    /// A formatter that writes in the style `style`.
    pub fn new(style: &OutputStyle) -> (formatter: HitFormatter)
        ensures
            formatter@ == *style,
    {
        HitFormatter { style: *style }
    }

    /// The file name, the line and the column of a hit.
    pub fn get_coords(h: &Hit) -> (res: Result<[String; 3], FormatError>)
        ensures
            match res {
                Ok(parts) => coords(h@) == Ok::<_, FormatErrorView>(
                    (parts[0]@, parts[1]@, parts[2]@),
                ),
                Err(e) => coords(h@) == Err::<(Seq<char>, Seq<char>, Seq<char>), _>(e@),
            },
    {
        let line = match h.line {
            Some(line) => line,
            None => { return Err(FormatError::MissingProperty("line number".to_owned())); },
        };
        let col = match h.col {
            Some(col) => col,
            None => { return Err(FormatError::MissingProperty("col number".to_owned())); },
        };
        Ok([h.filename.clone(), decimal_string(line), decimal_string(col)])
    }

    /// Writes a hit in the formatter's style.
    pub fn write(&self, h: &Hit) -> (res: Result<String, FormatError>)
        ensures
            written_view(res) == written(self@, h@),
    {
        match self.style {
            OutputStyle::Auto => {
                if h.line.is_none() {
                    Ok(h.text.clone())
                } else {
                    coords_string(h)
                }
            },
            OutputStyle::Import => generate_import(h),
            OutputStyle::Coords => coords_string(h),
            OutputStyle::Quickfix => match coords_string(h) {
                Ok(text) => Ok(text.concat(":").concat(h.text.as_str())),
                Err(e) => Err(e),
            },
        }
    }
}

/// A hit that is written as a quickfix line and read again is the same hit,
/// where the hit is one that a line can stand for: its file name holds no
/// colon, it has a line and a column, and its language is that of its file
/// name.
pub proof fn lemma_quickfix_round_trip(hit: HitView)
    requires
        !hit.filename.contains(':'),
        hit.line is Some,
        hit.col is Some,
        hit.lang == detected_language(hit.filename),
    ensures
        written(OutputStyle::Quickfix, hit) matches Ok(line) && Hit::parsed(line, hit.term) == Ok::<
            HitView,
            SearchError,
        >(hit),
{
    reveal_strlit(":");
    let line_field = decimal(hit.line.unwrap() as nat);
    let col_field = decimal(hit.col.unwrap() as nat);
    let colon = seq![':'];
    assert(":"@ =~= colon);
    let line = written(OutputStyle::Quickfix, hit)->Ok_0;
    let after_col = hit.text;
    let after_line = col_field + colon + after_col;
    let after_name = line_field + colon + after_line;
    assert(line =~= hit.filename + colon + after_name);
    lemma_decimal_is_number(hit.line.unwrap() as nat);
    lemma_decimal_is_number(hit.col.unwrap() as nat);
    lemma_decimal_round_trip(hit.line.unwrap());
    lemma_decimal_round_trip(hit.col.unwrap());
    assert(!line_field.contains(':')) by {
        if line_field.contains(':') {
            let i = choose|i: int| 0 <= i < line_field.len() && line_field[i] == ':';
            assert(is_digit(line_field[i]));
        }
    }
    assert(!col_field.contains(':')) by {
        if col_field.contains(':') {
            let i = choose|i: int| 0 <= i < col_field.len() && col_field[i] == ':';
            assert(is_digit(col_field[i]));
        }
    }
    lemma_split_once_at(hit.filename, after_name, ':');
    lemma_split_once_at(line_field, after_line, ':');
    lemma_split_once_at(col_field, after_col, ':');
}

} // verus!
