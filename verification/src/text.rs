//! Character-level helpers shared by the parser, the query compiler and the
//! formatter. Text is handled as sequences of `char`, the view of `str`.

use vstd::prelude::*;

verus! {

/// The characters of `s`, in order.
pub fn chars_of(s: &str) -> (chars: Vec<char>)
    ensures
        chars@ == s@,
{
    let mut chars: Vec<char> = Vec::new();
    for c in it: s.chars()
        invariant
            it.seq() == s@,
            chars@ == it.seq().take(it.index() as int),
    {
        chars.push(c);
    }
    chars
}

/// Collects characters into a `String` with std's `Iterator::collect`, that
/// is through the `FromIterator<&char>` impl of `String`. Trusted: the string
/// holds exactly the characters given, in the order given.
#[verifier::external_body]
pub(crate) fn string_of(chars: &[char]) -> (s: String)
    ensures
        s@ == chars@,
{
    chars.iter().collect()
}

/// The code points with the Unicode `White_Space` property.
pub open spec fn is_whitespace(c: char) -> bool {
    ||| '\u{9}' <= c <= '\u{d}'
    ||| c == ' '
    ||| c == '\u{85}'
    ||| c == '\u{a0}'
    ||| c == '\u{1680}'
    ||| '\u{2000}' <= c <= '\u{200a}'
    ||| c == '\u{2028}'
    ||| c == '\u{2029}'
    ||| c == '\u{202f}'
    ||| c == '\u{205f}'
    ||| c == '\u{3000}'
}

/// Whether `c` is a whitespace character.
pub fn is_whitespace_char(c: char) -> (b: bool)
    ensures
        b == is_whitespace(c),
{
    ('\u{9}' <= c && c <= '\u{d}') || c == ' ' || c == '\u{85}' || c == '\u{a0}' || c
        == '\u{1680}' || ('\u{2000}' <= c && c <= '\u{200a}') || c == '\u{2028}' || c
        == '\u{2029}' || c == '\u{202f}' || c == '\u{205f}' || c == '\u{3000}'
}

/// A line is blank when it holds nothing but whitespace.
pub open spec fn is_blank(s: Seq<char>) -> bool {
    forall|i: int| 0 <= i < s.len() ==> is_whitespace(#[trigger] s[i])
}

/// Whether `chars` holds nothing but whitespace.
pub fn is_blank_slice(chars: &[char]) -> (b: bool)
    ensures
        b == is_blank(chars@),
{
    let mut i: usize = 0;
    while i < chars.len()
        invariant
            i <= chars.len(),
            forall|j: int| 0 <= j < i ==> is_whitespace(#[trigger] chars@[j]),
        decreases chars.len() - i,
    {
        if !is_whitespace_char(chars[i]) {
            return false;
        }
        i += 1;
    }
    true
}

/// `s` cut at the first `sep`: what stands before it and what stands after
/// it. `None` when `s` holds no `sep`.
pub open spec fn split_once(s: Seq<char>, sep: char) -> Option<(Seq<char>, Seq<char>)> {
    match s.index_of_first(sep) {
        Some(i) => Some((s.take(i), s.skip(i + 1))),
        None => None,
    }
}

/// The index of the first `c` in `chars`.
pub fn find(chars: &[char], c: char) -> (res: Option<usize>)
    ensures
        match res {
            Some(i) => i < chars.len() && chars@.index_of_first(c) == Some(i as int),
            None => chars@.index_of_first(c) is None,
        },
{
    let mut i: usize = 0;
    while i < chars.len()
        invariant
            i <= chars.len(),
            forall|j: int| 0 <= j < i ==> chars@[j] != c,
        decreases chars.len() - i,
    {
        if chars[i] == c {
            proof {
                chars@.index_of_first_ensures(c);
            }
            return Some(i);
        }
        i += 1;
    }
    proof {
        chars@.index_of_first_ensures(c);
    }
    None
}

/// Cuts `chars` at the first `sep`.
pub fn split_once_slice(chars: &[char], sep: char) -> (res: Option<(&[char], &[char])>)
    ensures
        match res {
            Some((head, tail)) => split_once(chars@, sep) == Some((head@, tail@)),
            None => split_once(chars@, sep) is None,
        },
{
    match find(chars, sep) {
        Some(i) => {
            let head = vstd::slice::slice_subrange(chars, 0, i);
            let tail = vstd::slice::slice_subrange(chars, i + 1, chars.len());
            Some((head, tail))
        },
        None => None,
    }
}

/// Whether the two characters `{}` stand at index `i` of `template`: the
/// placeholder that a template carries where a value is to be inserted.
pub open spec fn placeholder_at(template: Seq<char>, i: int) -> bool {
    0 <= i && i + 1 < template.len() && template[i] == '{' && template[i + 1] == '}'
}

/// `template` with each placeholder replaced by `value`. Placeholders are
/// found from left to right and do not overlap; `value` is inserted as it is,
/// so a placeholder inside `value` stays.
pub open spec fn substitute(template: Seq<char>, value: Seq<char>) -> Seq<char>
    decreases template.len(),
{
    if template.len() == 0 {
        template
    } else if placeholder_at(template, 0) {
        value + substitute(template.skip(2), value)
    } else {
        seq![template[0]] + substitute(template.skip(1), value)
    }
}

/// Replaces each placeholder of `template` by `value`.
pub fn substitute_chars(template: &[char], value: &[char]) -> (out: Vec<char>)
    ensures
        out@ == substitute(template@, value@),
{
    let mut out: Vec<char> = Vec::new();
    let mut i: usize = 0;
    assert(template@.skip(0) == template@);
    while i < template.len()
        invariant
            i <= template.len(),
            substitute(template@, value@) == out@ + substitute(template@.skip(i as int), value@),
        decreases template.len() - i,
    {
        let ghost rest = template@.skip(i as int);
        if template[i] == '{' && i + 1 < template.len() && template[i + 1] == '}' {
            assert(rest.skip(2) == template@.skip(i + 2));
            out.extend_from_slice(value);
            i += 2;
        } else {
            assert(rest.skip(1) == template@.skip(i + 1));
            out.push(template[i]);
            i += 1;
        }
    }
    out
}

/// A text that begins with `head`, goes on with `sep` and ends with `tail`
/// is cut into `head` and `tail`, where `head` holds no `sep`.
pub proof fn lemma_split_once_at(head: Seq<char>, tail: Seq<char>, sep: char)
    requires
        !head.contains(sep),
    ensures
        split_once(head + seq![sep] + tail, sep) == Some((head, tail)),
{
    let whole = head + seq![sep] + tail;
    whole.index_of_first_ensures(sep);
    assert(whole[head.len() as int] == sep);
    assert(whole.contains(sep));
    let i = whole.index_of_first(sep).unwrap();
    if i < head.len() {
        assert(head[i] == whole[i]);
        assert(head.contains(sep));
    }
    assert(i == head.len());
    assert(whole.take(i) =~= head);
    assert(whole.skip(i + 1) =~= tail);
}

/// A template without a placeholder stays as it is.
pub proof fn lemma_substitute_plain(template: Seq<char>, value: Seq<char>)
    requires
        forall|i: int| !placeholder_at(template, i),
    ensures
        substitute(template, value) == template,
    decreases template.len(),
{
    if template.len() > 0 {
        assert forall|i: int| !placeholder_at(template.skip(1), i) by {
            assert(!placeholder_at(template, i + 1));
        }
        lemma_substitute_plain(template.skip(1), value);
    }
}

/// In a template with one placeholder the value takes the place of the
/// placeholder, and what stands before and after it stays.
pub proof fn lemma_substitute_one(before: Seq<char>, after: Seq<char>, value: Seq<char>)
    requires
        forall|i: int| !placeholder_at(before, i),
        forall|i: int| !placeholder_at(after, i),
    ensures
        substitute(before + seq!['{', '}'] + after, value) == before + value + after,
    decreases before.len(),
{
    let template = before + seq!['{', '}'] + after;
    if before.len() == 0 {
        assert(template.skip(2) =~= after);
        lemma_substitute_plain(after, value);
    } else {
        assert(!placeholder_at(template, 0)) by {
            assert(!placeholder_at(before, 0));
        }
        assert forall|i: int| !placeholder_at(before.skip(1), i) by {
            assert(!placeholder_at(before, i + 1));
        }
        assert(template.skip(1) =~= before.skip(1) + seq!['{', '}'] + after);
        lemma_substitute_one(before.skip(1), after, value);
    }
}

/// Two templates in a row are filled one after the other, unless the first
/// ends with the opening brace of a placeholder that the second closes.
pub proof fn lemma_substitute_concat(first: Seq<char>, second: Seq<char>, value: Seq<char>)
    requires
        first.len() == 0 || second.len() == 0 || first.last() != '{' || second[0] != '}',
    ensures
        substitute(first + second, value) == substitute(first, value) + substitute(second, value),
    decreases first.len(),
{
    let both = first + second;
    if first.len() == 0 {
        assert(both =~= second);
        assert(substitute(first, value) + substitute(second, value) =~= substitute(second, value));
    } else if placeholder_at(first, 0) {
        assert(placeholder_at(both, 0));
        assert(both.skip(2) =~= first.skip(2) + second);
        lemma_substitute_concat(first.skip(2), second, value);
        assert(value + (substitute(first.skip(2), value) + substitute(second, value)) =~= (value
            + substitute(first.skip(2), value)) + substitute(second, value));
    } else {
        assert(!placeholder_at(both, 0));
        assert(both.skip(1) =~= first.skip(1) + second);
        lemma_substitute_concat(first.skip(1), second, value);
        assert(seq![both[0]] + (substitute(first.skip(1), value) + substitute(second, value))
            =~= (seq![first[0]] + substitute(first.skip(1), value)) + substitute(second, value));
    }
}

} // verus!
