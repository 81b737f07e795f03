//! The order in which hits are returned.

use vstd::prelude::*;
use crate::args::SearchMode;
use crate::search::{Hit, HitView};
use crate::text::chars_of;

verus! {

/// A character that indents a line: a space or a tab.
pub open spec fn is_indent(c: char) -> bool {
    c == ' ' || c == '\t'
}

/// The number of spaces and tabs that `text` begins with.
pub open spec fn indent(text: Seq<char>) -> nat
    decreases text.len(),
{
    if text.len() > 0 && is_indent(text[0]) {
        1 + indent(text.skip(1))
    } else {
        0
    }
}

/// Whether `text` ends as a definition with a body does: with `{`, `:` or
/// `=`.
pub open spec fn ends_with_body_marker(text: Seq<char>) -> bool {
    text.len() > 0 && (text.last() == '{' || text.last() == ':' || text.last() == '=')
}

/// `a` stands before `b`, or is `b`, in the order of a dictionary: the
/// characters are compared one by one, by code point, and a text stands
/// before the texts that it begins.
pub open spec fn text_le(a: Seq<char>, b: Seq<char>) -> bool
    decreases a.len(),
{
    if a.len() == 0 {
        true
    } else if b.len() == 0 {
        false
    } else if a[0] == b[0] {
        text_le(a.skip(1), b.skip(1))
    } else {
        a[0] < b[0]
    }
}

/// What a hit is ranked by.
pub struct Rank {
    /// How far the matched text is indented.
    pub indent: nat,
    /// In a function search, whether the matched text ends with a body
    /// marker. Elsewhere `false`.
    pub has_body: bool,
    /// The file that the match is in.
    pub filename: Seq<char>,
    /// The line of the match, zero for a hit without one.
    pub line: u64,
}

/// What `hit` is ranked by in a search of mode `mode`.
pub open spec fn rank(hit: HitView, mode: SearchMode) -> Rank {
    Rank {
        indent: indent(hit.text),
        has_body: mode == SearchMode::Function && ends_with_body_marker(hit.text),
        filename: hit.filename,
        line: match hit.line {
            Some(line) => line,
            None => 0,
        },
    }
}

/// `a` ranks before `b` or as `b` does. The less indented hit comes first;
/// of two hits with the same indent, the one without a body marker; of two
/// that agree in that too, the one whose file name stands first; and last
/// the one with the lower line.
pub open spec fn rank_le(a: Rank, b: Rank) -> bool {
    if a.indent != b.indent {
        a.indent < b.indent
    } else if a.has_body != b.has_body {
        !a.has_body
    } else if a.filename != b.filename {
        text_le(a.filename, b.filename)
    } else {
        a.line <= b.line
    }
}

/// Of two texts one stands before the other, or they are the same.
pub proof fn lemma_text_le_total(a: Seq<char>, b: Seq<char>)
    ensures
        text_le(a, b) || text_le(b, a),
    decreases a.len(),
{
    if a.len() > 0 && b.len() > 0 && a[0] == b[0] {
        lemma_text_le_total(a.skip(1), b.skip(1));
    }
}

/// Two texts that each stand before or at the other are the same text.
pub proof fn lemma_text_le_antisymmetric(a: Seq<char>, b: Seq<char>)
    requires
        text_le(a, b),
        text_le(b, a),
    ensures
        a == b,
    decreases a.len(),
{
    if a.len() > 0 && b.len() > 0 {
        lemma_text_le_antisymmetric(a.skip(1), b.skip(1));
        assert(a =~= seq![a[0]] + a.skip(1));
    }
}

/// The order of texts is transitive.
pub proof fn lemma_text_le_transitive(a: Seq<char>, b: Seq<char>, c: Seq<char>)
    requires
        text_le(a, b),
        text_le(b, c),
    ensures
        text_le(a, c),
    decreases a.len(),
{
    if a.len() > 0 && b.len() > 0 && c.len() > 0 && a[0] == b[0] && b[0] == c[0] {
        lemma_text_le_transitive(a.skip(1), b.skip(1), c.skip(1));
    }
}

/// Of two ranks one comes before the other, or they rank alike.
pub proof fn lemma_rank_le_total(a: Rank, b: Rank)
    ensures
        rank_le(a, b) || rank_le(b, a),
{
    lemma_text_le_total(a.filename, b.filename);
}

/// The order of ranks is transitive.
pub proof fn lemma_rank_le_transitive(a: Rank, b: Rank, c: Rank)
    requires
        rank_le(a, b),
        rank_le(b, c),
    ensures
        rank_le(a, c),
{
    if a.indent == b.indent && b.indent == c.indent && a.has_body == b.has_body && b.has_body
        == c.has_body {
        if a.filename != b.filename && b.filename != c.filename {
            lemma_text_le_transitive(a.filename, b.filename, c.filename);
            if a.filename == c.filename {
                lemma_text_le_antisymmetric(a.filename, b.filename);
            }
        }
    }
}

/// Two ranks that each come before or at the other are the same rank.
pub proof fn lemma_rank_le_antisymmetric(a: Rank, b: Rank)
    requires
        rank_le(a, b),
        rank_le(b, a),
    ensures
        a == b,
{
    if a.filename != b.filename {
        lemma_text_le_antisymmetric(a.filename, b.filename);
    }
}

/// What each of the hits holds.
pub open spec fn views(hits: Seq<Hit>) -> Seq<HitView> {
    hits.map_values(|hit: Hit| hit@)
}

/// Whether each hit of `hits` ranks before or as the hits after it.
pub open spec fn is_ranked(hits: Seq<HitView>, mode: SearchMode) -> bool {
    forall|i: int, j: int|
        0 <= i <= j < hits.len() ==> rank_le(rank(#[trigger] hits[i], mode), rank(
            #[trigger] hits[j],
            mode,
        ))
}

/// The hits of `hits` that rank as `k`, in the order in which they stand.
pub open spec fn with_rank(hits: Seq<HitView>, mode: SearchMode, k: Rank) -> Seq<HitView> {
    hits.filter(|hit: HitView| rank(hit, mode) == k)
}

/// Whether `ranked` is `hits` in ranked order: it is ranked, it holds the
/// hits of `hits` and no others, and hits that rank alike stand in it as
/// they stood in `hits`.
pub open spec fn is_ranking_of(ranked: Seq<HitView>, hits: Seq<HitView>, mode: SearchMode) -> bool {
    &&& is_ranked(ranked, mode)
    &&& forall|k: Rank| #[trigger] with_rank(ranked, mode, k) == with_rank(hits, mode, k)
}

/// How one text stands to another.
enum TextOrder {
    Before,
    Same,
    After,
}

/// Compares two texts in the order of a dictionary.
fn compare_texts(a: &[char], b: &[char]) -> (res: TextOrder)
    ensures
        match res {
            TextOrder::Before => a@ != b@ && text_le(a@, b@),
            TextOrder::Same => a@ == b@,
            TextOrder::After => a@ != b@ && !text_le(a@, b@),
        },
{
    let mut i: usize = 0;
    assert(a@.skip(0) == a@ && b@.skip(0) == b@);
    while i < a.len() && i < b.len()
        invariant
            i <= a.len(),
            i <= b.len(),
            forall|j: int| 0 <= j < i ==> a@[j] == b@[j],
            text_le(a@, b@) == text_le(a@.skip(i as int), b@.skip(i as int)),
        decreases a.len() - i,
    {
        assert(a@.skip(i as int).skip(1) == a@.skip(i + 1));
        assert(b@.skip(i as int).skip(1) == b@.skip(i + 1));
        if a[i] != b[i] {
            return if a[i] < b[i] {
                TextOrder::Before
            } else {
                TextOrder::After
            };
        }
        i += 1;
    }
    if i < b.len() {
        TextOrder::Before
    } else if i < a.len() {
        TextOrder::After
    } else {
        proof {
            lemma_text_le_total(a@, b@);
        }
        TextOrder::Same
    }
}

/// The number of spaces and tabs that `text` begins with.
fn count_indent(text: &[char]) -> (n: usize)
    ensures
        n == indent(text@),
{
    let mut n: usize = 0;
    assert(text@.skip(0) == text@);
    while n < text.len() && (text[n] == ' ' || text[n] == '\t')
        invariant
            n <= text.len(),
            indent(text@) == n + indent(text@.skip(n as int)),
        decreases text.len() - n,
    {
        assert(text@.skip(n as int).skip(1) == text@.skip(n + 1));
        n += 1;
    }
    n
}

/// Whether `text` ends with `{`, `:` or `=`.
fn has_body_marker(text: &[char]) -> (res: bool)
    ensures
        res == ends_with_body_marker(text@),
{
    if text.len() == 0 {
        false
    } else {
        let last = text[text.len() - 1];
        last == '{' || last == ':' || last == '='
    }
}

/// A hit together with what it is ranked by, worked out once.
struct Entry {
    indent: usize,
    has_body: bool,
    filename: Vec<char>,
    line: u64,
    hit: Hit,
}

impl Entry {
    /// What the entry's hit is ranked by.
    spec fn rank(self, mode: SearchMode) -> Rank {
        rank(self.hit@, mode)
    }

    /// Whether the entry holds the rank of its hit.
    spec fn agrees(self, mode: SearchMode) -> bool {
        &&& self.indent == self.rank(mode).indent
        &&& self.has_body == self.rank(mode).has_body
        &&& self.filename@ == self.rank(mode).filename
        &&& self.line == self.rank(mode).line
    }

    /// Works out what `hit` is ranked by.
    fn new(hit: Hit, mode: &SearchMode) -> (entry: Entry)
        ensures
            entry.hit == hit,
            entry.agrees(*mode),
    {
        let text = chars_of(hit.text.as_str());
        let has_body = match mode {
            SearchMode::Function => has_body_marker(text.as_slice()),
            _ => false,
        };
        let line = match hit.line {
            Some(line) => line,
            None => 0,
        };
        Entry {
            indent: count_indent(text.as_slice()),
            has_body,
            filename: chars_of(hit.filename.as_str()),
            line,
            hit,
        }
    }

    /// Whether `self` ranks before `other` or as `other` does.
    fn ranks_le(&self, other: &Entry, mode: &SearchMode) -> (res: bool)
        requires
            self.agrees(*mode),
            other.agrees(*mode),
        ensures
            res == rank_le(self.rank(*mode), other.rank(*mode)),
    {
        if self.indent != other.indent {
            self.indent < other.indent
        } else if self.has_body != other.has_body {
            !self.has_body
        } else {
            match compare_texts(self.filename.as_slice(), other.filename.as_slice()) {
                TextOrder::Before => true,
                TextOrder::After => false,
                TextOrder::Same => self.line <= other.line,
            }
        }
    }
}

/// Whether each entry holds the rank of its hit.
spec fn all_agree(entries: Seq<Entry>, mode: SearchMode) -> bool {
    forall|i: int| 0 <= i < entries.len() ==> (#[trigger] entries[i]).agrees(mode)
}

/// Whether each entry ranks before or as the entries after it.
spec fn ascending(entries: Seq<Entry>, mode: SearchMode) -> bool {
    forall|i: int, j: int|
        0 <= i <= j < entries.len() ==> rank_le(
            (#[trigger] entries[i]).rank(mode),
            (#[trigger] entries[j]).rank(mode),
        )
}

/// Whether each entry ranks after or as the entries after it.
spec fn descending(entries: Seq<Entry>, mode: SearchMode) -> bool {
    forall|i: int, j: int|
        0 <= i <= j < entries.len() ==> rank_le(
            (#[trigger] entries[j]).rank(mode),
            (#[trigger] entries[i]).rank(mode),
        )
}

/// Whether each entry of `low` ranks before or as each entry of `high`.
spec fn all_le(low: Seq<Entry>, high: Seq<Entry>, mode: SearchMode) -> bool {
    forall|i: int, j: int|
        0 <= i < low.len() && 0 <= j < high.len() ==> rank_le(
            (#[trigger] low[i]).rank(mode),
            (#[trigger] high[j]).rank(mode),
        )
}

/// The entries that rank as `k`, in the order in which they stand.
spec fn entries_with_rank(entries: Seq<Entry>, mode: SearchMode, k: Rank) -> Seq<Entry> {
    entries.filter(|entry: Entry| entry.rank(mode) == k)
}

/// The entries from the last to the first.
fn reversed(entries: Vec<Entry>) -> (out: Vec<Entry>)
    ensures
        out@ == entries@.reverse(),
{
    let mut entries = entries;
    let ghost all = entries@;
    let mut out: Vec<Entry> = Vec::new();
    while entries.len() > 0
        invariant
            entries@.len() + out@.len() == all.len(),
            entries@ == all.take(entries@.len() as int),
            forall|i: int| 0 <= i < out@.len() ==> out@[i] == all[all.len() - 1 - i],
        decreases entries.len(),
    {
        let last = entries.pop().unwrap();
        out.push(last);
    }
    out
}

/// An entry that ranks above every entry of `entries` does not rank as any
/// of them.
proof fn lemma_none_with_rank(entries: Seq<Entry>, mode: SearchMode, k: Rank)
    requires
        forall|i: int| 0 <= i < entries.len() ==> (#[trigger] entries[i]).rank(mode) != k,
    ensures
        entries_with_rank(entries, mode, k) == Seq::<Entry>::empty(),
{
    let pred = |entry: Entry| entry.rank(mode) == k;
    entries.lemma_all_neg_filter_empty(pred);
}

/// What moving the last entry of `from` to the front of the merged tail does
/// to the entries of one rank.
proof fn lemma_move_last(from: Seq<Entry>, tail: Seq<Entry>, mode: SearchMode, k: Rank)
    requires
        from.len() > 0,
    ensures
        entries_with_rank(from, mode, k) == entries_with_rank(from.drop_last(), mode, k) + (
        if from.last().rank(mode) == k {
            seq![from.last()]
        } else {
            Seq::empty()
        }),
        entries_with_rank(seq![from.last()] + tail, mode, k) == (if from.last().rank(mode) == k {
            seq![from.last()]
        } else {
            Seq::empty()
        }) + entries_with_rank(tail, mode, k),
{
    let pred = |entry: Entry| entry.rank(mode) == k;
    assert(from == from.drop_last().push(from.last()));
    from.drop_last().lemma_filter_push(from.last(), pred);
    tail.lemma_filter_prepend(from.last(), pred);
}

/// What holds while two ranked runs are merged from their ends: `left` and
/// `right` are what is left of the runs, `back` holds the entries taken so
/// far, the last one first.
spec fn merging(
    left: Seq<Entry>,
    right: Seq<Entry>,
    back: Seq<Entry>,
    whole_left: Seq<Entry>,
    whole_right: Seq<Entry>,
    mode: SearchMode,
) -> bool {
    &&& left.len() + right.len() + back.len() == whole_left.len() + whole_right.len()
    &&& all_agree(left, mode)
    &&& all_agree(right, mode)
    &&& all_agree(back, mode)
    &&& ascending(left, mode)
    &&& ascending(right, mode)
    &&& descending(back, mode)
    &&& all_le(left, back, mode)
    &&& all_le(right, back, mode)
    &&& forall|k: Rank|
        #[trigger] entries_with_rank(left, mode, k) + entries_with_rank(right, mode, k)
            + entries_with_rank(back.reverse(), mode, k) == entries_with_rank(
            whole_left,
            mode,
            k,
        ) + entries_with_rank(whole_right, mode, k)
}

/// Taking the last entry of a run keeps the taken entries in order, and
/// what is left of the run before them.
proof fn lemma_take_keeps_order(
    from: Seq<Entry>,
    other: Seq<Entry>,
    back: Seq<Entry>,
    mode: SearchMode,
)
    requires
        from.len() > 0,
        ascending(from, mode),
        ascending(other, mode),
        descending(back, mode),
        all_le(from, back, mode),
        all_le(other, back, mode),
        other.len() > 0 ==> rank_le(other.last().rank(mode), from.last().rank(mode)),
    ensures
        ascending(from.drop_last(), mode),
        descending(back.push(from.last()), mode),
        all_le(from.drop_last(), back.push(from.last()), mode),
        all_le(other, back.push(from.last()), mode),
{
    let taken = from.last();
    let rest = from.drop_last();
    let grown = back.push(taken);
    assert forall|i: int, j: int| 0 <= i <= j < rest.len() implies rank_le(
        (#[trigger] rest[i]).rank(mode),
        (#[trigger] rest[j]).rank(mode),
    ) by {}
    assert forall|i: int, j: int| 0 <= i <= j < grown.len() implies rank_le(
        (#[trigger] grown[j]).rank(mode),
        (#[trigger] grown[i]).rank(mode),
    ) by {
        if j == back.len() && i < back.len() {
            assert(grown[i] == back[i]);
        } else if i == back.len() {
            lemma_rank_le_total(taken.rank(mode), taken.rank(mode));
        }
    }
    assert forall|i: int, j: int| 0 <= i < rest.len() && 0 <= j < grown.len() implies rank_le(
        (#[trigger] rest[i]).rank(mode),
        (#[trigger] grown[j]).rank(mode),
    ) by {}
    assert forall|i: int, j: int| 0 <= i < other.len() && 0 <= j < grown.len() implies rank_le(
        (#[trigger] other[i]).rank(mode),
        (#[trigger] grown[j]).rank(mode),
    ) by {
        if j == back.len() {
            lemma_rank_le_transitive(
                other[i].rank(mode),
                other.last().rank(mode),
                taken.rank(mode),
            );
        }
    }
}

/// Taking the last entry of the right run keeps what holds while merging.
/// It is taken when the last entry of the left run ranks before it or as it
/// does.
proof fn lemma_merge_from_right(
    left: Seq<Entry>,
    right: Seq<Entry>,
    back: Seq<Entry>,
    whole_left: Seq<Entry>,
    whole_right: Seq<Entry>,
    mode: SearchMode,
)
    requires
        merging(left, right, back, whole_left, whole_right, mode),
        right.len() > 0,
        left.len() > 0 ==> rank_le(left.last().rank(mode), right.last().rank(mode)),
    ensures
        merging(left, right.drop_last(), back.push(right.last()), whole_left, whole_right, mode),
{
    let taken = right.last();
    let rest = right.drop_last();
    let grown = back.push(taken);
    lemma_take_keeps_order(right, left, back, mode);
    assert forall|i: int| 0 <= i < rest.len() implies (#[trigger] rest[i]).agrees(mode) by {}
    assert forall|i: int| 0 <= i < grown.len() implies (#[trigger] grown[i]).agrees(mode) by {}
    assert(grown.reverse() =~= seq![taken] + back.reverse());
    assert forall|k: Rank|
        #[trigger] entries_with_rank(left, mode, k) + entries_with_rank(rest, mode, k)
            + entries_with_rank(grown.reverse(), mode, k) == entries_with_rank(
            whole_left,
            mode,
            k,
        ) + entries_with_rank(whole_right, mode, k) by {
        lemma_move_last(right, back.reverse(), mode, k);
    }
}

/// Taking the last entry of the left run keeps what holds while merging.
/// It is taken when it ranks after the last entry of the right run.
proof fn lemma_merge_from_left(
    left: Seq<Entry>,
    right: Seq<Entry>,
    back: Seq<Entry>,
    whole_left: Seq<Entry>,
    whole_right: Seq<Entry>,
    mode: SearchMode,
)
    requires
        merging(left, right, back, whole_left, whole_right, mode),
        left.len() > 0,
        right.len() > 0 ==> !rank_le(left.last().rank(mode), right.last().rank(mode)),
    ensures
        merging(left.drop_last(), right, back.push(left.last()), whole_left, whole_right, mode),
{
    let taken = left.last();
    let rest = left.drop_last();
    let grown = back.push(taken);
    if right.len() > 0 {
        lemma_rank_le_total(taken.rank(mode), right.last().rank(mode));
    }
    lemma_take_keeps_order(left, right, back, mode);
    assert forall|i: int| 0 <= i < rest.len() implies (#[trigger] rest[i]).agrees(mode) by {}
    assert forall|i: int| 0 <= i < grown.len() implies (#[trigger] grown[i]).agrees(mode) by {}
    assert(grown.reverse() =~= seq![taken] + back.reverse());
    assert forall|k: Rank|
        #[trigger] entries_with_rank(rest, mode, k) + entries_with_rank(right, mode, k)
            + entries_with_rank(grown.reverse(), mode, k) == entries_with_rank(
            whole_left,
            mode,
            k,
        ) + entries_with_rank(whole_right, mode, k) by {
        lemma_move_last(left, back.reverse(), mode, k);
        if taken.rank(mode) == k {
            assert forall|i: int| 0 <= i < right.len() implies (#[trigger] right[i]).rank(mode)
                != k by {}
            lemma_none_with_rank(right, mode, k);
        }
    }
}

/// Merges two ranked runs into one. Entries that rank alike keep their
/// order, those of `left` before those of `right`.
fn merge(left: Vec<Entry>, right: Vec<Entry>, mode: &SearchMode) -> (out: Vec<Entry>)
    requires
        all_agree(left@, *mode),
        all_agree(right@, *mode),
        ascending(left@, *mode),
        ascending(right@, *mode),
    ensures
        out@.len() == left@.len() + right@.len(),
        all_agree(out@, *mode),
        ascending(out@, *mode),
        forall|k: Rank|
            #[trigger] entries_with_rank(out@, *mode, k) == entries_with_rank(left@, *mode, k)
                + entries_with_rank(right@, *mode, k),
{
    let ghost whole_left = left@;
    let ghost whole_right = right@;
    let mut left = left;
    let mut right = right;
    let mut back: Vec<Entry> = Vec::new();
    proof {
        assert forall|k: Rank|
            #[trigger] entries_with_rank(left@, *mode, k) + entries_with_rank(right@, *mode, k)
                + entries_with_rank(back@.reverse(), *mode, k) == entries_with_rank(
                whole_left,
                *mode,
                k,
            ) + entries_with_rank(whole_right, *mode, k) by {
            lemma_none_with_rank(back@.reverse(), *mode, k);
        }
    }
    while left.len() > 0 || right.len() > 0
        invariant
            merging(left@, right@, back@, whole_left, whole_right, *mode),
        decreases left.len() + right.len(),
    {
        let from_right = if left.len() == 0 {
            true
        } else if right.len() == 0 {
            false
        } else {
            left[left.len() - 1].ranks_le(&right[right.len() - 1], mode)
        };
        if from_right {
            proof {
                lemma_merge_from_right(left@, right@, back@, whole_left, whole_right, *mode);
            }
            let entry = right.pop().unwrap();
            back.push(entry);
        } else {
            proof {
                lemma_merge_from_left(left@, right@, back@, whole_left, whole_right, *mode);
            }
            let entry = left.pop().unwrap();
            back.push(entry);
        }
    }
    let out = reversed(back);
    proof {
        assert forall|i: int, j: int| 0 <= i <= j < out@.len() implies rank_le(
            (#[trigger] out@[i]).rank(*mode),
            (#[trigger] out@[j]).rank(*mode),
        ) by {}
        assert forall|i: int| 0 <= i < out@.len() implies (#[trigger] out@[i]).agrees(*mode) by {}
        assert forall|k: Rank|
            #[trigger] entries_with_rank(out@, *mode, k) == entries_with_rank(
                whole_left,
                *mode,
                k,
            ) + entries_with_rank(whole_right, *mode, k) by {
            lemma_none_with_rank(left@, *mode, k);
            lemma_none_with_rank(right@, *mode, k);
        }
    }
    out
}

/// Sorts entries by rank. Entries that rank alike keep their order.
fn merge_sort(entries: Vec<Entry>, mode: &SearchMode) -> (out: Vec<Entry>)
    requires
        all_agree(entries@, *mode),
    ensures
        out@.len() == entries@.len(),
        all_agree(out@, *mode),
        ascending(out@, *mode),
        forall|k: Rank|
            #[trigger] entries_with_rank(out@, *mode, k) == entries_with_rank(entries@, *mode, k),
    decreases entries@.len(),
{
    if entries.len() <= 1 {
        return entries;
    }
    let ghost whole = entries@;
    let mut left = entries;
    let right = left.split_off(left.len() / 2);
    assert(whole == left@ + right@);
    let ghost halves = (left@, right@);
    let left = merge_sort(left, mode);
    let right = merge_sort(right, mode);
    let out = merge(left, right, mode);
    assert forall|k: Rank|
        #[trigger] entries_with_rank(out@, *mode, k) == entries_with_rank(whole, *mode, k) by {
        Seq::filter_distributes_over_add(
            halves.0,
            halves.1,
            |entry: Entry| entry.rank(*mode) == k,
        );
    }
    out
}

/// What each of the entries' hits holds.
spec fn entry_views(entries: Seq<Entry>) -> Seq<HitView> {
    entries.map_values(|entry: Entry| entry.hit@)
}

/// The hits that rank as `k` are the hits of the entries that rank as `k`.
proof fn lemma_with_rank_of_entries(entries: Seq<Entry>, mode: SearchMode, k: Rank)
    ensures
        with_rank(entry_views(entries), mode, k) == entry_views(
            entries_with_rank(entries, mode, k),
        ),
    decreases entries.len(),
{
    let of_hit = |hit: HitView| rank(hit, mode) == k;
    let of_entry = |entry: Entry| entry.rank(mode) == k;
    if entries.len() == 0 {
        lemma_none_with_rank(entries, mode, k);
        entry_views(entries).lemma_all_neg_filter_empty(of_hit);
    } else {
        let front = entries.drop_last();
        let last = entries.last();
        lemma_with_rank_of_entries(front, mode, k);
        assert(entries == front.push(last));
        assert(entry_views(entries) =~= entry_views(front).push(last.hit@));
        front.lemma_filter_push(last, of_entry);
        entry_views(front).lemma_filter_push(last.hit@, of_hit);
    }
}

/// Sorts hits so that the most likely ones come first: the less indented
/// ones, as definitions at the top level matter most; in a function search
/// those that do not end with a body marker; then by file name and by line.
/// Hits that rank alike stay in the order in which they were.
pub fn sort_hits(hits: &mut Vec<Hit>, mode: &SearchMode)
    ensures
        final(hits)@.len() == old(hits)@.len(),
        is_ranking_of(views(final(hits)@), views(old(hits)@), *mode),
{
    let ghost input = hits@;
    let mut pending: Vec<Entry> = Vec::new();
    while hits.len() > 0
        invariant
            hits@.len() + pending@.len() == input.len(),
            hits@ == input.take(hits@.len() as int),
            all_agree(pending@, *mode),
            forall|i: int|
                0 <= i < pending@.len() ==> (#[trigger] pending@[i]).hit == input[input.len() - 1
                    - i],
        decreases hits.len(),
    {
        let hit = hits.pop().unwrap();
        pending.push(Entry::new(hit, mode));
    }
    let entries = reversed(pending);
    assert(entry_views(entries@) =~= views(input));
    let sorted = merge_sort(entries, mode);
    let mut back = reversed(sorted);
    while back.len() > 0
        invariant
            hits@.len() + back@.len() == sorted@.len(),
            back@ == sorted@.reverse().take(back@.len() as int),
            forall|i: int| 0 <= i < hits@.len() ==> (#[trigger] hits@[i]) == sorted@[i].hit,
        decreases back.len(),
    {
        let entry = back.pop().unwrap();
        hits.push(entry.hit);
    }
    assert(views(hits@) =~= entry_views(sorted@));
    assert forall|k: Rank| #[trigger]
        with_rank(views(hits@), *mode, k) == with_rank(views(input), *mode, k) by {
        lemma_with_rank_of_entries(sorted@, *mode, k);
        lemma_with_rank_of_entries(entries@, *mode, k);
    }
    assert forall|i: int, j: int| 0 <= i <= j < hits@.len() implies rank_le(
        rank(#[trigger] views(hits@)[i], *mode),
        rank(#[trigger] views(hits@)[j], *mode),
    ) by {}
}

/// In ranked hits a less indented hit stands before a more indented one.
pub proof fn lemma_less_indented_first(hits: Seq<HitView>, mode: SearchMode, i: int, j: int)
    requires
        is_ranked(hits, mode),
        0 <= i < hits.len(),
        0 <= j < hits.len(),
        indent(hits[i].text) < indent(hits[j].text),
    ensures
        i < j,
{
}

/// In the ranked hits of a function search, of two hits with the same
/// indent the one that does not end with a body marker stands before the
/// one that does.
pub proof fn lemma_without_body_first(hits: Seq<HitView>, i: int, j: int)
    requires
        is_ranked(hits, SearchMode::Function),
        0 <= i < hits.len(),
        0 <= j < hits.len(),
        indent(hits[i].text) == indent(hits[j].text),
        !ends_with_body_marker(hits[i].text),
        ends_with_body_marker(hits[j].text),
    ensures
        i < j,
{
}

/// The first hit of a sequence is the first of the hits that rank as it
/// does.
proof fn lemma_first_with_rank(hits: Seq<HitView>, mode: SearchMode, k: Rank)
    requires
        hits.len() > 0,
    ensures
        with_rank(hits, mode, k) == (if rank(hits[0], mode) == k {
            seq![hits[0]]
        } else {
            Seq::empty()
        }) + with_rank(hits.skip(1), mode, k),
{
    assert(hits == seq![hits[0]] + hits.skip(1));
    hits.skip(1).lemma_filter_prepend(hits[0], |hit: HitView| rank(hit, mode) == k);
}

/// A hit that stands among those of one rank stands among the hits.
proof fn lemma_with_rank_within(hits: Seq<HitView>, mode: SearchMode, k: Rank, hit: HitView) -> (i:
    int)
    requires
        with_rank(hits, mode, k).contains(hit),
    ensures
        0 <= i < hits.len(),
        hits[i] == hit,
{
    hits.lemma_filter_contains_rev(|hit: HitView| rank(hit, mode) == k, hit);
    choose|i: int| 0 <= i < hits.len() && hits[i] == hit
}

/// A ranking of hits holds no hit that is not among the hits.
pub proof fn lemma_ranked_hit_is_hit(
    ranked: Seq<HitView>,
    hits: Seq<HitView>,
    mode: SearchMode,
    i: int,
) -> (j: int)
    requires
        is_ranking_of(ranked, hits, mode),
        0 <= i < ranked.len(),
    ensures
        0 <= j < hits.len(),
        hits[j] == ranked[i],
{
    let k = rank(ranked[i], mode);
    ranked.lemma_filter_contains(|hit: HitView| rank(hit, mode) == k, i);
    assert(with_rank(ranked, mode, k) == with_rank(hits, mode, k));
    lemma_with_rank_within(hits, mode, k, ranked[i])
}

/// Two ranked sequences that hold the same hits of each rank, in the same
/// order, are the same sequence.
pub proof fn lemma_ranked_alike(a: Seq<HitView>, b: Seq<HitView>, mode: SearchMode)
    requires
        is_ranked(a, mode),
        is_ranked(b, mode),
        forall|k: Rank| #[trigger] with_rank(a, mode, k) == with_rank(b, mode, k),
    ensures
        a == b,
    decreases a.len(),
{
    if a.len() == 0 && b.len() == 0 {
        assert(a =~= b);
    } else if a.len() == 0 {
        let k = rank(b[0], mode);
        lemma_first_with_rank(b, mode, k);
        a.lemma_filter_len(|hit: HitView| rank(hit, mode) == k);
        assert(with_rank(b, mode, k).len() > 0);
        assert(with_rank(a, mode, k) == with_rank(b, mode, k));
    } else {
        let x = a[0];
        let kx = rank(x, mode);
        lemma_first_with_rank(a, mode, kx);
        assert(with_rank(a, mode, kx)[0] == x);
        assert(with_rank(b, mode, kx).len() > 0);
        assert(b.len() > 0) by {
            if b.len() == 0 {
                b.lemma_filter_len(|hit: HitView| rank(hit, mode) == kx);
            }
        }
        let y = b[0];
        let ky = rank(y, mode);
        lemma_first_with_rank(b, mode, ky);
        assert(with_rank(b, mode, ky)[0] == y);
        let p = lemma_with_rank_within(a, mode, ky, y);
        assert(rank_le(rank(a[0], mode), rank(a[p], mode)));
        assert(with_rank(b, mode, kx).contains(x));
        let q = lemma_with_rank_within(b, mode, kx, x);
        assert(rank_le(rank(b[0], mode), rank(b[q], mode)));
        lemma_rank_le_antisymmetric(kx, ky);
        assert(x == y);
        assert forall|k: Rank| #[trigger]
            with_rank(a.skip(1), mode, k) == with_rank(b.skip(1), mode, k) by {
            lemma_first_with_rank(a, mode, k);
            lemma_first_with_rank(b, mode, k);
            assert(with_rank(a, mode, k) == with_rank(b, mode, k));
            if kx == k {
                assert(with_rank(a.skip(1), mode, k) =~= with_rank(a, mode, k).skip(1));
                assert(with_rank(b.skip(1), mode, k) =~= with_rank(b, mode, k).skip(1));
            } else {
                assert(with_rank(a.skip(1), mode, k) =~= with_rank(a, mode, k));
                assert(with_rank(b.skip(1), mode, k) =~= with_rank(b, mode, k));
            }
        }
        assert(is_ranked(a.skip(1), mode)) by {
            assert forall|i: int, j: int| 0 <= i <= j < a.skip(1).len() implies rank_le(
                rank(#[trigger] a.skip(1)[i], mode),
                rank(#[trigger] a.skip(1)[j], mode),
            ) by {
                assert(a.skip(1)[i] == a[i + 1] && a.skip(1)[j] == a[j + 1]);
            }
        }
        assert(is_ranked(b.skip(1), mode)) by {
            assert forall|i: int, j: int| 0 <= i <= j < b.skip(1).len() implies rank_le(
                rank(#[trigger] b.skip(1)[i], mode),
                rank(#[trigger] b.skip(1)[j], mode),
            ) by {
                assert(b.skip(1)[i] == b[i + 1] && b.skip(1)[j] == b[j + 1]);
            }
        }
        lemma_ranked_alike(a.skip(1), b.skip(1), mode);
        assert(a =~= seq![x] + a.skip(1));
        assert(b =~= seq![y] + b.skip(1));
    }
}

/// Hits have one ranking: whatever is a ranking of them is the same
/// sequence.
pub proof fn lemma_ranking_is_unique(
    a: Seq<HitView>,
    b: Seq<HitView>,
    hits: Seq<HitView>,
    mode: SearchMode,
)
    requires
        is_ranking_of(a, hits, mode),
        is_ranking_of(b, hits, mode),
    ensures
        a == b,
{
    assert forall|k: Rank| #[trigger] with_rank(a, mode, k) == with_rank(b, mode, k) by {}
    lemma_ranked_alike(a, b, mode);
}

} // verus!
