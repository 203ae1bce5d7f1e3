//! Abbreviations: `\name` in a Lean document stands for a symbol.
use vstd::prelude::*;
use vstd::seq_lib::{to_multiset_build, to_multiset_insert, to_multiset_len};
use vstd::utf8::{encode_utf8, is_char_boundary};
use crate::offsets::{byte_offset, byte_to_char_idx, char_to_byte_idx, lemma_offsets_increase};
use crate::platform::is_white_space;
use crate::text::{
    chars_of, law_trim_takes_what_is_around, lemma_trim_start, lines, lines_of, stands_in,
    starts_with, string_of, texts, trim, trim_end, trim_start, trimmed,
};
use crate::views::viewed;

verus! {

/// `\input` stands for `replacement`.
#[derive(Debug, PartialEq, Eq)]
pub struct Abbreviation {
    pub input: String,
    pub replacement: String,
}

/// The characters `start..end` of a document are to be replaced.
#[derive(Debug, PartialEq, Eq)]
pub struct Expansion {
    pub start: usize,
    pub end: usize,
    pub replacement: String,
}

/// The mathematical value of an [`Abbreviation`].
pub struct Entry {
    pub input: Seq<char>,
    pub replacement: Seq<char>,
}

/// The mathematical value of an [`Expansion`].
pub struct Change {
    pub start: int,
    pub end: int,
    pub replacement: Seq<char>,
}

impl View for Abbreviation {
    type V = Entry;

    open spec fn view(&self) -> Entry {
        Entry { input: self.input@, replacement: self.replacement@ }
    }
}

impl View for Expansion {
    type V = Change;

    open spec fn view(&self) -> Change {
        Change { start: self.start as int, end: self.end as int, replacement: self.replacement@ }
    }
}

/// All entries: first the one by which a backslash stands for itself, then those of the table.
pub open spec fn entries(table: Seq<Abbreviation>) -> Seq<Entry> {
    seq![Entry { input: seq!['\\'], replacement: seq!['\\'] }] + table.map_values(
        |abbreviation: Abbreviation| abbreviation@,
    )
}

/// Whether entry `m` abbreviates the start of `input`.
pub open spec fn applies(all: Seq<Entry>, input: Seq<char>, m: int) -> bool {
    0 <= m < all.len() && all[m].input.is_prefix_of(input)
}

/// Whether entry `m` is the one to take for `input`: no other that applies is longer, and none
/// before it is as long.
pub open spec fn is_best(all: Seq<Entry>, input: Seq<char>, m: int) -> bool {
    &&& applies(all, input, m)
    &&& forall|k: int| #[trigger]
        applies(all, input, k) ==> all[k].input.len() < all[m].input.len() || (all[k].input.len()
            == all[m].input.len() && m <= k)
}

/// The entry to take for `input`.
pub open spec fn best(all: Seq<Entry>, input: Seq<char>) -> Option<int> {
    if exists|m: int| is_best(all, input, m) {
        Some(choose|m: int| is_best(all, input, m))
    } else {
        None
    }
}

/// `segment` with its abbreviations expanded, from left to right.
pub open spec fn expand(all: Seq<Entry>, segment: Seq<char>) -> Seq<char>
    decreases segment.len(),
{
    if segment.len() == 0 {
        Seq::empty()
    } else if segment[0] != '\\' {
        seq![segment[0]] + expand(all, segment.skip(1))
    } else {
        match best(all, segment.skip(1)) {
            Some(m) => all[m].replacement + expand(
                all,
                segment.skip((1 + all[m].input.len()) as int),
            ),
            None => seq!['\\'] + expand(all, segment.skip(1)),
        }
    }
}

/// Where the token that ends at `cursor` starts.
pub open spec fn token_start(text: Seq<char>, cursor: int) -> int
    decreases cursor,
{
    if cursor <= 0 || is_white_space(text[cursor - 1]) {
        cursor
    } else {
        token_start(text, cursor - 1)
    }
}

/// The change that expands the token that ends at `cursor`, where there is anything to expand.
pub open spec fn expansion_at(all: Seq<Entry>, text: Seq<char>, cursor: int) -> Option<Change> {
    let start = token_start(text, cursor);
    let segment = text.subrange(start, cursor);
    let replacement = expand(all, segment);
    if replacement == segment {
        None
    } else {
        Some(Change { start, end: cursor, replacement })
    }
}

/// What a literal holds whose inside starts at `from`, and where it ends: a double quote ends it,
/// and a backslash stands for the character after it.
pub open spec fn literal(text: Seq<char>, from: int) -> Option<(Seq<char>, int)>
    decreases text.len() - from,
{
    if from >= text.len() {
        None
    } else if text[from] == '"' {
        Some((Seq::empty(), from + 1))
    } else if text[from] == '\\' {
        if from + 1 >= text.len() {
            None
        } else {
            match literal(text, from + 2) {
                Some((rest, end)) => Some((seq![text[from + 1]] + rest, end)),
                None => None,
            }
        }
    } else {
        match literal(text, from + 1) {
            Some((rest, end)) => Some((seq![text[from]] + rest, end)),
            None => None,
        }
    }
}

/// What the literal holds that opens at `at`, and where it ends.
pub open spec fn literal_at(text: Seq<char>, at: int) -> Option<(Seq<char>, int)> {
    if at < text.len() && text[at] == '"' {
        literal(text, at + 1)
    } else {
        None
    }
}

/// The first double quote from `from` on.
pub open spec fn quote_from(text: Seq<char>, from: int) -> Option<int>
    decreases text.len() - from,
{
    if from >= text.len() {
        None
    } else if text[from] == '"' {
        Some(from)
    } else {
        quote_from(text, from + 1)
    }
}

/// What the first literal from `from` on holds, and where it ends.
pub open spec fn literal_from(text: Seq<char>, from: int) -> Option<(Seq<char>, int)> {
    match quote_from(text, from) {
        Some(quote) => literal_at(text, quote),
        None => None,
    }
}

/// The entry on a line of the form `(list "input" "replacement")`.
pub open spec fn entry_on(line: Seq<char>) -> Option<Entry> {
    let text = trim(line);
    if "(list "@.is_prefix_of(text) {
        match literal_from(text, 0) {
            Some((input, end)) => match literal_from(text, end) {
                Some((replacement, _)) => Some(Entry { input, replacement }),
                None => None,
            },
            None => None,
        }
    } else {
        None
    }
}

/// The entries on the lines that hold one.
pub open spec fn entries_on(data: Seq<Seq<char>>) -> Seq<Entry>
    decreases data.len(),
{
    if data.len() == 0 {
        Seq::empty()
    } else {
        match entry_on(data.last()) {
            Some(entry) => entries_on(data.drop_last()).push(entry),
            None => entries_on(data.drop_last()),
        }
    }
}

/// What the literal holds that opens at `at`, and where it ends.
fn scan_literal(chars: &Vec<char>, at: usize) -> (found: Option<(String, usize)>)
    requires
        at <= chars@.len(),
    ensures
        match found {
            Some((held, end)) => literal_at(chars@, at as int) == Some((held@, end as int)) && at
                < end <= chars@.len(),
            None => literal_at(chars@, at as int) is None,
        },
{
    let total = chars.len();
    if at >= total || chars[at] != '"' {
        return None;
    }
    let mut held = String::new();
    let mut i: usize = at + 1;
    proof {
        if let Some((rest, end)) = literal(chars@, i as int) {
            assert(held@ + rest =~= rest);
        }
    }
    while i < total
        invariant
            at < i <= total,
            total == chars@.len(),
            match literal(chars@, i as int) {
                Some((rest, end)) => literal(chars@, at + 1) == Some((held@ + rest, end)),
                None => literal(chars@, at + 1) is None,
            },
            chars@[at as int] == '"',
        decreases total - i,
    {
        let c = chars[i];
        let ghost before = held@;
        if c == '"' {
            proof {
                assert(held@ + Seq::<char>::empty() =~= held@);
            }
            return Some((held, i + 1));
        }
        if c == '\\' {
            if i + 1 >= total {
                return None;
            }
            held.push(chars[i + 1]);
            proof {
                if let Some((rest, end)) = literal(chars@, i + 2) {
                    assert(before + (seq![chars@[i + 1]] + rest) =~= held@ + rest);
                }
            }
            i += 2;
        } else {
            held.push(c);
            proof {
                if let Some((rest, end)) = literal(chars@, i + 1) {
                    assert(before + (seq![chars@[i as int]] + rest) =~= held@ + rest);
                }
            }
            i += 1;
        }
    }
    None
}

/// The text of the literal that opens at byte `quote_start` of `input`, and the byte after it.
pub fn parse_scheme_string(input: &str, quote_start: usize) -> (found: Option<(String, usize)>)
    requires
        is_char_boundary(encode_utf8(input@), quote_start as int),
    ensures
        forall|at: int|
            0 <= at <= input@.len() && #[trigger] byte_offset(input@, at) == quote_start
                ==> match found {
                Some((held, consumed)) => {
                    &&& literal_at(input@, at) matches Some((text, end))
                    &&& held@ == text
                    &&& consumed == byte_offset(input@, end)
                },
                None => literal_at(input@, at) is None,
            },
{
    let at = byte_to_char_idx(input, quote_start);
    let chars = chars_of(input);
    proof {
        assert forall|other: int|
            0 <= other <= input@.len() && #[trigger] byte_offset(input@, other)
                == quote_start implies other == at by {
            if other < at {
                lemma_offsets_increase(input@, other, at as int);
            } else {
                lemma_offsets_increase(input@, at as int, other);
            }
        }
    }
    match scan_literal(&chars, at) {
        Some((held, end)) => Some((held, char_to_byte_idx(input, end))),
        None => None,
    }
}

/// What the first literal from `from` on holds, and where it ends.
fn scan_from(chars: &Vec<char>, from: usize) -> (found: Option<(String, usize)>)
    requires
        from <= chars@.len(),
    ensures
        match found {
            Some((held, end)) => literal_from(chars@, from as int) == Some((held@, end as int))
                && end <= chars@.len(),
            None => literal_from(chars@, from as int) is None,
        },
{
    let mut i: usize = from;
    while i < chars.len() && chars[i] != '"'
        invariant
            from <= i <= chars@.len(),
            quote_from(chars@, from as int) == quote_from(chars@, i as int),
        decreases chars@.len() - i,
    {
        i += 1;
    }
    if i < chars.len() {
        scan_literal(chars, i)
    } else {
        None
    }
}

/// The entry on a line of the form `(list "input" "replacement")`.
pub fn parse_abbreviation_line(line: &str) -> (found: Option<Abbreviation>)
    ensures
        viewed(found) == entry_on(line@),
{
    let line = trimmed(line);
    if !starts_with(line.as_str(), "(list ") {
        return None;
    }
    let chars = chars_of(line.as_str());
    match scan_from(&chars, 0) {
        Some((input, end)) => match scan_from(&chars, end) {
            Some((replacement, _)) => Some(Abbreviation { input, replacement }),
            None => None,
        },
        None => None,
    }
}

/// The table that `data` holds, one entry to a line.
pub fn parse_abbreviations(data: &str) -> (table: Vec<Abbreviation>)
    ensures
        table@.map_values(|abbreviation: Abbreviation| abbreviation@) == entries_on(lines(data@)),
{
    let rows = lines_of(data);
    let ghost all = texts(rows@);
    let mut table: Vec<Abbreviation> = Vec::new();
    let mut i: usize = 0;
    assert(table@.map_values(|abbreviation: Abbreviation| abbreviation@) =~= entries_on(
        all.take(0),
    ));
    while i < rows.len()
        invariant
            i <= rows@.len(),
            all == texts(rows@),
            table@.map_values(|abbreviation: Abbreviation| abbreviation@) == entries_on(
                all.take(i as int),
            ),
        decreases rows@.len() - i,
    {
        assert(all.take(i + 1).drop_last() =~= all.take(i as int));
        let ghost before = table@.map_values(|abbreviation: Abbreviation| abbreviation@);
        if let Some(abbreviation) = parse_abbreviation_line(rows[i].as_str()) {
            table.push(abbreviation);
            assert(table@.map_values(|abbreviation: Abbreviation| abbreviation@) =~= before.push(
                abbreviation@,
            ));
        }
        i += 1;
    }
    assert(all.take(rows@.len() as int) =~= all);
    table
}

/// At most one entry is the best.
pub proof fn lemma_best_is_unique(all: Seq<Entry>, input: Seq<char>, m: int)
    requires
        is_best(all, input, m),
    ensures
        best(all, input) == Some(m),
{
    let chosen = choose|m: int| is_best(all, input, m);
    assert(applies(all, input, chosen));
    assert(applies(all, input, m));
}

/// The place of the entry to take for `chars[from..]`.
fn best_entry(table: &Vec<Abbreviation>, chars: &Vec<char>, from: usize) -> (found: Option<usize>)
    requires
        from <= chars@.len(),
    ensures
        match found {
            Some(m) => best(entries(table@), chars@.skip(from as int)) == Some(m as int)
                && is_best(entries(table@), chars@.skip(from as int), m as int),
            None => best(entries(table@), chars@.skip(from as int)) is None && forall|m: int|
                !applies(entries(table@), chars@.skip(from as int), m),
        },
{
    let ghost all = entries(table@);
    let ghost input = chars@.skip(from as int);
    let mut found: Option<usize> = None;
    let mut length: usize = 0;
    if from < chars.len() && chars[from] == '\\' {
        found = Some(0);
        length = 1;
        assert(all[0].input =~= input.subrange(0, 1));
        assert(applies(all, input, 0));
    } else {
        assert(!applies(all, input, 0)) by {
            if applies(all, input, 0) {
                assert(input.subrange(0, 1)[0] == '\\');
            }
        }
    }
    let mut i: usize = 0;
    while i < table.len()
        invariant
            i <= table@.len(),
            from <= chars@.len(),
            all == entries(table@),
            input == chars@.skip(from as int),
            found is None ==> forall|k: int| k <= i ==> !#[trigger] applies(all, input, k),
            found is Some ==> found->0 <= i,
            found is Some ==> applies(all, input, found->0 as int),
            found is Some ==> length == all[found->0 as int].input.len(),
            found is Some ==> forall|k: int|
                k <= i && #[trigger] applies(all, input, k) ==> all[k].input.len() < length || (
                all[k].input.len() == length && found->0 <= k),
        decreases table@.len() - i,
    {
        let entry = &table[i];
        assert(all[i + 1] == entry@);
        if stands_in(chars, from, entry.input.as_str()) {
            assert(applies(all, input, i + 1));
            let size = entry.input.as_str().unicode_len();
            if found.is_none() || length < size {
                found = Some(i + 1);
                length = size;
            }
        } else {
            assert(!applies(all, input, i + 1));
        }
        i += 1;
    }
    proof {
        if found is Some {
            assert(is_best(all, input, found->0 as int)) by {
                assert forall|k: int| #[trigger] applies(all, input, k) implies all[k].input.len()
                    < length || (all[k].input.len() == length && found->0 <= k) by {
                    assert(k <= i);
                }
            }
            lemma_best_is_unique(all, input, found->0 as int);
        } else {
            assert forall|m: int| !applies(all, input, m) by {
                if applies(all, input, m) {
                    assert(m <= i);
                }
            }
        }
    }
    found
}

/// The number of characters to replace at the start of `input`, and what replaces them.
pub fn best_abbrev_prefix(table: &Vec<Abbreviation>, input: &str) -> (found: Option<
    (usize, String),
>)
    ensures
        match found {
            Some((length, replacement)) => {
                let all = entries(table@);
                &&& best(all, input@) matches Some(m)
                &&& is_best(all, input@, m)
                &&& length == all[m].input.len()
                &&& replacement@ == all[m].replacement
            },
            None => best(entries(table@), input@) is None && forall|m: int|
                !applies(entries(table@), input@, m),
        },
{
    let chars = chars_of(input);
    assert(chars@.skip(0) =~= input@);
    match best_entry(table, &chars, 0) {
        Some(m) => {
            if m == 0 {
                let mut replacement = String::new();
                replacement.push('\\');
                assert(replacement@ =~= entries(table@)[0].replacement);
                Some((1, replacement))
            } else {
                let entry = &table[m - 1];
                Some((entry.input.as_str().unicode_len(), entry.replacement.clone()))
            }
        },
        None => None,
    }
}

/// `segment` with its abbreviations expanded, from left to right.
pub fn expand_visible_segment(table: &Vec<Abbreviation>, segment: &str) -> (out: String)
    ensures
        out@ == expand(entries(table@), segment@),
{
    let chars = chars_of(segment);
    let ghost all = entries(table@);
    let total = chars.len();
    let mut out = String::new();
    let mut i: usize = 0;
    assert(segment@.skip(0) =~= segment@);
    assert(out@ + expand(all, segment@) =~= expand(all, segment@));
    while i < total
        invariant
            i <= total,
            total == chars@.len(),
            chars@ == segment@,
            all == entries(table@),
            out@ + expand(all, segment@.skip(i as int)) == expand(all, segment@),
        decreases total - i,
    {
        let ghost rest = segment@.skip(i as int);
        let ghost before = out@;
        assert(rest.skip(1) =~= segment@.skip(i + 1));
        if chars[i] != '\\' {
            out.push(chars[i]);
            i += 1;
            assert(out@ + expand(all, rest.skip(1)) =~= before + expand(all, rest));
        } else {
            match best_entry(table, &chars, i + 1) {
                Some(m) => {
                    let ghost size = all[m as int].input.len();
                    assert(rest.skip((1 + size) as int) =~= segment@.skip(i + 1 + size));
                    if m == 0 {
                        out.push('\\');
                        assert(out@ =~= before + all[0].replacement);
                        i += 2;
                    } else {
                        let entry = &table[m - 1];
                        assert(all[m as int] == entry@);
                        out.append(entry.replacement.as_str());
                        i += 1 + entry.input.as_str().unicode_len();
                    }
                    assert(out@ + expand(all, segment@.skip(i as int)) =~= before + expand(
                        all,
                        rest,
                    ));
                },
                None => {
                    out.push('\\');
                    i += 1;
                    assert(out@ + expand(all, rest.skip(1)) =~= before + expand(all, rest));
                },
            }
        }
    }
    assert(segment@.skip(total as int) =~= Seq::empty());
    assert(out@ + expand(all, segment@.skip(total as int)) =~= out@);
    out
}

/// The change that expands the token that ends at `cursor`.
pub fn find_expansion(table: &Vec<Abbreviation>, text: &str, cursor: usize) -> (found: Option<
    Expansion,
>)
    requires
        cursor <= text@.len(),
    ensures
        viewed(found) == expansion_at(entries(table@), text@, cursor as int),
{
    let chars = chars_of(text);
    find_expansion_in(table, &chars, cursor)
}

/// The change that expands the token of `chars` that ends at `cursor`.
fn find_expansion_in(table: &Vec<Abbreviation>, chars: &Vec<char>, cursor: usize) -> (found: Option<
    Expansion,
>)
    requires
        cursor <= chars@.len(),
    ensures
        viewed(found) == expansion_at(entries(table@), chars@, cursor as int),
{
    let mut start: usize = cursor;
    while start > 0 && !chars[start - 1].is_whitespace()
        invariant
            start <= cursor <= chars@.len(),
            token_start(chars@, start as int) == token_start(chars@, cursor as int),
        decreases start,
    {
        start -= 1;
    }
    let segment = string_of(chars, start, cursor);
    let replacement = expand_visible_segment(table, segment.as_str());
    if replacement == segment {
        None
    } else {
        Some(Expansion { start, end: cursor, replacement })
    }
}

/// How the editor takes keys.
#[derive(Clone, Copy, Debug, PartialEq, Eq, Structural)]
pub enum Mode {
    Normal,
    Select,
    Insert,
}

/// The document under the keys: what it is, what it holds, and where its cursors stand.
#[derive(Debug)]
pub struct InsertSource {
    pub mode: Mode,
    pub has_path: bool,
    pub extension: Option<String>,
    pub language_name: Option<String>,
    pub text: String,
    pub cursors: Vec<usize>,
}

impl InsertSource {
    /// The cursors stand in the text, or at its end.
    pub open spec fn wf(self) -> bool {
        forall|i: int| 0 <= i < self.cursors@.len() ==> #[trigger] self.cursors@[i] <= self.text@.len()
    }

    /// Whether keys go into a Lean document that has a path.
    pub open spec fn takes_lean(self) -> bool {
        &&& self.mode is Insert
        &&& self.has_path
        &&& viewed(self.language_name) == Some("lean"@) || viewed(self.extension) == Some("lean"@)
    }
}

/// The changes at the cursors, in the order of the cursors.
pub open spec fn changes_at(all: Seq<Entry>, text: Seq<char>, cursors: Seq<usize>) -> Seq<Change>
    decreases cursors.len(),
{
    if cursors.len() == 0 {
        Seq::empty()
    } else {
        let before = changes_at(all, text, cursors.drop_last());
        match expansion_at(all, text, cursors.last() as int) {
            Some(change) => before.push(change),
            None => before,
        }
    }
}

/// Whether `a` does not come after `b`.
pub open spec fn not_after(a: Change, b: Change) -> bool {
    a.start < b.start || (a.start == b.start && a.end <= b.end)
}

/// Whether the changes stand in the order of the text.
pub open spec fn in_order(changes: Seq<Change>) -> bool {
    forall|i: int, j: int|
        0 <= i <= j < changes.len() ==> not_after(#[trigger] changes[i], #[trigger] changes[j])
}

/// The changes that a vector of them stands for.
pub open spec fn changes_of(expansions: Seq<Expansion>) -> Seq<Change> {
    expansions.map_values(|expansion: Expansion| expansion@)
}

/// Whether `expansions` are the changes to make before something is entered at the cursors.
pub open spec fn commits(
    source: InsertSource,
    table: Seq<Abbreviation>,
    expansions: Seq<Expansion>,
) -> bool {
    if source.takes_lean() {
        &&& in_order(changes_of(expansions))
        &&& changes_of(expansions).to_multiset() == changes_at(
            entries(table),
            source.text@,
            source.cursors@,
        ).to_multiset()
    } else {
        expansions.len() == 0
    }
}

/// Whether `text` is `"lean"`.
fn is_lean(text: &Option<String>) -> (yes: bool)
    ensures
        yes == (viewed(*text) == Some("lean"@)),
{
    match text {
        Some(text) => {
            let lean = "lean".to_string();
            *text == lean
        },
        None => false,
    }
}

/// Whether keys go into a Lean document that has a path.
pub fn is_lean_insert_source(source: &InsertSource) -> (yes: bool)
    ensures
        yes == source.takes_lean(),
{
    if source.mode != Mode::Insert {
        return false;
    }
    source.has_path && (is_lean(&source.language_name) || is_lean(&source.extension))
}

/// Puts `expansion` behind all that do not come after it.
fn insert_in_order(expansions: &mut Vec<Expansion>, expansion: Expansion)
    requires
        in_order(changes_of(old(expansions)@)),
    ensures
        in_order(changes_of(final(expansions)@)),
        changes_of(final(expansions)@).to_multiset() == changes_of(
            old(expansions)@,
        ).to_multiset().insert(expansion@),
{
    let ghost before = changes_of(expansions@);
    let mut i: usize = expansions.len();
    while i > 0 && (expansion.start < expansions[i - 1].start || (expansion.start
        == expansions[i - 1].start && expansion.end < expansions[i - 1].end))
        invariant
            i <= expansions@.len(),
            before == changes_of(expansions@),
            in_order(before),
            forall|k: int| i <= k < before.len() ==> not_after(expansion@, #[trigger] before[k]),
        decreases i,
    {
        proof {
            assert(before[i - 1] == expansions@[i - 1]@);
        }
        i -= 1;
    }
    proof {
        if i > 0 {
            assert(before[i - 1] == expansions@[i - 1]@);
            assert forall|k: int| 0 <= k < i implies not_after(#[trigger] before[k], expansion@) by {
                assert(not_after(before[k], before[i - 1]));
            }
        }
        to_multiset_insert(before, i as int, expansion@);
    }
    expansions.insert(i, expansion);
    assert(changes_of(expansions@) =~= before.insert(i as int, expansion@));
}

/// The changes to make before something is entered at the cursors, in the order of the text.
pub fn expand_before_commit(source: &InsertSource, table: &Vec<Abbreviation>) -> (expansions: Vec<
    Expansion,
>)
    requires
        source.wf(),
    ensures
        commits(*source, table@, expansions@),
{
    let mut expansions: Vec<Expansion> = Vec::new();
    if !is_lean_insert_source(source) {
        return expansions;
    }
    let chars = chars_of(source.text.as_str());
    let ghost all = entries(table@);
    let ghost cursors = source.cursors@;
    assert(changes_of(expansions@) =~= changes_at(all, chars@, cursors.take(0)));
    let mut i: usize = 0;
    while i < source.cursors.len()
        invariant
            i <= source.cursors@.len(),
            source.wf(),
            chars@ == source.text@,
            all == entries(table@),
            cursors == source.cursors@,
            in_order(changes_of(expansions@)),
            changes_of(expansions@).to_multiset() == changes_at(
                all,
                chars@,
                cursors.take(i as int),
            ).to_multiset(),
        decreases source.cursors@.len() - i,
    {
        assert(cursors.take(i + 1).drop_last() =~= cursors.take(i as int));
        let cursor = source.cursors[i];
        if let Some(expansion) = find_expansion_in(table, &chars, cursor) {
            proof {
                to_multiset_build(changes_at(all, chars@, cursors.take(i as int)), expansion@);
            }
            insert_in_order(&mut expansions, expansion);
        }
        i += 1;
    }
    assert(cursors.take(source.cursors@.len() as int) =~= cursors);
    expansions
}

/// The changes that the command for abbreviations makes.
pub fn lean_abbreviation(source: &InsertSource, table: &Vec<Abbreviation>) -> (expansions: Vec<
    Expansion,
>)
    requires
        source.wf(),
    ensures
        commits(*source, table@, expansions@),
{
    expand_before_commit(source, table)
}

/// What a space does in a Lean document: the changes to make, and then the text to enter at each
/// cursor. In any other document it is left to the editor.
pub fn handle_space(source: &InsertSource, table: &Vec<Abbreviation>) -> (handled: Option<
    (Vec<Expansion>, String),
>)
    requires
        source.wf(),
    ensures
        match handled {
            Some((expansions, entered)) => {
                &&& source.takes_lean()
                &&& commits(*source, table@, expansions@)
                &&& entered@ == " "@
            },
            None => !source.takes_lean(),
        },
{
    if !is_lean_insert_source(source) {
        return None;
    }
    Some((expand_before_commit(source, table), " ".to_string()))
}

/// Whatever stands before the first backslash stays, and what follows is expanded on its own.
pub proof fn law_text_before_a_backslash_stays(
    all: Seq<Entry>,
    before: Seq<char>,
    rest: Seq<char>,
)
    requires
        !before.contains('\\'),
    ensures
        expand(all, before + rest) == before + expand(all, rest),
    decreases before.len(),
{
    let whole = before + rest;
    if before.len() == 0 {
        assert(whole =~= rest);
        assert(before + expand(all, rest) =~= expand(all, rest));
    } else {
        let tail = before.skip(1);
        assert(before[0] != '\\');
        assert(!tail.contains('\\')) by {
            if tail.contains('\\') {
                let i = choose|i: int| 0 <= i < tail.len() && tail[i] == '\\';
                assert(before[i + 1] == '\\');
            }
        }
        law_text_before_a_backslash_stays(all, tail, rest);
        assert(whole.skip(1) =~= tail + rest);
        assert(seq![before[0]] + (tail + expand(all, rest)) =~= before + expand(all, rest));
    }
}

/// A text without a backslash stays.
pub proof fn law_text_without_backslash_stays(all: Seq<Entry>, text: Seq<char>)
    requires
        !text.contains('\\'),
    ensures
        expand(all, text) == text,
{
    law_text_before_a_backslash_stays(all, text, Seq::empty());
    assert(text + Seq::<char>::empty() =~= text);
}

/// An entry is taken if and only if one applies, and none that applies is longer.
pub proof fn law_longest_entry_is_taken(all: Seq<Entry>, input: Seq<char>)
    ensures
        best(all, input) is Some <==> exists|k: int| applies(all, input, k),
        match best(all, input) {
            Some(m) => applies(all, input, m) && forall|k: int| #[trigger]
                applies(all, input, k) ==> all[k].input.len() <= all[m].input.len(),
            None => true,
        },
{
    if exists|k: int| applies(all, input, k) {
        let k = choose|k: int| applies(all, input, k);
        let m = lemma_some_entry_is_best(all, input, k, all.len());
        assert(is_best(all, input, m));
    }
    if best(all, input) is Some {
        let m = best(all, input)->0;
        assert(is_best(all, input, m));
    }
}

/// The best of the first `n` entries, of which `k` applies.
proof fn lemma_some_entry_is_best(all: Seq<Entry>, input: Seq<char>, k: int, n: nat) -> (m: int)
    requires
        applies(all, input, k),
        k < n <= all.len(),
    ensures
        applies(all, input, m),
        m < n,
        forall|other: int| #[trigger]
            applies(all, input, other) && other < n ==> all[other].input.len() < all[m].input.len()
                || (all[other].input.len() == all[m].input.len() && m <= other),
    decreases n,
{
    let last = n - 1;
    if exists|other: int| applies(all, input, other) && other < last {
        let other = choose|other: int| applies(all, input, other) && other < last;
        let m = lemma_some_entry_is_best(all, input, other, last as nat);
        if applies(all, input, last) && all[last].input.len() > all[m].input.len() {
            last
        } else {
            m
        }
    } else {
        k
    }
}

/// After a backslash the longest entry is replaced, and a text without a backslash behind it stays.
pub proof fn law_suffix_stays(all: Seq<Entry>, m: int, suffix: Seq<char>)
    requires
        best(all, all[m].input + suffix) == Some(m),
        !suffix.contains('\\'),
    ensures
        expand(all, seq!['\\'] + all[m].input + suffix) == all[m].replacement + suffix,
{
    let whole = seq!['\\'] + all[m].input + suffix;
    assert(whole.skip(1) =~= all[m].input + suffix);
    assert(whole.skip((1 + all[m].input.len()) as int) =~= suffix);
    law_text_without_backslash_stays(all, suffix);
}

/// Two backslashes become one, and what follows is expanded on its own, unless a longer entry of
/// the table applies behind the first.
pub proof fn law_two_backslashes_become_one(table: Seq<Abbreviation>, rest: Seq<char>)
    requires
        forall|k: int| #[trigger]
            applies(entries(table), seq!['\\'] + rest, k) ==> entries(table)[k].input.len() <= 1,
    ensures
        expand(entries(table), seq!['\\', '\\'] + rest) == seq!['\\'] + expand(
            entries(table),
            rest,
        ),
{
    let all = entries(table);
    let whole = seq!['\\', '\\'] + rest;
    let after = seq!['\\'] + rest;
    assert(whole.skip(1) =~= after);
    assert(all[0].input =~= after.subrange(0, 1));
    assert(applies(all, after, 0));
    assert(is_best(all, after, 0));
    lemma_best_is_unique(all, after, 0);
    assert(whole.skip(2) =~= rest);
}

/// An expansion covers the token that ends at the cursor, from the white space before it on, and
/// nothing else.
pub proof fn law_expansion_covers_its_token(all: Seq<Entry>, text: Seq<char>, cursor: int)
    requires
        0 <= cursor <= text.len(),
    ensures
        match expansion_at(all, text, cursor) {
            Some(change) => {
                &&& 0 <= change.start < change.end == cursor
                &&& forall|i: int|
                    change.start <= i < change.end ==> !is_white_space(#[trigger] text[i])
                &&& change.start == 0 || is_white_space(text[change.start - 1])
                &&& change.replacement == expand(all, text.subrange(change.start, change.end))
                &&& change.replacement != text.subrange(change.start, change.end)
            },
            None => true,
        },
{
    lemma_token_start(text, cursor);
    let start = token_start(text, cursor);
    if start == cursor {
        assert(text.subrange(start, cursor) =~= Seq::empty());
        assert(expand(all, Seq::empty()) =~= Seq::empty());
    }
}

proof fn lemma_token_start(text: Seq<char>, cursor: int)
    requires
        0 <= cursor <= text.len(),
    ensures
        0 <= token_start(text, cursor) <= cursor,
        forall|i: int|
            token_start(text, cursor) <= i < cursor ==> !is_white_space(#[trigger] text[i]),
        token_start(text, cursor) == 0 || is_white_space(text[token_start(text, cursor) - 1]),
    decreases cursor,
{
    if cursor > 0 && !is_white_space(text[cursor - 1]) {
        lemma_token_start(text, cursor - 1);
    }
}

/// A text as it stands in a literal: with a backslash before each double quote and backslash.
pub open spec fn escaped(text: Seq<char>) -> Seq<char>
    decreases text.len(),
{
    if text.len() == 0 {
        Seq::empty()
    } else if text[0] == '"' || text[0] == '\\' {
        seq!['\\', text[0]] + escaped(text.skip(1))
    } else {
        seq![text[0]] + escaped(text.skip(1))
    }
}

/// A text as a literal.
pub open spec fn quoted(text: Seq<char>) -> Seq<char> {
    seq!['"'] + escaped(text) + seq!['"']
}

/// What was written as a literal is read back from it, whatever stands around the literal.
pub proof fn law_literal_is_read_back(before: Seq<char>, text: Seq<char>, after: Seq<char>)
    ensures
        literal_at(before + quoted(text) + after, before.len() as int) == Some(
            (text, (before.len() + quoted(text).len()) as int),
        ),
{
    let whole = before + quoted(text) + after;
    let opened = before.push('"');
    assert(whole =~= opened + escaped(text) + seq!['"'] + after);
    assert(whole[before.len() as int] == '"');
    lemma_inside_is_read_back(opened, text, after);
}

proof fn lemma_inside_is_read_back(before: Seq<char>, text: Seq<char>, after: Seq<char>)
    ensures
        literal(before + escaped(text) + seq!['"'] + after, before.len() as int) == Some(
            (text, (before.len() + escaped(text).len() + 1) as int),
        ),
    decreases text.len(),
{
    let whole = before + escaped(text) + seq!['"'] + after;
    if text.len() == 0 {
        assert(escaped(text) =~= Seq::empty());
        assert(whole[before.len() as int] == '"');
        assert(text =~= Seq::empty());
    } else {
        let c = text[0];
        let tail = text.skip(1);
        let step = if c == '"' || c == '\\' {
            seq!['\\', c]
        } else {
            seq![c]
        };
        let further = before + step;
        assert(escaped(text) =~= step + escaped(tail));
        assert(whole =~= further + escaped(tail) + seq!['"'] + after);
        lemma_inside_is_read_back(further, tail, after);
        assert(whole[before.len() as int] == step[0]);
        if step.len() == 2 {
            assert(whole[1 + before.len() as int] == c);
        }
        assert(seq![c] + tail =~= text);
    }
}

/// An entry as it is written on a line.
pub open spec fn written(entry: Entry) -> Seq<char> {
    "(list "@ + quoted(entry.input) + seq![' '] + quoted(entry.replacement) + seq![')']
}

/// An entry that was written on a line is read back from it, whatever white space stands around it.
pub proof fn law_entry_is_read_back(before: Seq<char>, entry: Entry, after: Seq<char>)
    requires
        forall|i: int| 0 <= i < before.len() ==> is_white_space(#[trigger] before[i]),
        forall|i: int| 0 <= i < after.len() ==> is_white_space(#[trigger] after[i]),
    ensures
        entry_on(before + written(entry) + after) == Some(entry),
{
    reveal_strlit("(list ");
    let head = "(list "@;
    let line = written(entry);
    assert(line[0] == '(');
    assert(line.last() == ')');
    lemma_trim_finds(before, line, after);
    assert(line.subrange(0, head.len() as int) =~= head);
    let rest = seq![' '] + quoted(entry.replacement) + seq![')'];
    assert(line =~= head + quoted(entry.input) + rest);
    law_literal_is_read_back(head, entry.input, rest);
    let first = head.len() as int;
    assert(line[first] == '"');
    lemma_quote_is_found(line, 0, first);
    let start = head + quoted(entry.input) + seq![' '];
    let end = first + quoted(entry.input).len();
    assert(line =~= start + quoted(entry.replacement) + seq![')']);
    law_literal_is_read_back(start, entry.replacement, seq![')']);
    assert(line[end] == ' ');
    assert(line[end + 1] == '"');
    lemma_quote_is_found(line, end, end + 1);
}

/// A line that does not open with `(list ` behind its white space holds no entry.
pub proof fn law_other_lines_hold_no_entry(line: Seq<char>)
    requires
        !"(list "@.is_prefix_of(trim(line)),
    ensures
        entry_on(line) is None,
{
}

proof fn lemma_quote_is_found(text: Seq<char>, from: int, quote: int)
    requires
        0 <= from <= quote < text.len(),
        text[quote] == '"',
        forall|i: int| from <= i < quote ==> #[trigger] text[i] != '"',
    ensures
        quote_from(text, from) == Some(quote),
    decreases quote - from,
{
    if from < quote {
        lemma_quote_is_found(text, from + 1, quote);
    }
}

proof fn lemma_trim_finds(before: Seq<char>, text: Seq<char>, after: Seq<char>)
    requires
        forall|i: int| 0 <= i < before.len() ==> is_white_space(#[trigger] before[i]),
        forall|i: int| 0 <= i < after.len() ==> is_white_space(#[trigger] after[i]),
        text.len() > 0,
        !is_white_space(text[0]),
        !is_white_space(text.last()),
    ensures
        trim(before + text + after) == text,
{
    let whole = before + text + after;
    assert forall|i: int| 0 <= i < before.len() implies is_white_space(#[trigger] whole[i]) by {
        assert(before[i] == whole[i]);
    }
    lemma_trim_start(whole, before.len() as int);
    assert(whole.skip(before.len() as int) =~= text + after);
    assert((text + after)[0] == text[0]);
    assert(trim_start(whole) == text + after);
    lemma_trim_end_finds(text, after);
}

proof fn lemma_trim_end_finds(text: Seq<char>, after: Seq<char>)
    requires
        forall|i: int| 0 <= i < after.len() ==> is_white_space(#[trigger] after[i]),
        text.len() > 0,
        !is_white_space(text.last()),
    ensures
        trim_end(text + after) == text,
    decreases after.len(),
{
    if after.len() == 0 {
        assert(text + after =~= text);
    } else {
        assert(is_white_space(after[after.len() - 1]));
        let fewer = after.drop_last();
        assert forall|i: int| 0 <= i < fewer.len() implies is_white_space(#[trigger] fewer[i]) by {
            assert(fewer[i] == after[i]);
        }
        lemma_trim_end_finds(text, fewer);
        assert((text + after).drop_last() =~= text + fewer);
    }
}

/// Each line of the data is read on its own.
pub proof fn law_lines_are_read_one_by_one(first: Seq<Seq<char>>, second: Seq<Seq<char>>)
    ensures
        entries_on(first + second) == entries_on(first) + entries_on(second),
    decreases second.len(),
{
    if second.len() == 0 {
        assert(first + second =~= first);
        assert(entries_on(first) + entries_on(second) =~= entries_on(first));
    } else {
        law_lines_are_read_one_by_one(first, second.drop_last());
        assert((first + second).drop_last() =~= first + second.drop_last());
        assert(entries_on(first + second) =~= entries_on(first) + entries_on(second));
    }
}

/// The changes to make are determined by the document and the table.
pub proof fn law_changes_are_determined(
    source: InsertSource,
    table: Seq<Abbreviation>,
    first: Seq<Expansion>,
    second: Seq<Expansion>,
)
    requires
        source.wf(),
        commits(source, table, first),
        commits(source, table, second),
    ensures
        changes_of(first) == changes_of(second),
{
    if source.takes_lean() {
        let all = entries(table);
        let wanted = changes_at(all, source.text@, source.cursors@);
        let a = changes_of(first);
        let b = changes_of(second);
        assert forall|change: Change| #[trigger] wanted.contains(change) implies expansion_at(
            all,
            source.text@,
            change.end,
        ) == Some(change) by {
            lemma_change_is_at_its_end(all, source.text@, source.cursors@, change);
        }
        lemma_same_contents(a, wanted);
        lemma_same_contents(b, wanted);
        lemma_order_is_unique(all, source.text@, a, b);
    } else {
        assert(changes_of(first) =~= changes_of(second));
    }
}

proof fn lemma_change_is_at_its_end(
    all: Seq<Entry>,
    text: Seq<char>,
    cursors: Seq<usize>,
    change: Change,
)
    requires
        changes_at(all, text, cursors).contains(change),
    ensures
        expansion_at(all, text, change.end) == Some(change),
    decreases cursors.len(),
{
    if cursors.len() > 0 {
        let before = changes_at(all, text, cursors.drop_last());
        if before.contains(change) {
            lemma_change_is_at_its_end(all, text, cursors.drop_last(), change);
        } else {
            let here = expansion_at(all, text, cursors.last() as int);
            let i = choose|i: int|
                0 <= i < changes_at(all, text, cursors).len() && changes_at(all, text, cursors)[i]
                    == change;
            if here is Some && i < before.len() {
                assert(before[i] == change);
            }
        }
    }
}

proof fn lemma_same_contents(a: Seq<Change>, b: Seq<Change>)
    requires
        a.to_multiset() == b.to_multiset(),
    ensures
        forall|change: Change| #[trigger] a.contains(change) ==> b.contains(change),
{
    broadcast use vstd::seq_lib::group_to_multiset_ensures;

    assert forall|change: Change| #[trigger] a.contains(change) implies b.contains(change) by {
        assert(a.to_multiset().count(change) > 0);
        assert(b.to_multiset().count(change) > 0);
    }
}

proof fn lemma_order_is_unique(all: Seq<Entry>, text: Seq<char>, a: Seq<Change>, b: Seq<Change>)
    requires
        in_order(a),
        in_order(b),
        a.to_multiset() == b.to_multiset(),
        forall|change: Change| #[trigger]
            a.contains(change) ==> expansion_at(all, text, change.end) == Some(change),
    ensures
        a == b,
    decreases a.len(),
{
    broadcast use vstd::seq_lib::group_to_multiset_ensures;

    to_multiset_len(a);
    to_multiset_len(b);
    if a.len() == 0 {
        assert(a =~= b);
    } else {
        let last_a = a.last();
        let last_b = b.last();
        lemma_same_contents(a, b);
        lemma_same_contents(b, a);
        assert(a.contains(last_a));
        assert(b.contains(last_b));
        assert(b.contains(last_a));
        assert(a.contains(last_b));
        let i = choose|i: int| 0 <= i < b.len() && b[i] == last_a;
        let j = choose|j: int| 0 <= j < a.len() && a[j] == last_b;
        assert(not_after(b[i], b[b.len() - 1]));
        assert(not_after(a[j], a[a.len() - 1]));
        assert(last_a == last_b);
        let rest_a = a.drop_last();
        let rest_b = b.drop_last();
        assert(a =~= rest_a.push(last_a));
        assert(b =~= rest_b.push(last_a));
        to_multiset_build(rest_a, last_a);
        to_multiset_build(rest_b, last_a);
        assert(rest_a.to_multiset() =~= rest_b.to_multiset()) by {
            assert(rest_a.to_multiset() =~= a.to_multiset().remove(last_a));
            assert(rest_b.to_multiset() =~= b.to_multiset().remove(last_a));
        }
        assert(in_order(rest_a)) by {
            assert forall|i: int, j: int| 0 <= i <= j < rest_a.len() implies not_after(
                #[trigger] rest_a[i],
                #[trigger] rest_a[j],
            ) by {
                assert(not_after(a[i], a[j]));
            }
        }
        assert(in_order(rest_b)) by {
            assert forall|i: int, j: int| 0 <= i <= j < rest_b.len() implies not_after(
                #[trigger] rest_b[i],
                #[trigger] rest_b[j],
            ) by {
                assert(not_after(b[i], b[j]));
            }
        }
        assert forall|change: Change| #[trigger] rest_a.contains(change) implies expansion_at(
            all,
            text,
            change.end,
        ) == Some(change) by {
            let k = choose|k: int| 0 <= k < rest_a.len() && rest_a[k] == change;
            assert(a[k] == change);
            assert(a.contains(change));
        }
        lemma_order_is_unique(all, text, rest_a, rest_b);
    }
}

/// Whether entry `m` is the longest of those with which `input` starts, and the first of those as long.
pub open spec fn is_first_longest(all: Seq<Entry>, input: Seq<char>, m: int) -> bool {
    &&& 0 <= m < all.len()
    &&& all[m].input.is_prefix_of(input)
    &&& forall|k: int|
        0 <= k < all.len() && (#[trigger] all[k]).input.is_prefix_of(input) ==> all[k].input.len()
            < all[m].input.len() || (all[k].input.len() == all[m].input.len() && m <= k)
}

/// The entry that is taken is the first of the longest with which the input starts, and none is
/// taken only where the input starts with none.
pub proof fn law_first_longest_entry_is_taken(all: Seq<Entry>, input: Seq<char>)
    ensures
        match best(all, input) {
            Some(m) => is_first_longest(all, input, m),
            None => forall|k: int|
                0 <= k < all.len() ==> !(#[trigger] all[k]).input.is_prefix_of(input),
        },
        forall|m: int| #[trigger] is_first_longest(all, input, m) ==> best(all, input) == Some(m),
{
    law_longest_entry_is_taken(all, input);
    if let Some(m) = best(all, input) {
        assert(is_best(all, input, m));
        assert forall|k: int|
            0 <= k < all.len() && (#[trigger] all[k]).input.is_prefix_of(
                input,
            ) implies all[k].input.len() < all[m].input.len() || (all[k].input.len()
            == all[m].input.len() && m <= k) by {
            assert(applies(all, input, k));
        }
    } else {
        assert forall|k: int| 0 <= k < all.len() implies !(
        #[trigger] all[k]).input.is_prefix_of(input) by {
            assert(!applies(all, input, k));
        }
    }
    assert forall|m: int| #[trigger] is_first_longest(all, input, m) implies best(all, input)
        == Some(m) by {
        assert forall|k: int| #[trigger] applies(all, input, k) implies all[k].input.len()
            < all[m].input.len() || (all[k].input.len() == all[m].input.len() && m <= k) by {
            assert(all[k].input.is_prefix_of(input));
        }
        assert(applies(all, input, m));
        assert(is_best(all, input, m));
        lemma_best_is_unique(all, input, m);
    }
}

/// A backslash and the longest entry behind it become the replacement of the entry. Whatever
/// follows is expanded on its own, backslashes and all.
pub proof fn law_abbreviation_is_replaced(all: Seq<Entry>, m: int, rest: Seq<char>)
    requires
        is_first_longest(all, all[m].input + rest, m),
    ensures
        expand(all, seq!['\\'] + all[m].input + rest) == all[m].replacement + expand(all, rest),
{
    law_first_longest_entry_is_taken(all, all[m].input + rest);
    let whole = seq!['\\'] + all[m].input + rest;
    assert(whole.skip(1) =~= all[m].input + rest);
    assert(whole.skip((1 + all[m].input.len()) as int) =~= rest);
}

/// A backslash behind which no entry stands stays, and what follows is expanded on its own. Nothing
/// expands to nothing.
pub proof fn law_lone_backslash_stays(all: Seq<Entry>, rest: Seq<char>)
    requires
        forall|k: int| 0 <= k < all.len() ==> !(#[trigger] all[k]).input.is_prefix_of(rest),
    ensures
        expand(all, seq!['\\'] + rest) == seq!['\\'] + expand(all, rest),
        expand(all, Seq::empty()) == Seq::<char>::empty(),
{
    law_first_longest_entry_is_taken(all, rest);
    if let Some(m) = best(all, rest) {
        assert(all[m].input.is_prefix_of(rest));
    }
    let whole = seq!['\\'] + rest;
    assert(whole.skip(1) =~= rest);
}

/// A token that is one abbreviation after the other becomes the replacements in their order, where
/// each is the longest at its place.
pub proof fn law_chain_is_replaced(all: Seq<Entry>, chain: Seq<int>)
    requires
        forall|i: int|
            0 <= i < chain.len() ==> is_first_longest(
                all,
                all[#[trigger] chain[i]].input + chained(all, chain.skip(i + 1)),
                chain[i],
            ),
    ensures
        expand(all, chained(all, chain)) == replacements(all, chain),
    decreases chain.len(),
{
    if chain.len() == 0 {
        assert(chained(all, chain) =~= Seq::empty());
    } else {
        let rest = chain.skip(1);
        assert forall|i: int| 0 <= i < rest.len() implies is_first_longest(
            all,
            all[#[trigger] rest[i]].input + chained(all, rest.skip(i + 1)),
            rest[i],
        ) by {
            assert(rest[i] == chain[i + 1]);
            assert(rest.skip(i + 1) =~= chain.skip(i + 2));
        }
        law_chain_is_replaced(all, rest);
        let m = chain[0];
        law_abbreviation_is_replaced(all, m, chained(all, rest));
    }
}

/// The abbreviations of the chain, one after the other.
pub open spec fn chained(all: Seq<Entry>, chain: Seq<int>) -> Seq<char>
    decreases chain.len(),
{
    if chain.len() == 0 {
        Seq::empty()
    } else {
        seq!['\\'] + all[chain[0]].input + chained(all, chain.skip(1))
    }
}

/// The replacements of the chain, one after the other.
pub open spec fn replacements(all: Seq<Entry>, chain: Seq<int>) -> Seq<char>
    decreases chain.len(),
{
    if chain.len() == 0 {
        Seq::empty()
    } else {
        all[chain[0]].replacement + replacements(all, chain.skip(1))
    }
}

/// The entries are a backslash for itself, and then those of the table, each with its own input and
/// replacement.
pub proof fn law_entries_are_those_of_the_table(table: Seq<Abbreviation>)
    ensures
        entries(table).len() == table.len() + 1,
        entries(table)[0].input == seq!['\\'],
        entries(table)[0].replacement == seq!['\\'],
        forall|i: int|
            0 <= i < table.len() ==> (#[trigger] table[i]).input@ == entries(table)[i + 1].input
                && table[i].replacement@ == entries(table)[i + 1].replacement,
{
}

/// The token that ends at the cursor reaches back to the white space before it. It is changed to its
/// expansion exactly where that differs from it.
pub proof fn law_token_is_expanded(all: Seq<Entry>, text: Seq<char>, start: int, cursor: int)
    requires
        0 <= start <= cursor <= text.len(),
        start == 0 || is_white_space(text[start - 1]),
        forall|i: int| start <= i < cursor ==> !is_white_space(#[trigger] text[i]),
    ensures
        ({
            let token = text.subrange(start, cursor);
            expansion_at(all, text, cursor) == if expand(all, token) == token {
                None
            } else {
                Some(Change { start, end: cursor, replacement: expand(all, token) })
            }
        }),
{
    lemma_token_start(text, cursor);
    let found = token_start(text, cursor);
    if found < start {
        assert(!is_white_space(text[start - 1]));
    } else if found > start {
        assert(!is_white_space(text[found - 1]));
    }
}

/// A text as it may stand in a literal: with a backslash before each double quote and backslash, and
/// before any other character that `marks` says.
pub open spec fn escaped_by(text: Seq<char>, marks: Seq<bool>) -> Seq<char>
    decreases text.len(),
{
    if text.len() == 0 {
        Seq::empty()
    } else if text[0] == '"' || text[0] == '\\' || (marks.len() > 0 && marks[0]) {
        seq!['\\', text[0]] + escaped_by(text.skip(1), marks.skip(1))
    } else {
        seq![text[0]] + escaped_by(text.skip(1), marks.skip(1))
    }
}

/// A literal is read up to the first double quote that no backslash marks, and a backslash stands for
/// the character behind it, whatever that is. A literal that is not closed is none.
pub proof fn law_literal_is_read_however_written(
    before: Seq<char>,
    text: Seq<char>,
    marks: Seq<bool>,
    after: Seq<char>,
)
    ensures
        literal_at(
            before + seq!['"'] + escaped_by(text, marks) + seq!['"'] + after,
            before.len() as int,
        ) == Some((text, (before.len() + escaped_by(text, marks).len() + 2) as int)),
        literal_at(before + seq!['"'] + escaped_by(text, marks), before.len() as int) is None,
        literal_at(
            before + seq!['"'] + escaped_by(text, marks) + seq!['\\'],
            before.len() as int,
        ) is None,
{
    let opened = before + seq!['"'];
    lemma_inside_however_written(opened, text, marks, seq!['"'] + after);
    lemma_inside_however_written(opened, text, marks, Seq::empty());
    lemma_inside_however_written(opened, text, marks, seq!['\\']);
    let inside = opened + escaped_by(text, marks);
    assert(inside + seq!['"'] + after =~= inside + (seq!['"'] + after));
    assert(inside + Seq::<char>::empty() =~= inside);
    let closed = inside + (seq!['"'] + after);
    assert(closed[inside.len() as int] == '"');
    assert(text + Seq::<char>::empty() =~= text);
    let marked = inside + seq!['\\'];
    assert(marked[inside.len() as int] == '\\');
    assert(closed[before.len() as int] == '"');
}

proof fn lemma_inside_however_written(
    before: Seq<char>,
    text: Seq<char>,
    marks: Seq<bool>,
    after: Seq<char>,
)
    ensures
        ({
            let whole = before + escaped_by(text, marks) + after;
            let end = (before.len() + escaped_by(text, marks).len()) as int;
            literal(whole, before.len() as int) == match literal(whole, end) {
                Some((rest, stop)) => Some((text + rest, stop)),
                None => None,
            }
        }),
    decreases text.len(),
{
    let whole = before + escaped_by(text, marks) + after;
    let end = (before.len() + escaped_by(text, marks).len()) as int;
    if text.len() == 0 {
        if let Some((rest, stop)) = literal(whole, end) {
            assert(text + rest =~= rest);
        }
    } else {
        let c = text[0];
        let tail = text.skip(1);
        let step = if c == '"' || c == '\\' || (marks.len() > 0 && marks[0]) {
            seq!['\\', c]
        } else {
            seq![c]
        };
        let further = before + step;
        assert(escaped_by(text, marks) =~= step + escaped_by(tail, marks.skip(1)));
        assert(whole =~= further + escaped_by(tail, marks.skip(1)) + after);
        lemma_inside_however_written(further, tail, marks.skip(1), after);
        assert(whole[before.len() as int] == step[0]);
        if step.len() == 2 {
            assert(whole[1 + before.len() as int] == c);
        }
        if let Some((rest, stop)) = literal(whole, end) {
            assert(seq![c] + (tail + rest) =~= text + rest);
        }
    }
}

/// The entry on a line is in its first two literals, whatever stands between and behind them.
pub proof fn law_entry_is_in_the_first_two_literals(
    before: Seq<char>,
    gap: Seq<char>,
    entry: Entry,
    between: Seq<char>,
    behind: Seq<char>,
    after: Seq<char>,
)
    requires
        forall|i: int| 0 <= i < before.len() ==> is_white_space(#[trigger] before[i]),
        forall|i: int| 0 <= i < after.len() ==> is_white_space(#[trigger] after[i]),
        !gap.contains('"'),
        !between.contains('"'),
        behind.len() > 0 ==> !is_white_space(behind.last()),
    ensures
        entry_on(
            before + ("(list "@ + gap + quoted(entry.input) + between + quoted(entry.replacement)
                + behind) + after,
        ) == Some(entry),
{
    reveal_strlit("(list ");
    let head = "(list "@;
    let line = head + gap + quoted(entry.input) + between + quoted(entry.replacement) + behind;
    assert(line[0] == '(');
    assert(!is_white_space(line.last())) by {
        if behind.len() == 0 {
            assert(line.last() == '"');
        } else {
            assert(line.last() == behind.last());
        }
    }
    law_trim_takes_what_is_around(before, line, after);
    assert(line.subrange(0, head.len() as int) =~= head);
    let first = (head.len() + gap.len()) as int;
    let rest = between + quoted(entry.replacement) + behind;
    assert(line =~= (head + gap) + quoted(entry.input) + rest);
    law_literal_is_read_back(head + gap, entry.input, rest);
    assert(line[first] == '"');
    assert forall|i: int| 0 <= i < first implies #[trigger] line[i] != '"' by {
        if i >= head.len() {
            assert(line[i] == gap[i - head.len()]);
        }
    }
    lemma_quote_is_found(line, 0, first);
    let end = first + quoted(entry.input).len();
    let second = end + between.len();
    let start = head + gap + quoted(entry.input) + between;
    assert(line =~= start + quoted(entry.replacement) + behind);
    law_literal_is_read_back(start, entry.replacement, behind);
    assert(line[second] == '"');
    assert forall|i: int| end <= i < second implies #[trigger] line[i] != '"' by {
        assert(line[i] == between[i - end]);
    }
    lemma_quote_is_found(line, end, second);
}

/// A line with fewer than two literals holds no entry.
pub proof fn law_entry_needs_two_literals(text: Seq<char>, input: Seq<char>, behind: Seq<char>)
    requires
        !text.contains('"'),
        !behind.contains('"'),
    ensures
        trim(text) == text ==> entry_on(text) is None,
        trim(text + quoted(input) + behind) == text + quoted(input) + behind ==> entry_on(
            text + quoted(input) + behind,
        ) is None,
{
    lemma_no_quote_is_found(text, 0);
    let line = text + quoted(input) + behind;
    law_literal_is_read_back(text, input, behind);
    assert(line[text.len() as int] == '"');
    assert forall|i: int| 0 <= i < text.len() implies #[trigger] line[i] != '"' by {
        assert(line[i] == text[i]);
    }
    lemma_quote_is_found(line, 0, text.len() as int);
    let end = (text.len() + quoted(input).len()) as int;
    assert forall|i: int| end <= i < line.len() implies #[trigger] line[i] != '"' by {
        assert(line[i] == behind[i - end]);
    }
    lemma_no_quote_from(line, end);
}

proof fn lemma_no_quote_is_found(text: Seq<char>, from: int)
    requires
        0 <= from,
        !text.contains('"'),
    ensures
        quote_from(text, from) is None,
    decreases text.len() - from,
{
    if from < text.len() {
        assert(text[from] != '"');
        lemma_no_quote_is_found(text, from + 1);
    }
}

proof fn lemma_no_quote_from(text: Seq<char>, from: int)
    requires
        0 <= from,
        forall|i: int| from <= i < text.len() ==> #[trigger] text[i] != '"',
    ensures
        quote_from(text, from) is None,
    decreases text.len() - from,
{
    if from < text.len() {
        lemma_no_quote_from(text, from + 1);
    }
}

/// A line gives its entry, if it holds one, and nothing else.
pub proof fn law_line_gives_its_entry(line: Seq<char>)
    ensures
        entries_on(seq![line]) == match entry_on(line) {
            Some(entry) => seq![entry],
            None => Seq::empty(),
        },
        entries_on(Seq::empty()) == Seq::<Entry>::empty(),
{
    assert(seq![line].drop_last() =~= Seq::empty());
    assert(entries_on(Seq::empty()) =~= Seq::empty());
    if let Some(entry) = entry_on(line) {
        assert(entries_on(seq![line]) =~= seq![entry]);
    }
}

/// The changes to make are those at each cursor, and no others, as many as there are cursors with a
/// change. They stand in the order of their starts, and of their ends where they start together.
pub proof fn law_changes_are_those_of_the_cursors(
    source: InsertSource,
    table: Seq<Abbreviation>,
    expansions: Seq<Expansion>,
)
    requires
        source.mode is Insert,
        source.has_path,
        viewed(source.language_name) == Some("lean"@) || viewed(source.extension) == Some("lean"@),
        commits(source, table, expansions),
    ensures
        forall|i: int|
            0 <= i < source.cursors@.len() ==> match expansion_at(
                entries(table),
                source.text@,
                #[trigger] source.cursors@[i] as int,
            ) {
                Some(change) => exists|k: int|
                    0 <= k < expansions.len() && (#[trigger] expansions[k])@ == change,
                None => true,
            },
        forall|k: int|
            0 <= k < expansions.len() ==> exists|i: int|
                0 <= i < source.cursors@.len() && expansion_at(
                    entries(table),
                    source.text@,
                    #[trigger] source.cursors@[i] as int,
                ) == Some((#[trigger] expansions[k])@),
        expansions.len() == source.cursors@.filter(
            |cursor: usize| expansion_at(entries(table), source.text@, cursor as int) is Some,
        ).len(),
        forall|i: int, j: int|
            0 <= i < j < expansions.len() ==> (#[trigger] expansions[i]).start < (
            #[trigger] expansions[j]).start || (expansions[i].start == expansions[j].start
                && expansions[i].end <= expansions[j].end),
{
    let all = entries(table);
    let text = source.text@;
    let cursors = source.cursors@;
    let wanted = changes_at(all, text, cursors);
    let made = changes_of(expansions);
    lemma_same_contents(made, wanted);
    lemma_same_contents(wanted, made);
    to_multiset_len(made);
    to_multiset_len(wanted);
    lemma_changes_at(all, text, cursors);
    assert forall|i: int| 0 <= i < cursors.len() implies match expansion_at(
        all,
        text,
        #[trigger] cursors[i] as int,
    ) {
        Some(change) => exists|k: int|
            0 <= k < expansions.len() && (#[trigger] expansions[k])@ == change,
        None => true,
    } by {
        if let Some(change) = expansion_at(all, text, cursors[i] as int) {
            assert(wanted.contains(change));
            assert(made.contains(change));
            let k = choose|k: int| 0 <= k < made.len() && made[k] == change;
            assert(expansions[k]@ == change);
        }
    }
    assert forall|k: int| 0 <= k < expansions.len() implies exists|i: int|
        0 <= i < cursors.len() && expansion_at(all, text, #[trigger] cursors[i] as int) == Some(
            (#[trigger] expansions[k])@,
        ) by {
        assert(made[k] == expansions[k]@);
        assert(made.contains(expansions[k]@));
        assert(wanted.contains(expansions[k]@));
    }
    assert forall|i: int, j: int| 0 <= i < j < expansions.len() implies (
    #[trigger] expansions[i]).start < (#[trigger] expansions[j]).start || (expansions[i].start
        == expansions[j].start && expansions[i].end <= expansions[j].end) by {
        assert(not_after(made[i], made[j]));
    }
}

proof fn lemma_changes_at(all: Seq<Entry>, text: Seq<char>, cursors: Seq<usize>)
    ensures
        forall|i: int|
            0 <= i < cursors.len() ==> match expansion_at(
                all,
                text,
                #[trigger] cursors[i] as int,
            ) {
                Some(change) => changes_at(all, text, cursors).contains(change),
                None => true,
            },
        forall|change: Change| #[trigger]
            changes_at(all, text, cursors).contains(change) ==> exists|i: int|
                0 <= i < cursors.len() && expansion_at(all, text, #[trigger] cursors[i] as int)
                    == Some(change),
        changes_at(all, text, cursors).len() == cursors.filter(
            |cursor: usize| expansion_at(all, text, cursor as int) is Some,
        ).len(),
    decreases cursors.len(),
{
    reveal(Seq::filter);
    if cursors.len() > 0 {
        let fewer = cursors.drop_last();
        let before = changes_at(all, text, fewer);
        let now = changes_at(all, text, cursors);
        lemma_changes_at(all, text, fewer);
        let here = expansion_at(all, text, cursors.last() as int);
        assert forall|i: int| 0 <= i < cursors.len() implies match expansion_at(
            all,
            text,
            #[trigger] cursors[i] as int,
        ) {
            Some(change) => now.contains(change),
            None => true,
        } by {
            if let Some(change) = expansion_at(all, text, cursors[i] as int) {
                if i < fewer.len() {
                    assert(fewer[i] == cursors[i]);
                    assert(before.contains(change));
                    let k = choose|k: int| 0 <= k < before.len() && before[k] == change;
                    assert(now[k] == change);
                } else {
                    assert(now[now.len() - 1] == change);
                }
            }
        }
        assert forall|change: Change| #[trigger] now.contains(change) implies exists|i: int|
            0 <= i < cursors.len() && expansion_at(all, text, #[trigger] cursors[i] as int) == Some(
                change,
            ) by {
            let k = choose|k: int| 0 <= k < now.len() && now[k] == change;
            if k < before.len() {
                assert(before[k] == change);
                assert(before.contains(change));
                let i = choose|i: int|
                    0 <= i < fewer.len() && expansion_at(all, text, #[trigger] fewer[i] as int)
                        == Some(change);
                assert(cursors[i] == fewer[i]);
            } else {
                assert(cursors[cursors.len() - 1] == cursors.last());
                assert(here == Some(change));
            }
        }
    }
}

/// Outside a Lean document that has a path, and outside insert mode, there is nothing to change. A
/// document is one of Lean by its language or by the extension of its path.
pub proof fn law_only_lean_is_changed(
    source: InsertSource,
    table: Seq<Abbreviation>,
    expansions: Seq<Expansion>,
)
    ensures
        source.takes_lean() <==> source.mode is Insert && source.has_path && ((
        source.language_name matches Some(name) && name@ == "lean"@) || (
        source.extension matches Some(extension) && extension@ == "lean"@)),
        commits(source, table, expansions) && !source.takes_lean() ==> expansions.len() == 0,
{
}

/// An expansion says where it starts and ends, and what it puts there.
pub proof fn law_expansion_is_its_change(expansion: Expansion)
    ensures
        expansion@.start == expansion.start,
        expansion@.end == expansion.end,
        expansion@.replacement == expansion.replacement@,
{
}

} // verus!
