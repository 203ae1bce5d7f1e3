//! Text as a sequence of characters: the shapes that the other modules read and write.
use vstd::prelude::*;
use vstd::utf8::encode_utf8;
use crate::platform::is_white_space;

verus! {

/// `text` without the white space at its start.
pub open spec fn trim_start(text: Seq<char>) -> Seq<char>
    decreases text.len(),
{
    if text.len() > 0 && is_white_space(text[0]) {
        trim_start(text.drop_first())
    } else {
        text
    }
}

/// `text` without the white space at its end.
pub open spec fn trim_end(text: Seq<char>) -> Seq<char>
    decreases text.len(),
{
    if text.len() > 0 && is_white_space(text.last()) {
        trim_end(text.drop_last())
    } else {
        text
    }
}

/// `text` without the white space at either end.
pub open spec fn trim(text: Seq<char>) -> Seq<char> {
    trim_end(trim_start(text))
}

/// `text` without the characters `c` at its end.
pub open spec fn trim_end_of(text: Seq<char>, c: char) -> Seq<char>
    decreases text.len(),
{
    if text.len() > 0 && text.last() == c {
        trim_end_of(text.drop_last(), c)
    } else {
        text
    }
}

/// `text` without the copies of `prefix` at its start.
pub open spec fn trim_prefixes(text: Seq<char>, prefix: Seq<char>) -> Seq<char>
    decreases text.len(),
{
    if 0 < prefix.len() <= text.len() && prefix.is_prefix_of(text) {
        trim_prefixes(text.skip(prefix.len() as int), prefix)
    } else {
        text
    }
}

/// Whether `text` shows anything.
pub open spec fn is_visible(text: Seq<char>) -> bool {
    exists|i: int| 0 <= i < text.len() && !is_white_space(#[trigger] text[i])
}

/// The pieces of `text` between the characters `separator`.
pub open spec fn split(text: Seq<char>, separator: char) -> Seq<Seq<char>>
    decreases text.len(),
{
    if text.len() == 0 {
        seq![Seq::empty()]
    } else {
        let before = split(text.drop_last(), separator);
        if text.last() == separator {
            before.push(Seq::empty())
        } else {
            before.drop_last().push(before.last().push(text.last()))
        }
    }
}

/// The pieces, with `separator` between each two of them.
pub open spec fn join(pieces: Seq<Seq<char>>, separator: Seq<char>) -> Seq<char>
    decreases pieces.len(),
{
    if pieces.len() == 0 {
        Seq::empty()
    } else if pieces.len() == 1 {
        pieces[0]
    } else {
        join(pieces.drop_last(), separator) + separator + pieces.last()
    }
}

/// `line` without the carriage return that ends it.
pub open spec fn without_return(line: Seq<char>) -> Seq<char> {
    if line.len() > 0 && line.last() == '\r' {
        line.drop_last()
    } else {
        line
    }
}

/// The lines of `text`: each ends with a line feed, or a carriage return and a line feed,
/// which it does not hold; the last one may end with the text instead.
pub open spec fn lines(text: Seq<char>) -> Seq<Seq<char>> {
    let pieces = split(text, '\n');
    let ended = pieces.drop_last().map_values(|piece: Seq<char>| without_return(piece));
    if pieces.last().len() == 0 {
        ended
    } else {
        ended.push(pieces.last())
    }
}

/// `text` with each character `c` replaced by `by`.
pub open spec fn replace(text: Seq<char>, c: char, by: Seq<char>) -> Seq<char>
    decreases text.len(),
{
    if text.len() == 0 {
        Seq::empty()
    } else {
        replace(text.drop_last(), c, by) + (if text.last() == c {
            by
        } else {
            seq![text.last()]
        })
    }
}

/// The code point of `c`, or of its lower case where `c` is an ASCII capital.
pub open spec fn lower_code(c: char) -> int {
    if 'A' <= c <= 'Z' {
        c as int + 32
    } else {
        c as int
    }
}

/// Whether the texts are equal but for the case of ASCII letters.
pub open spec fn equal_ignoring_case(a: Seq<char>, b: Seq<char>) -> bool {
    &&& a.len() == b.len()
    &&& forall|i: int|
        #![trigger a[i]]
        #![trigger b[i]]
        0 <= i < a.len() ==> lower_code(a[i]) == lower_code(b[i])
}

/// The decimal digit for `d`.
pub open spec fn digit(d: nat) -> char {
    if d == 0 {
        '0'
    } else if d == 1 {
        '1'
    } else if d == 2 {
        '2'
    } else if d == 3 {
        '3'
    } else if d == 4 {
        '4'
    } else if d == 5 {
        '5'
    } else if d == 6 {
        '6'
    } else if d == 7 {
        '7'
    } else if d == 8 {
        '8'
    } else {
        '9'
    }
}

/// `n` in decimal.
pub open spec fn decimal(n: nat) -> Seq<char>
    decreases n,
{
    if n < 10 {
        seq![digit(n)]
    } else {
        decimal(n / 10).push(digit(n % 10))
    }
}

/// `n` in decimal, with a minus sign where it is negative.
pub open spec fn signed_decimal(n: int) -> Seq<char> {
    if n < 0 {
        seq!['-'] + decimal((-n) as nat)
    } else {
        decimal(n as nat)
    }
}

/// The texts that the strings hold.
pub open spec fn texts(strings: Seq<String>) -> Seq<Seq<char>> {
    strings.map_values(|s: String| s@)
}

/// What remains at the start of `text` once it is trimmed there.
pub proof fn lemma_trim_start(text: Seq<char>, from: int)
    requires
        0 <= from <= text.len(),
        forall|i: int| 0 <= i < from ==> is_white_space(#[trigger] text[i]),
    ensures
        trim_start(text) == trim_start(text.skip(from)),
    decreases from,
{
    if from > 0 {
        assert(is_white_space(text[0]));
        let rest = text.drop_first();
        assert forall|i: int| 0 <= i < from - 1 implies is_white_space(#[trigger] rest[i]) by {
            assert(rest[i] == text[i + 1]);
        }
        lemma_trim_start(rest, from - 1);
        assert(rest.skip(from - 1) =~= text.skip(from));
    } else {
        assert(text.skip(0) =~= text);
    }
}

/// A text shows something exactly where trimming it leaves something.
pub proof fn law_visible_text_survives_trimming(text: Seq<char>)
    ensures
        is_visible(text) <==> trim(text).len() > 0,
{
    lemma_trim_start_keeps_visible(text);
    lemma_trim_end_keeps_visible(trim_start(text));
}

proof fn lemma_trim_start_keeps_visible(text: Seq<char>)
    ensures
        is_visible(text) == is_visible(trim_start(text)),
    decreases text.len(),
{
    if text.len() > 0 && is_white_space(text[0]) {
        let rest = text.drop_first();
        lemma_trim_start_keeps_visible(rest);
        if is_visible(text) {
            let i = choose|i: int| 0 <= i < text.len() && !is_white_space(#[trigger] text[i]);
            assert(!is_white_space(rest[i - 1]));
        }
        if is_visible(rest) {
            let i = choose|i: int| 0 <= i < rest.len() && !is_white_space(#[trigger] rest[i]);
            assert(!is_white_space(text[i + 1]));
        }
    }
}

proof fn lemma_trim_end_keeps_visible(text: Seq<char>)
    ensures
        is_visible(text) <==> trim_end(text).len() > 0,
    decreases text.len(),
{
    if text.len() > 0 && is_white_space(text.last()) {
        let rest = text.drop_last();
        lemma_trim_end_keeps_visible(rest);
        if is_visible(text) {
            let i = choose|i: int| 0 <= i < text.len() && !is_white_space(#[trigger] text[i]);
            assert(!is_white_space(rest[i]));
        }
        if is_visible(rest) {
            let i = choose|i: int| 0 <= i < rest.len() && !is_white_space(#[trigger] rest[i]);
            assert(!is_white_space(text[i]));
        }
    } else if text.len() > 0 {
        assert(!is_white_space(text[text.len() - 1]));
    }
}

/// The characters of `text`.
pub fn chars_of(text: &str) -> (chars: Vec<char>)
    ensures
        chars@ == text@,
{
    let mut chars: Vec<char> = Vec::new();
    for c in it: text.chars()
        invariant
            chars@ == it.seq().take(it.index() as int),
            it.seq() == text@,
    {
        chars.push(c);
    }
    chars
}

/// The string that holds `chars[from..to]`.
pub fn string_of(chars: &Vec<char>, from: usize, to: usize) -> (text: String)
    requires
        from <= to <= chars@.len(),
    ensures
        text@ == chars@.subrange(from as int, to as int),
{
    let mut text = String::new();
    let mut i: usize = from;
    while i < to
        invariant
            from <= i <= to <= chars@.len(),
            text@ == chars@.subrange(from as int, i as int),
        decreases to - i,
    {
        text.push(chars[i]);
        i += 1;
    }
    text
}

/// The string with white space taken from both its ends.
pub fn trimmed(text: &str) -> (result: String)
    ensures
        result@ == trim(text@),
{
    let chars = chars_of(text);
    let mut from: usize = 0;
    while from < chars.len() && chars[from].is_whitespace()
        invariant
            from <= chars@.len(),
            chars@ == text@,
            forall|i: int| 0 <= i < from ==> is_white_space(#[trigger] text@[i]),
        decreases chars@.len() - from,
    {
        from += 1;
    }
    let mut to: usize = chars.len();
    proof {
        lemma_trim_start(text@, from as int);
        assert(text@.skip(from as int) =~= text@.subrange(from as int, to as int));
    }
    while to > from && chars[to - 1].is_whitespace()
        invariant
            from <= to <= chars@.len(),
            chars@ == text@,
            trim(text@) == trim_end(text@.subrange(from as int, to as int)),
        decreases to,
    {
        assert(text@.subrange(from as int, to as int).drop_last() =~= text@.subrange(
            from as int,
            to - 1,
        ));
        to -= 1;
    }
    string_of(&chars, from, to)
}

/// The string without the characters `c` at its end.
pub fn trimmed_end_of(text: &str, c: char) -> (result: String)
    ensures
        result@ == trim_end_of(text@, c),
{
    let chars = chars_of(text);
    let mut to: usize = chars.len();
    assert(text@ =~= text@.subrange(0, to as int));
    while to > 0 && chars[to - 1] == c
        invariant
            to <= chars@.len(),
            chars@ == text@,
            trim_end_of(text@, c) == trim_end_of(text@.subrange(0, to as int), c),
        decreases to,
    {
        assert(text@.subrange(0, to as int).drop_last() =~= text@.subrange(0, to - 1));
        to -= 1;
    }
    string_of(&chars, 0, to)
}

/// Whether the characters of `part` stand in `chars` from `from` on.
pub fn stands_in(chars: &Vec<char>, from: usize, part: &str) -> (yes: bool)
    requires
        from <= chars@.len(),
    ensures
        yes == part@.is_prefix_of(chars@.skip(from as int)),
{
    let total = chars.len();
    let ghost rest = chars@.skip(from as int);
    let mut i: usize = from;
    for c in it: part.chars()
        invariant
            from <= i <= total,
            total == chars@.len(),
            it.seq() == part@,
            i - from == it.index(),
            rest == chars@.skip(from as int),
            forall|j: int| 0 <= j < it.index() ==> part@[j] == rest[j],
    {
        if i >= total {
            return false;
        }
        if chars[i] != c {
            assert(rest[i - from] != part@[i - from]);
            assert(part@.len() <= rest.len() ==> rest.subrange(0, part@.len() as int)[i - from]
                != part@[i - from]);
            return false;
        }
        i += 1;
    }
    assert(rest.subrange(0, part@.len() as int) =~= part@);
    true
}

/// Whether `text` starts with `prefix`.
pub fn starts_with(text: &str, prefix: &str) -> (yes: bool)
    ensures
        yes == prefix@.is_prefix_of(text@),
{
    let chars = chars_of(text);
    assert(text@.skip(0) =~= text@);
    stands_in(&chars, 0, prefix)
}

/// Whether `text` ends with `suffix`.
pub fn ends_with(text: &str, suffix: &str) -> (yes: bool)
    ensures
        yes == suffix@.is_suffix_of(text@),
{
    let chars = chars_of(text);
    let length = suffix.unicode_len();
    if length > chars.len() {
        return false;
    }
    let from = chars.len() - length;
    let yes = stands_in(&chars, from, suffix);
    assert(text@.skip(from as int).subrange(0, suffix@.len() as int) =~= text@.skip(from as int));
    assert(text@.skip(from as int) =~= text@.subrange(from as int, text@.len() as int));
    yes
}

/// The string without the copies of `prefix` at its start.
pub fn trimmed_prefixes(text: &str, prefix: &str) -> (result: String)
    requires
        prefix@.len() > 0,
    ensures
        result@ == trim_prefixes(text@, prefix@),
{
    let chars = chars_of(text);
    let length = prefix.unicode_len();
    let total = chars.len();
    let mut from: usize = 0;
    assert(text@.skip(0) =~= text@);
    while stands_in(&chars, from, prefix)
        invariant
            from <= total,
            total == chars@.len(),
            chars@ == text@,
            length == prefix@.len(),
            length > 0,
            trim_prefixes(text@, prefix@) == trim_prefixes(text@.skip(from as int), prefix@),
        decreases chars@.len() - from,
    {
        assert(text@.skip(from as int).skip(prefix@.len() as int) =~= text@.skip(
            from + prefix@.len(),
        ));
        from += length;
    }
    assert(text@.skip(from as int) =~= text@.subrange(from as int, text@.len() as int));
    string_of(&chars, from, chars.len())
}

/// Whether `text` shows anything.
pub fn shows_something(text: &str) -> (yes: bool)
    ensures
        yes == is_visible(text@),
{
    let chars = chars_of(text);
    let mut i: usize = 0;
    while i < chars.len()
        invariant
            i <= chars@.len(),
            chars@ == text@,
            forall|j: int| 0 <= j < i ==> is_white_space(#[trigger] text@[j]),
        decreases chars@.len() - i,
    {
        if !chars[i].is_whitespace() {
            return true;
        }
        i += 1;
    }
    false
}

pub proof fn lemma_split_is_not_empty(text: Seq<char>, separator: char)
    ensures
        split(text, separator).len() > 0,
    decreases text.len(),
{
    if text.len() > 0 {
        lemma_split_is_not_empty(text.drop_last(), separator);
    }
}

/// The pieces of a text hold no separator, and joined by it they are the text again.
pub proof fn law_split_and_join(text: Seq<char>, separator: char)
    ensures
        join(split(text, separator), seq![separator]) == text,
        forall|i: int|
            0 <= i < split(text, separator).len() ==> !(#[trigger] split(text, separator)[i]).contains(
                separator,
            ),
    decreases text.len(),
{
    let pieces = split(text, separator);
    if text.len() == 0 {
        assert(join(pieces, seq![separator]) =~= text);
    } else {
        let before = split(text.drop_last(), separator);
        law_split_and_join(text.drop_last(), separator);
        lemma_split_is_not_empty(text.drop_last(), separator);
        if text.last() == separator {
            assert(pieces.drop_last() =~= before);
            assert(join(pieces, seq![separator]) =~= text);
            assert forall|i: int| 0 <= i < pieces.len() implies !(#[trigger] pieces[i]).contains(
                separator,
            ) by {
                if i < before.len() {
                    assert(pieces[i] == before[i]);
                }
            }
        } else {
            assert(pieces.drop_last() =~= before.drop_last());
            assert(join(pieces, seq![separator]) =~= join(before, seq![separator]).push(text.last()));
            assert(join(pieces, seq![separator]) =~= text);
            assert forall|i: int| 0 <= i < pieces.len() implies !(#[trigger] pieces[i]).contains(
                separator,
            ) by {
                assert(!before[i].contains(separator));
                if i < before.len() - 1 {
                    assert(pieces[i] == before[i]);
                } else if pieces[i].contains(separator) {
                    let k = choose|k: int| 0 <= k < pieces[i].len() && pieces[i][k] == separator;
                    assert(before[i][k] == separator);
                }
            }
        }
    }
}

/// The pieces of `text` between the characters `separator`.
pub fn split_at(text: &str, separator: char) -> (pieces: Vec<String>)
    ensures
        texts(pieces@) == split(text@, separator),
{
    let chars = chars_of(text);
    let mut pieces: Vec<String> = Vec::new();
    let mut from: usize = 0;
    let mut i: usize = 0;
    assert(text@.subrange(0, 0) =~= Seq::empty());
    assert(texts(pieces@).push(text@.subrange(0, 0)) =~= split(text@.take(0), separator));
    while i < chars.len()
        invariant
            from <= i <= chars@.len(),
            chars@ == text@,
            texts(pieces@).push(text@.subrange(from as int, i as int)) == split(
                text@.take(i as int),
                separator,
            ),
        decreases chars@.len() - i,
    {
        assert(text@.take(i + 1).drop_last() =~= text@.take(i as int));
        let ghost before = split(text@.take(i as int), separator);
        if chars[i] == separator {
            pieces.push(string_of(&chars, from, i));
            from = i + 1;
            assert(texts(pieces@) =~= before);
            assert(text@.subrange(from as int, i + 1) =~= Seq::empty());
        } else {
            assert(before.drop_last() =~= texts(pieces@));
            assert(text@.subrange(from as int, i + 1) =~= before.last().push(text@[i as int]));
        }
        i += 1;
    }
    pieces.push(string_of(&chars, from, chars.len()));
    assert(text@.take(text@.len() as int) =~= text@);
    assert(texts(pieces@) =~= split(text@, separator));
    pieces
}

/// The lines of `text`.
pub fn lines_of(text: &str) -> (result: Vec<String>)
    ensures
        texts(result@) == lines(text@),
{
    let pieces = split_at(text, '\n');
    proof {
        lemma_split_is_not_empty(text@, '\n');
    }
    let ghost all = split(text@, '\n');
    let last = pieces.len() - 1;
    let mut result: Vec<String> = Vec::new();
    let mut i: usize = 0;
    while i < last
        invariant
            i <= last,
            last + 1 == pieces@.len(),
            texts(pieces@) == all,
            texts(result@) == all.take(i as int).map_values(
                |piece: Seq<char>| without_return(piece),
            ),
        decreases last - i,
    {
        let chars = chars_of(pieces[i].as_str());
        assert(chars@ == all[i as int]);
        let end = if chars.len() > 0 && chars[chars.len() - 1] == '\r' {
            chars.len() - 1
        } else {
            chars.len()
        };
        assert(chars@.subrange(0, end as int) =~= without_return(all[i as int]));
        let ghost before = texts(result@);
        result.push(string_of(&chars, 0, end));
        assert(texts(result@) =~= before.push(without_return(all[i as int])));
        i += 1;
        assert(texts(result@) =~= all.take(i as int).map_values(
            |piece: Seq<char>| without_return(piece),
        ));
    }
    assert(all.take(last as int) =~= all.drop_last());
    assert(all.last() == pieces@[last as int]@);
    if !pieces[last].as_str().is_empty() {
        result.push(pieces[last].clone());
        assert(texts(result@) =~= lines(text@));
    }
    result
}

/// The strings, with `separator` between each two of them.
pub fn joined(pieces: &Vec<String>, separator: &str) -> (result: String)
    ensures
        result@ == join(texts(pieces@), separator@),
{
    let mut result = String::new();
    let mut i: usize = 0;
    let ghost all = texts(pieces@);
    while i < pieces.len()
        invariant
            i <= pieces@.len(),
            all == texts(pieces@),
            result@ == join(all.take(i as int), separator@),
        decreases pieces@.len() - i,
    {
        assert(all.take(i + 1).drop_last() =~= all.take(i as int));
        if i > 0 {
            result.append(separator);
        }
        result.append(pieces[i].as_str());
        i += 1;
        assert(result@ =~= join(all.take(i as int), separator@));
    }
    assert(all.take(pieces@.len() as int) =~= all);
    result
}

/// `text` with each character `c` replaced by `by`.
pub fn replaced(text: &str, c: char, by: &str) -> (result: String)
    ensures
        result@ == replace(text@, c, by@),
{
    let chars = chars_of(text);
    let mut result = String::new();
    let mut i: usize = 0;
    while i < chars.len()
        invariant
            i <= chars@.len(),
            chars@ == text@,
            result@ == replace(text@.take(i as int), c, by@),
        decreases chars@.len() - i,
    {
        assert(text@.take(i + 1).drop_last() =~= text@.take(i as int));
        if chars[i] == c {
            result.append(by);
        } else {
            result.push(chars[i]);
        }
        i += 1;
        assert(result@ =~= replace(text@.take(i as int), c, by@));
    }
    assert(text@.take(text@.len() as int) =~= text@);
    result
}

fn lower_code_of(c: char) -> (code: u32)
    ensures
        code == lower_code(c),
{
    if 'A' <= c && c <= 'Z' {
        c as u32 + 32
    } else {
        c as u32
    }
}

/// Whether the texts are equal but for the case of ASCII letters.
pub fn same_ignoring_case(a: &str, b: &str) -> (yes: bool)
    ensures
        yes == equal_ignoring_case(a@, b@),
{
    let left = chars_of(a);
    let right = chars_of(b);
    if left.len() != right.len() {
        return false;
    }
    let mut i: usize = 0;
    while i < left.len()
        invariant
            i <= left@.len(),
            left@.len() == right@.len(),
            left@ == a@,
            right@ == b@,
            forall|j: int|
                #![trigger a@[j]]
                #![trigger b@[j]]
                0 <= j < i ==> lower_code(a@[j]) == lower_code(b@[j]),
        decreases left@.len() - i,
    {
        if lower_code_of(left[i]) != lower_code_of(right[i]) {
            assert(lower_code(a@[i as int]) != lower_code(b@[i as int]));
            return false;
        }
        i += 1;
    }
    true
}

fn digit_of(d: u64) -> (c: char)
    requires
        d < 10,
    ensures
        c == digit(d as nat),
{
    if d == 0 {
        '0'
    } else if d == 1 {
        '1'
    } else if d == 2 {
        '2'
    } else if d == 3 {
        '3'
    } else if d == 4 {
        '4'
    } else if d == 5 {
        '5'
    } else if d == 6 {
        '6'
    } else if d == 7 {
        '7'
    } else if d == 8 {
        '8'
    } else {
        '9'
    }
}

/// `n` in decimal.
pub fn decimal_of(n: u64) -> (text: String)
    ensures
        text@ == decimal(n as nat),
    decreases n,
{
    if n < 10 {
        let mut text = String::new();
        text.push(digit_of(n));
        assert(text@ =~= seq![digit(n as nat)]);
        text
    } else {
        let mut text = decimal_of(n / 10);
        text.push(digit_of(n % 10));
        text
    }
}

/// `n` in decimal, with a minus sign where it is negative.
pub fn signed_decimal_of(n: i32) -> (text: String)
    ensures
        text@ == signed_decimal(n as int),
{
    if n < 0 {
        let mut text = String::new();
        text.push('-');
        let size: i64 = 0 - (n as i64);
        text.append(decimal_of(size as u64).as_str());
        assert(text@ =~= signed_decimal(n as int));
        text
    } else {
        decimal_of(n as u64)
    }
}

/// A text has no more characters than bytes.
pub proof fn lemma_bytes_bound_chars(text: Seq<char>)
    ensures
        text.len() <= encode_utf8(text).len(),
    decreases text.len(),
{
    if text.len() > 0 {
        lemma_bytes_bound_chars(text.drop_first());
    }
}

/// Trimming takes away all white space around a text that neither starts nor ends with any.
pub proof fn law_trim_takes_what_is_around(before: Seq<char>, text: Seq<char>, after: Seq<char>)
    requires
        forall|i: int| 0 <= i < before.len() ==> is_white_space(#[trigger] before[i]),
        forall|i: int| 0 <= i < after.len() ==> is_white_space(#[trigger] after[i]),
        text.len() > 0,
        !is_white_space(text[0]),
        !is_white_space(text.last()),
    ensures
        trim(before + text + after) == text,
{
    let whole = before + text + after;
    assert forall|i: int| 0 <= i < before.len() implies is_white_space(#[trigger] whole[i]) by {
        assert(before[i] == whole[i]);
    }
    lemma_trim_start(whole, before.len() as int);
    assert(whole.skip(before.len() as int) =~= text + after);
    assert((text + after)[0] == text[0]);
    assert(trim_start(whole) == text + after);
    lemma_trim_end_takes_all(text, after);
}

proof fn lemma_trim_end_takes_all(text: Seq<char>, after: Seq<char>)
    requires
        forall|i: int| 0 <= i < after.len() ==> is_white_space(#[trigger] after[i]),
        text.len() > 0,
        !is_white_space(text.last()),
    ensures
        trim_end(text + after) == text,
    decreases after.len(),
{
    if after.len() == 0 {
        assert(text + after =~= text);
    } else {
        assert(is_white_space(after[after.len() - 1]));
        let fewer = after.drop_last();
        assert forall|i: int| 0 <= i < fewer.len() implies is_white_space(#[trigger] fewer[i]) by {
            assert(fewer[i] == after[i]);
        }
        lemma_trim_end_takes_all(text, fewer);
        assert((text + after).drop_last() =~= text + fewer);
    }
}

/// Taking a character from the end takes all copies of it there, and nothing else.
pub proof fn law_trim_end_takes_all_copies(text: Seq<char>, c: char, copies: Seq<char>)
    requires
        text.len() == 0 || text.last() != c,
        forall|i: int| 0 <= i < copies.len() ==> #[trigger] copies[i] == c,
    ensures
        trim_end_of(text + copies, c) == text,
    decreases copies.len(),
{
    if copies.len() == 0 {
        assert(text + copies =~= text);
    } else {
        assert(copies[copies.len() - 1] == c);
        let fewer = copies.drop_last();
        assert forall|i: int| 0 <= i < fewer.len() implies #[trigger] fewer[i] == c by {
            assert(fewer[i] == copies[i]);
        }
        law_trim_end_takes_all_copies(text, c, fewer);
        assert((text + copies).drop_last() =~= text + fewer);
    }
}

/// Taking a prefix takes each copy of it at the start, and nothing else.
pub proof fn law_trim_prefixes_takes_all_copies(text: Seq<char>, prefix: Seq<char>)
    requires
        prefix.len() > 0,
    ensures
        trim_prefixes(prefix + text, prefix) == trim_prefixes(text, prefix),
        !prefix.is_prefix_of(text) ==> trim_prefixes(text, prefix) == text,
{
    let whole = prefix + text;
    assert(whole.subrange(0, prefix.len() as int) =~= prefix);
    assert(whole.skip(prefix.len() as int) =~= text);
}

/// Pieces that are joined in two groups have the separator between the groups, too. One piece is
/// joined to itself, and no piece to nothing.
pub proof fn law_join_of_both(first: Seq<Seq<char>>, second: Seq<Seq<char>>, separator: Seq<char>)
    ensures
        first.len() > 0 && second.len() > 0 ==> join(first + second, separator) == join(
            first,
            separator,
        ) + separator + join(second, separator),
        first.len() == 1 ==> join(first, separator) == first[0],
        first.len() == 0 ==> join(first, separator) == Seq::<char>::empty(),
    decreases second.len(),
{
    if first.len() > 0 && second.len() > 0 {
        let both = first + second;
        assert(both.drop_last() =~= first + second.drop_last());
        if second.len() == 1 {
            assert(first + second.drop_last() =~= first);
        } else {
            law_join_of_both(first, second.drop_last(), separator);
            assert(join(both, separator) =~= join(first, separator) + separator + join(
                second,
                separator,
            ));
        }
    }
}

/// A text is split at its first separator, and then behind it. A text without one is one piece.
pub proof fn law_split_at_the_first(first: Seq<char>, separator: char, rest: Seq<char>)
    requires
        !first.contains(separator),
    ensures
        split(first, separator) == seq![first],
        split(first + seq![separator] + rest, separator) == seq![first] + split(rest, separator),
    decreases rest.len(),
{
    lemma_split_of_one(first, separator);
    let whole = first + seq![separator] + rest;
    if rest.len() == 0 {
        assert(whole.drop_last() =~= first);
        assert(split(whole, separator) =~= seq![first] + split(rest, separator));
    } else {
        law_split_at_the_first(first, separator, rest.drop_last());
        lemma_split_is_not_empty(rest.drop_last(), separator);
        assert(whole.drop_last() =~= first + seq![separator] + rest.drop_last());
        assert(split(whole, separator) =~= seq![first] + split(rest, separator));
    }
}

proof fn lemma_split_of_one(text: Seq<char>, separator: char)
    requires
        !text.contains(separator),
    ensures
        split(text, separator) == seq![text],
    decreases text.len(),
{
    if text.len() == 0 {
        assert(text =~= Seq::empty());
    } else {
        let before = text.drop_last();
        assert(!before.contains(separator)) by {
            if before.contains(separator) {
                let i = choose|i: int| 0 <= i < before.len() && before[i] == separator;
                assert(text[i] == separator);
            }
        }
        lemma_split_of_one(before, separator);
        assert(text[text.len() - 1] != separator);
        assert(before.push(text.last()) =~= text);
        assert(split(text, separator) =~= seq![text]);
    }
}

/// The lines of a text are what stands before its first line feed, without one carriage return at
/// the end, and then the lines behind it. What no line feed ends is a line as it stands, unless it is
/// empty.
pub proof fn law_lines_end_with_line_feeds(first: Seq<char>, rest: Seq<char>)
    requires
        !first.contains('\n'),
    ensures
        lines(first + seq!['\n'] + rest) == seq![
            if first.len() > 0 && first.last() == '\r' {
                first.drop_last()
            } else {
                first
            },
        ] + lines(rest),
        first.len() > 0 ==> lines(first) == seq![first],
        first.len() == 0 ==> lines(first) == Seq::<Seq<char>>::empty(),
{
    law_split_at_the_first(first, '\n', rest);
    lemma_split_is_not_empty(rest, '\n');
    let whole = first + seq!['\n'] + rest;
    let pieces = split(rest, '\n');
    assert((seq![first] + pieces).drop_last() =~= seq![first] + pieces.drop_last());
    assert(lines(whole) =~= seq![without_return(first)] + lines(rest));
    assert(seq![first].drop_last() =~= Seq::empty());
    if first.len() > 0 {
        assert(lines(first) =~= seq![first]);
    } else {
        assert(lines(first) =~= Seq::empty());
    }
}

/// Replacing goes character by character: each `c` becomes `by`, each other one stays.
pub proof fn law_replace_goes_by_character(
    first: Seq<char>,
    second: Seq<char>,
    c: char,
    by: Seq<char>,
    other: char,
)
    ensures
        replace(first + second, c, by) == replace(first, c, by) + replace(second, c, by),
        replace(seq![c], c, by) == by,
        other != c ==> replace(seq![other], c, by) == seq![other],
        replace(Seq::empty(), c, by) == Seq::<char>::empty(),
    decreases second.len(),
{
    assert(seq![c].drop_last() =~= Seq::empty());
    assert(seq![other].drop_last() =~= Seq::empty());
    assert(replace(Seq::empty(), c, by) =~= Seq::empty());
    assert(replace(seq![c], c, by) =~= by);
    if other != c {
        assert(replace(seq![other], c, by) =~= seq![other]);
    }
    if second.len() == 0 {
        assert(first + second =~= first);
        assert(replace(first, c, by) + replace(second, c, by) =~= replace(first, c, by));
    } else {
        law_replace_goes_by_character(first, second.drop_last(), c, by, other);
        assert((first + second).drop_last() =~= first + second.drop_last());
        assert(replace(first + second, c, by) =~= replace(first, c, by) + replace(second, c, by));
    }
}

/// Texts are equal but for case where each two characters are the same, or an ASCII capital and its
/// small letter.
pub proof fn law_equal_but_for_case(a: Seq<char>, b: Seq<char>)
    ensures
        equal_ignoring_case(a, b) <==> a.len() == b.len() && forall|i: int|
            #![trigger a[i]]
            0 <= i < a.len() ==> {
                ||| a[i] == b[i]
                ||| 'A' <= a[i] <= 'Z' && b[i] as int == a[i] as int + 32
                ||| 'A' <= b[i] <= 'Z' && a[i] as int == b[i] as int + 32
            },
{
    if a.len() == b.len() {
        assert forall|i: int| 0 <= i < a.len() implies (lower_code(#[trigger] a[i]) == lower_code(
            b[i],
        ) <==> {
            ||| a[i] == b[i]
            ||| 'A' <= a[i] <= 'Z' && b[i] as int == a[i] as int + 32
            ||| 'A' <= b[i] <= 'Z' && a[i] as int == b[i] as int + 32
        }) by {}
    }
}

/// The number that decimal digits stand for.
pub open spec fn number(digits: Seq<char>) -> int
    decreases digits.len(),
{
    if digits.len() == 0 {
        0
    } else {
        10 * number(digits.drop_last()) + (digits.last() as int - '0' as int)
    }
}

/// A number that was written in decimal is read back: it is written with digits alone, and the first
/// is a zero only where it is the only one.
pub proof fn law_decimal_is_read_back(n: nat)
    ensures
        number(decimal(n)) == n,
        decimal(n).len() > 0,
        forall|i: int| 0 <= i < decimal(n).len() ==> '0' <= #[trigger] decimal(n)[i] <= '9',
        decimal(n)[0] == '0' ==> n == 0 && decimal(n).len() == 1,
    decreases n,
{
    if n < 10 {
        assert(seq![digit(n)].drop_last() =~= Seq::empty());
        assert(number(seq![digit(n)].drop_last()) == 0);
    } else {
        law_decimal_is_read_back(n / 10);
        let before = decimal(n / 10);
        assert(before.push(digit(n % 10)).drop_last() =~= before);
        assert(decimal(n)[0] == before[0]);
        assert forall|i: int| 0 <= i < decimal(n).len() implies '0' <= #[trigger] decimal(n)[i]
            <= '9' by {
            if i < before.len() {
                assert(decimal(n)[i] == before[i]);
            }
        }
    }
}

/// A number below zero is written as a minus sign and the number without its sign.
pub proof fn law_signed_decimal_has_a_sign(n: nat)
    ensures
        signed_decimal(n as int) == decimal(n),
        n > 0 ==> signed_decimal(-n) == seq!['-'] + decimal(n),
{
}

/// The texts of strings are those of each string, in their order.
pub proof fn law_texts_are_of_each(strings: Seq<String>)
    ensures
        texts(strings).len() == strings.len(),
        forall|i: int| 0 <= i < strings.len() ==> #[trigger] texts(strings)[i] == strings[i]@,
{
}

/// A text is visible where it has a character that is not white space.
pub proof fn law_visible_text_has_a_character(text: Seq<char>, i: int)
    requires
        0 <= i < text.len(),
        !is_white_space(text[i]),
    ensures
        is_visible(text),
        trim(text).len() > 0,
{
    law_visible_text_survives_trimming(text);
}

} // verus!
