//! Byte offsets of the characters of a text, in UTF-8.
use vstd::prelude::*;
use vstd::utf8::{
    char_is_scalar, encode_scalar, encode_utf8, encode_utf8_first_scalar, encode_utf8_valid_utf8,
    is_char_boundary, pop_first_scalar,
};
use crate::text::chars_of;

verus! {

/// The number of bytes that `c` takes.
pub open spec fn width(c: char) -> nat {
    encode_scalar(c as u32).len()
}

/// The byte offset of character `k` of `text`, or of its end.
pub open spec fn byte_offset(text: Seq<char>, k: int) -> int {
    encode_utf8(text.take(k)).len() as int
}

pub proof fn lemma_encode_push(text: Seq<char>, c: char)
    ensures
        encode_utf8(text.push(c)) == encode_utf8(text) + encode_scalar(c as u32),
    decreases text.len(),
{
    if text.len() == 0 {
        assert(text.push(c).drop_first() =~= Seq::empty());
        assert(encode_utf8(text.push(c)) =~= encode_scalar(c as u32) + encode_utf8(Seq::empty()));
        assert(encode_utf8(text.push(c)) =~= encode_utf8(text) + encode_scalar(c as u32));
    } else {
        lemma_encode_push(text.drop_first(), c);
        assert(text.push(c).drop_first() =~= text.drop_first().push(c));
        assert(encode_utf8(text.push(c)) =~= encode_utf8(text) + encode_scalar(c as u32));
    }
}

pub proof fn lemma_next_offset(text: Seq<char>, k: int)
    requires
        0 <= k < text.len(),
    ensures
        byte_offset(text, k + 1) == byte_offset(text, k) + width(text[k]),
        1 <= width(text[k]) <= 4,
{
    assert(text.take(k + 1) =~= text.take(k).push(text[k]));
    lemma_encode_push(text.take(k), text[k]);
    char_is_scalar(text[k]);
}

pub proof fn lemma_offsets_increase(text: Seq<char>, j: int, k: int)
    requires
        0 <= j <= k <= text.len(),
    ensures
        byte_offset(text, j) + (k - j) <= byte_offset(text, k),
    decreases k - j,
{
    if j < k {
        lemma_offsets_increase(text, j, k - 1);
        lemma_next_offset(text, k - 1);
    }
}

pub proof fn lemma_last_offset(text: Seq<char>)
    ensures
        byte_offset(text, 0) == 0,
        byte_offset(text, text.len() as int) == encode_utf8(text).len(),
{
    assert(text.take(0) =~= Seq::empty());
    assert(text.take(text.len() as int) =~= text);
}

/// A place between characters is the offset of a character, or of the end.
pub proof fn lemma_boundary_is_offset(text: Seq<char>, at: int) -> (k: int)
    requires
        is_char_boundary(encode_utf8(text), at),
    ensures
        0 <= k <= text.len(),
        byte_offset(text, k) == at,
    decreases text.len(),
{
    let bytes = encode_utf8(text);
    encode_utf8_valid_utf8(text);
    if at == 0 {
        assert(text.take(0) =~= Seq::empty());
        0
    } else {
        encode_utf8_first_scalar(text);
        let rest = text.drop_first();
        assert(pop_first_scalar(bytes) =~= encode_utf8(rest));
        let size = width(text[0]) as int;
        let k = lemma_boundary_is_offset(rest, at - size);
        assert(text.take(k + 1).drop_first() =~= rest.take(k));
        k + 1
    }
}

fn width_of(c: char) -> (size: usize)
    ensures
        size == width(c),
{
    proof {
        char_is_scalar(c);
    }
    let code = c as u32;
    if code < 0x80 {
        1
    } else if code < 0x800 {
        2
    } else if code < 0x10000 {
        3
    } else {
        4
    }
}

/// The byte offset of character `char_idx`, or of the end where there are fewer characters.
pub fn char_to_byte_idx(input: &str, char_idx: usize) -> (at: usize)
    ensures
        at == byte_offset(
            input@,
            if char_idx < input@.len() {
                char_idx as int
            } else {
                input@.len() as int
            },
        ),
{
    let chars = chars_of(input);
    let bound = input.as_bytes().len();
    let mut at: usize = 0;
    let mut i: usize = 0;
    proof {
        lemma_last_offset(input@);
    }
    while i < chars.len() && i < char_idx
        invariant
            i <= chars@.len(),
            i <= char_idx,
            chars@ == input@,
            at == byte_offset(input@, i as int),
            bound == encode_utf8(input@).len(),
        decreases chars@.len() - i,
    {
        proof {
            lemma_next_offset(input@, i as int);
            lemma_offsets_increase(input@, i + 1, input@.len() as int);
            lemma_last_offset(input@);
        }
        at += width_of(chars[i]);
        i += 1;
    }
    at
}

/// The character whose byte offset is `at`, or the number of characters where that is the end.
pub fn byte_to_char_idx(input: &str, at: usize) -> (k: usize)
    requires
        is_char_boundary(encode_utf8(input@), at as int),
    ensures
        k <= input@.len(),
        byte_offset(input@, k as int) == at,
{
    let chars = chars_of(input);
    let total = chars.len();
    let bound = input.as_bytes().len();
    let ghost target = lemma_boundary_is_offset(input@, at as int);
    let mut offset: usize = 0;
    let mut i: usize = 0;
    proof {
        lemma_last_offset(input@);
    }
    while offset < at
        invariant
            i <= total,
            total == chars@.len(),
            chars@ == input@,
            0 <= target <= input@.len(),
            byte_offset(input@, target) == at,
            offset == byte_offset(input@, i as int),
            i <= target,
            bound == encode_utf8(input@).len(),
        decreases total - i,
    {
        proof {
            lemma_next_offset(input@, i as int);
            lemma_offsets_increase(input@, i + 1, input@.len() as int);
            lemma_offsets_increase(input@, i + 1, target);
            lemma_last_offset(input@);
        }
        offset += width_of(chars[i]);
        i += 1;
    }
    proof {
        lemma_offsets_increase(input@, i as int, target);
    }
    i
}

/// The first character stands at byte 0, and each character takes one to four bytes, by its code point.
pub proof fn law_offsets_go_by_code_points(text: Seq<char>, k: int)
    requires
        0 <= k < text.len(),
    ensures
        byte_offset(text, 0) == 0,
        byte_offset(text, k + 1) == byte_offset(text, k) + if text[k] as u32 <= 0x7f {
            1int
        } else if text[k] as u32 <= 0x7ff {
            2int
        } else if text[k] as u32 <= 0xffff {
            3int
        } else {
            4int
        },
{
    lemma_last_offset(text);
    lemma_next_offset(text, k);
    char_is_scalar(text[k]);
}

} // verus!
