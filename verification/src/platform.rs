//! What the library takes from the standard library and from `url` without proof.
use vstd::prelude::*;
use crate::views::viewed;

verus! {

/// Whether `c` has the Unicode property `White_Space`.
pub open spec fn is_white_space(c: char) -> bool {
    ||| '\u{9}' <= c <= '\u{d}'
    ||| c == ' '
    ||| c == '\u{85}'
    ||| c == '\u{a0}'
    ||| c == '\u{1680}'
    ||| '\u{2000}' <= c <= '\u{200a}'
    ||| c == '\u{2028}'
    ||| c == '\u{2029}'
    ||| c == '\u{202f}'
    ||| c == '\u{205f}'
    ||| c == '\u{3000}'
}

/// [`char::is_whitespace`] tells whether the character has the Unicode property `White_Space`.
pub assume_specification[ char::is_whitespace ](c: char) -> (yes: bool)
    ensures
        yes == is_white_space(c),
;

/// [`String::push`] appends one character to the end of the string.
pub assume_specification[ String::push ](s: &mut String, c: char)
    ensures
        final(s)@ == old(s)@.push(c),
;

/// The serialization of the URL that `Url::parse` reads from a text, if it reads one.
pub uninterp spec fn url_serialization(text: Seq<char>) -> Option<Seq<char>>;

/// [`url::Url::parse`], and the text of what it read by `From<Url> for String`.
///
/// Whether the text is a URL, and how that URL is written out, depends on the text alone. How URLs
/// are told from other texts is not stated.
#[verifier::external_body]
pub(crate) fn parse_url(text: &str) -> (url: Option<String>)
    ensures
        viewed(url) == url_serialization(text@),
{
    match url::Url::parse(text) {
        Ok(parsed) => Some(String::from(parsed)),
        Err(_) => None,
    }
}

} // verus!
