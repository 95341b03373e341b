//! Reading one cookie out of a `Cookie` request header.
//!
//! The header is a list of `name=value` pairs separated by `;`. Blanks around
//! a pair do not count. Only headers made of ASCII characters are read.

use crate::search::{first_true, lemma_first_true_is};
use vstd::prelude::*;
use vstd::string::*;
use vstd::utf8::is_ascii_chars;

verus! {

/// The ASCII code of the space.
const SPACE: u8 = 32;

/// The ASCII code of the tabulator.
const TAB: u8 = 9;

/// The ASCII code of `=`.
const EQUALS: u8 = 61;

/// The ASCII code of `;`.
const SEMICOLON: u8 = 59;

/// The ASCII code of the double quote.
pub(crate) const QUOTE: u8 = 34;

/// For each character, whether it is `c`.
pub open spec fn char_flags(text: Seq<char>, c: char) -> Seq<bool> {
    Seq::new(text.len(), |i: int| text[i] == c)
}

/// Index of the first `c` in the text, or the length of the text when it has
/// none.
pub open spec fn index_of(text: Seq<char>, c: char) -> int {
    first_true(char_flags(text, c))
}

/// For each character, whether it is neither `a` nor `b`.
pub open spec fn kept_flags(text: Seq<char>, a: char, b: char) -> Seq<bool> {
    Seq::new(text.len(), |i: int| text[i] != a && text[i] != b)
}

/// For each character from the end backwards, whether it is neither `a` nor
/// `b`.
pub open spec fn kept_flags_back(text: Seq<char>, a: char, b: char) -> Seq<bool> {
    Seq::new(text.len(), |i: int| text[text.len() - 1 - i] != a && text[text.len() - 1 - i] != b)
}

/// The text without the characters `a` and `b` at its start.
pub open spec fn trim_start(text: Seq<char>, a: char, b: char) -> Seq<char> {
    text.skip(first_true(kept_flags(text, a, b)))
}

/// The text without the characters `a` and `b` at its end.
pub open spec fn trim_end(text: Seq<char>, a: char, b: char) -> Seq<char> {
    text.take(text.len() - first_true(kept_flags_back(text, a, b)))
}

/// The text without the characters `a` and `b` at its start and at its end.
pub open spec fn trim(text: Seq<char>, a: char, b: char) -> Seq<char> {
    trim_end(trim_start(text, a, b), a, b)
}

/// Index of the first `c` in an ASCII text, or the length of the text.
fn find_char(text: &str, c: u8) -> (index: usize)
    requires
        text.is_ascii(),
        c < 128,
    ensures
        index == index_of(text@, c as char),
        index <= text@.len(),
{
    broadcast use is_ascii_spec_bytes;

    let bytes = text.as_bytes();
    let ghost flags = char_flags(text@, c as char);
    let mut i: usize = 0;
    while i < bytes.len()
        invariant
            0 <= i <= bytes@.len(),
            text.is_ascii(),
            c < 128,
            bytes@ == text.spec_bytes(),
            bytes@.len() == text@.len(),
            flags == char_flags(text@, c as char),
            forall|j: int| 0 <= j < i ==> !#[trigger] flags[j],
        decreases bytes@.len() - i,
    {
        if bytes[i] == c {
            proof {
                lemma_first_true_is(flags, i as int);
            }
            return i;
        }
        i += 1;
    }
    proof {
        lemma_first_true_is(flags, i as int);
    }
    i
}

/// Number of characters at the start of an ASCII text that are `a` or `b`.
fn count_front(text: &str, a: u8, b: u8) -> (count: usize)
    requires
        text.is_ascii(),
        a < 128,
        b < 128,
    ensures
        count == first_true(kept_flags(text@, a as char, b as char)),
        count <= text@.len(),
{
    broadcast use is_ascii_spec_bytes;

    let bytes = text.as_bytes();
    let ghost flags = kept_flags(text@, a as char, b as char);
    let mut i: usize = 0;
    while i < bytes.len()
        invariant
            0 <= i <= bytes@.len(),
            text.is_ascii(),
            a < 128,
            b < 128,
            bytes@ == text.spec_bytes(),
            bytes@.len() == text@.len(),
            flags == kept_flags(text@, a as char, b as char),
            forall|j: int| 0 <= j < i ==> !#[trigger] flags[j],
        decreases bytes@.len() - i,
    {
        if bytes[i] != a && bytes[i] != b {
            proof {
                lemma_first_true_is(flags, i as int);
            }
            return i;
        }
        i += 1;
    }
    proof {
        lemma_first_true_is(flags, i as int);
    }
    i
}

/// Number of characters at the end of an ASCII text that are `a` or `b`.
fn count_back(text: &str, a: u8, b: u8) -> (count: usize)
    requires
        text.is_ascii(),
        a < 128,
        b < 128,
    ensures
        count == first_true(kept_flags_back(text@, a as char, b as char)),
        count <= text@.len(),
{
    broadcast use is_ascii_spec_bytes;

    let bytes = text.as_bytes();
    let ghost flags = kept_flags_back(text@, a as char, b as char);
    let mut i: usize = 0;
    while i < bytes.len()
        invariant
            0 <= i <= bytes@.len(),
            text.is_ascii(),
            a < 128,
            b < 128,
            bytes@ == text.spec_bytes(),
            bytes@.len() == text@.len(),
            flags == kept_flags_back(text@, a as char, b as char),
            forall|j: int| 0 <= j < i ==> !#[trigger] flags[j],
        decreases bytes@.len() - i,
    {
        let at = bytes.len() - 1 - i;
        if bytes[at] != a && bytes[at] != b {
            proof {
                lemma_first_true_is(flags, i as int);
            }
            return i;
        }
        i += 1;
    }
    proof {
        lemma_first_true_is(flags, i as int);
    }
    i
}

/// Number of characters of an ASCII text.
fn ascii_len(text: &str) -> (len: usize)
    requires
        text.is_ascii(),
    ensures
        len == text@.len(),
{
    broadcast use is_ascii_spec_bytes;

    text.as_bytes().len()
}

/// The part of an ASCII text that is left when the characters `a` and `b` are
/// taken from its start and from its end.
pub(crate) fn trim_ascii<'a>(text: &'a str, a: u8, b: u8) -> (rest: &'a str)
    requires
        text.is_ascii(),
        a < 128,
        b < 128,
    ensures
        rest@ == trim(text@, a as char, b as char),
        rest.is_ascii(),
{
    let front = count_front(text, a, b);
    let tail = text.substring_ascii(front, ascii_len(text));
    let back = count_back(tail, a, b);
    tail.substring_ascii(0, ascii_len(tail) - back)
}

/// The blank characters that may stand around a cookie pair.
pub open spec fn unblanked(text: Seq<char>) -> Seq<char> {
    trim(text, ' ', '\t')
}

/// The value of one cookie pair when the pair is for `name`: what follows the
/// first `=`, when what stands before it is `name`.
pub open spec fn pair_value(pair: Seq<char>, name: Seq<char>) -> Option<Seq<char>> {
    let text = unblanked(pair);
    let eq = index_of(text, '=');
    if eq < text.len() && text.take(eq) == name {
        Some(text.skip(eq + 1))
    } else {
        None
    }
}

/// The value of the first pair for `name` in a cookie header.
pub open spec fn cookie_value(header: Seq<char>, name: Seq<char>) -> Option<Seq<char>>
    decreases header.len(),
{
    let end = index_of(header, ';');
    let first = pair_value(header.take(end), name);
    if first is Some {
        first
    } else if 0 <= end < header.len() {
        cookie_value(header.skip(end + 1), name)
    } else {
        None
    }
}

/// Reads one pair of an ASCII cookie header.
fn read_pair(pair: &str, name: &String) -> (value: Option<String>)
    requires
        pair.is_ascii(),
    ensures
        match value {
            Some(text) => pair_value(pair@, name@) == Some(text@) && text.is_ascii(),
            None => pair_value(pair@, name@) is None,
        },
{
    let text = trim_ascii(pair, SPACE, TAB);
    let eq = find_char(text, EQUALS);
    let len = ascii_len(text);
    if eq < len {
        let before = String::from_str(text.substring_ascii(0, eq));
        if before == *name {
            return Some(String::from_str(text.substring_ascii(eq + 1, len)));
        }
    }
    None
}

/// The value of the first pair for `name` in a cookie header that is made of
/// ASCII characters. Any other header has no readable pair.
pub open spec fn cookie_of(header: Seq<char>, name: Seq<char>) -> Option<Seq<char>> {
    if is_ascii_chars(header) {
        cookie_value(header, name)
    } else {
        None
    }
}

/// Reads the value of the first pair for `name` out of an ASCII cookie
/// header.
fn read_ascii_cookie(header: &str, name: &String) -> (value: Option<String>)
    requires
        header.is_ascii(),
    ensures
        match value {
            Some(text) => cookie_value(header@, name@) == Some(text@) && text.is_ascii(),
            None => cookie_value(header@, name@) is None,
        },
{
    let mut rest = header;
    loop
        invariant
            rest.is_ascii(),
            cookie_value(header@, name@) == cookie_value(rest@, name@),
        decreases rest@.len(),
    {
        let end = find_char(rest, SEMICOLON);
        let len = ascii_len(rest);
        let found = read_pair(rest.substring_ascii(0, end), name);
        if found.is_some() {
            return found;
        }
        if end >= len {
            return None;
        }
        rest = rest.substring_ascii(end + 1, len);
    }
}

/// Reads the value of the first pair for `name` out of a cookie header.
pub fn read_cookie(header: &str, name: &str) -> (value: Option<String>)
    ensures
        match value {
            Some(text) => cookie_of(header@, name@) == Some(text@) && text.is_ascii(),
            None => cookie_of(header@, name@) is None,
        },
{
    if header.is_ascii() {
        let key: String = name.to_owned();
        read_ascii_cookie(header, &key)
    } else {
        None
    }
}

} // verus!
