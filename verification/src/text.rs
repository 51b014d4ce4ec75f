//! Character classes and string comparison used by pattern matching.
//!
//! The character classes are deliberately ASCII: an integer-typed
//! placeholder accepts exactly `0`–`9`, and a string-typed placeholder
//! exactly ASCII letters, ASCII digits and `_`.  Digits and letters of
//! other scripts do not match a placeholder, so the classes are fixed
//! sets that the contracts state character by character, independent of
//! any Unicode tables.

use vstd::prelude::*;
use vstd::string::StrSliceExecFns;

verus! {

/// An ASCII decimal digit, the only characters an integer-typed
/// placeholder accepts; digits of other scripts do not match.
pub open spec fn is_digit(c: char) -> bool {
    '0' <= c <= '9'
}

/// An ASCII word character — letter, digit or underscore — the
/// characters a string-typed placeholder accepts; letters of other
/// scripts do not match.
pub open spec fn is_word(c: char) -> bool {
    is_digit(c) || ('a' <= c <= 'z') || ('A' <= c <= 'Z') || c == '_'
}

/// Decides `is_digit`.
pub fn digit_char(c: char) -> (r: bool)
    ensures
        r == is_digit(c),
{
    '0' <= c && c <= '9'
}

/// Decides `is_word`.
pub fn word_char(c: char) -> (r: bool)
    ensures
        r == is_word(c),
{
    digit_char(c) || ('a' <= c && c <= 'z') || ('A' <= c && c <= 'Z') || c == '_'
}

/// Decides whether a string is one or more decimal digits.
pub fn all_digits(s: &str) -> (r: bool)
    ensures
        r == (s@.len() >= 1 && (forall|i: int| 0 <= i < s@.len() ==> is_digit(s@[i]))),
{
    let n = s.unicode_len();
    if n == 0 {
        return false;
    }
    for i in 0..n
        invariant
            n == s@.len(),
            forall|j: int| 0 <= j < i ==> is_digit(s@[j]),
    {
        if !digit_char(s.get_char(i)) {
            return false;
        }
    }
    true
}

/// Decides whether a string is one or more word characters.
pub fn all_words(s: &str) -> (r: bool)
    ensures
        r == (s@.len() >= 1 && (forall|i: int| 0 <= i < s@.len() ==> is_word(s@[i]))),
{
    let n = s.unicode_len();
    if n == 0 {
        return false;
    }
    for i in 0..n
        invariant
            n == s@.len(),
            forall|j: int| 0 <= j < i ==> is_word(s@[j]),
    {
        if !word_char(s.get_char(i)) {
            return false;
        }
    }
    true
}

/// Character-for-character string equality.
pub fn str_eq(a: &str, b: &str) -> (r: bool)
    ensures
        r == (a@ == b@),
{
    let an = a.unicode_len();
    let bn = b.unicode_len();
    if an != bn {
        proof {
            assert(a@ != b@);
        }
        return false;
    }
    for i in 0..an
        invariant
            an == a@.len(),
            an == b@.len(),
            forall|j: int| 0 <= j < i ==> a@[j] == b@[j],
    {
        if a.get_char(i) != b.get_char(i) {
            return false;
        }
    }
    proof {
        assert(a@ =~= b@);
    }
    true
}

} // verus!
