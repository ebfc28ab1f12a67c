//! Case folding of letters and text.
//!
//! Lookups compare text in upper case. ASCII text is folded byte-wise, and
//! the result is known exactly; any other text goes through the Unicode
//! mapping of the standard library, whose result is only given a name here.

use vstd::prelude::*;
use vstd::utf8::is_ascii_chars;

verus! {

/// The upper-case form of an ASCII letter; every other character is itself.
pub open spec fn letter_upper(c: char) -> char {
    if 'a' <= c && c <= 'z' {
        ((c as u8) - 32) as char
    } else {
        c
    }
}

/// `c` is one of `'A'..='Z'`.
pub open spec fn spec_is_capital(c: char) -> bool {
    'A' <= c && c <= 'Z'
}

/// `c` is an ASCII letter of either case.
pub open spec fn spec_is_letter(c: char) -> bool {
    ('a' <= c && c <= 'z') || ('A' <= c && c <= 'Z')
}

/// Whether `c` is one of `'A'..='Z'`.
#[verifier::when_used_as_spec(spec_is_capital)]
pub fn is_capital(c: char) -> (r: bool)
    ensures
        r == spec_is_capital(c),
{
    'A' <= c && c <= 'Z'
}

/// Whether `c` is an ASCII letter of either case.
#[verifier::when_used_as_spec(spec_is_letter)]
pub fn is_letter(c: char) -> (r: bool)
    ensures
        r == spec_is_letter(c),
{
    ('a' <= c && c <= 'z') || ('A' <= c && c <= 'Z')
}

/// What `str::to_uppercase` returns for the text `s`.
pub uninterp spec fn unicode_upper(s: Seq<char>) -> Seq<char>;

/// What `char::to_uppercase` yields for the character `c`.
pub uninterp spec fn unicode_upper_char(c: char) -> Seq<char>;

/// The upper-case form of a text.
pub open spec fn uppercase(s: Seq<char>) -> Seq<char> {
    if is_ascii_chars(s) {
        s.map_values(|c: char| letter_upper(c))
    } else {
        unicode_upper(s)
    }
}

/// The upper-case form of one character, which may be several characters.
pub open spec fn char_uppercase(c: char) -> Seq<char> {
    if c <= '\u{7f}' {
        seq![letter_upper(c)]
    } else {
        unicode_upper_char(c)
    }
}

/// Folds an ASCII letter to upper case.
pub fn upper_letter(c: char) -> (r: char)
    ensures
        r == letter_upper(c),
{
    if 'a' <= c && c <= 'z' {
        ((c as u8) - 32) as char
    } else {
        c
    }
}

/// `str::to_ascii_uppercase`: a copy of `s` in which the letters `a` to `z`
/// are replaced by `A` to `Z` and every other character is kept.
#[verifier::external_body]
fn ascii_to_upper(s: &str) -> (r: String)
    ensures
        r@ == s@.map_values(|c: char| letter_upper(c)),
{
    s.to_ascii_uppercase()
}

/// `str::to_uppercase`: the Unicode upper-case form of `s`. The mapping is
/// not written out; the result is the same for the same text.
#[verifier::external_body]
fn unicode_to_upper(s: &str) -> (r: String)
    ensures
        r@ == unicode_upper(s@),
{
    s.to_uppercase()
}

/// `char::to_uppercase`, collected into a string: the characters that the
/// Unicode mapping gives for `c`. The mapping is not written out.
#[verifier::external_body]
fn unicode_char_to_upper(c: char) -> (r: String)
    ensures
        r@ == unicode_upper_char(c),
{
    c.to_uppercase().collect()
}

/// The text made of the one character `c`.
pub fn string_of_char(c: char) -> (r: String)
    ensures
        r@ == seq![c],
{
    let mut r = String::new();
    push_char(&mut r, c);
    r
}

/// `String::push`: puts `c` behind the text.
#[verifier::external_body]
pub(crate) fn push_char(s: &mut String, c: char)
    ensures
        final(s)@ == old(s)@.push(c),
{
    s.push(c)
}

/// `String::pop`: takes the last character off the text and returns it,
/// or returns `None` where the text is empty.
#[verifier::external_body]
pub(crate) fn pop_char(s: &mut String) -> (r: Option<char>)
    ensures
        old(s)@.len() == 0 ==> r is None && final(s)@ == old(s)@,
        old(s)@.len() > 0 ==> r == Some(old(s)@.last()) && final(s)@ == old(s)@.drop_last(),
{
    s.pop()
}

/// `str::starts_with` with a text as the pattern: whether `s` begins with
/// the characters of `prefix`.
#[verifier::external_body]
pub(crate) fn starts_with(s: &str, prefix: &str) -> (r: bool)
    ensures
        r == prefix@.is_prefix_of(s@),
{
    s.starts_with(prefix)
}

/// Returns `s` in upper case.
pub fn to_upper(s: &str) -> (r: String)
    ensures
        r@ == uppercase(s@),
{
    if s.is_ascii() {
        ascii_to_upper(s)
    } else {
        unicode_to_upper(s)
    }
}

/// Returns the upper-case form of `c` as a text.
pub fn upper_char(c: char) -> (r: String)
    ensures
        r@ == char_uppercase(c),
{
    if c <= '\u{7f}' {
        string_of_char(upper_letter(c))
    } else {
        unicode_char_to_upper(c)
    }
}

} // verus!
