//! Character classes, and what is taken from the standard library for
//! strings.
//!
//! On ASCII the classes are spelled out here. Beyond ASCII they are what
//! the Unicode tables of the standard library say, which are not
//! reproduced: each table is a named predicate, and the contract of the
//! corresponding `char` method says that the method computes it.
use vstd::prelude::*;

verus! {

/// What `char::is_alphabetic` says of a character.
pub uninterp spec fn unicode_alphabetic(c: char) -> bool;

/// What `char::is_numeric` says of a character.
pub uninterp spec fn unicode_numeric(c: char) -> bool;

/// What `char::is_whitespace` says of a character.
pub uninterp spec fn unicode_whitespace(c: char) -> bool;

/// What `char::is_uppercase` says of a character.
pub uninterp spec fn unicode_uppercase(c: char) -> bool;

/// `char::is_alphabetic`: claimed to be a function of the character alone.
pub assume_specification[ char::is_alphabetic ](c: char) -> (b: bool)
    ensures
        b == unicode_alphabetic(c),
;

/// `char::is_numeric`: claimed to be a function of the character alone.
pub assume_specification[ char::is_numeric ](c: char) -> (b: bool)
    ensures
        b == unicode_numeric(c),
;

/// `char::is_whitespace`: claimed to be a function of the character alone.
pub assume_specification[ char::is_whitespace ](c: char) -> (b: bool)
    ensures
        b == unicode_whitespace(c),
;

/// `char::is_uppercase`: claimed to be a function of the character alone.
pub assume_specification[ char::is_uppercase ](c: char) -> (b: bool)
    ensures
        b == unicode_uppercase(c),
;

/// `String::push`: claimed to append the character and change nothing else.
pub assume_specification[ std::string::String::push ](s: &mut std::string::String, c: char)
    ensures
        final(s)@ == old(s)@.push(c),
;

/// `str::eq`: claimed to hold exactly when both slices have the same
/// characters.
pub assume_specification[ <str as PartialEq>::eq ](a: &str, b: &str) -> (r: bool)
    ensures
        r == (a@ == b@),
;

/// Whether a character is one of the 128 of ASCII.
pub open spec fn ascii(c: char) -> bool {
    (c as u32) < 128
}

/// The letters: on ASCII `a` to `z` and `A` to `Z`.
pub open spec fn alphabetic(c: char) -> bool {
    if ascii(c) {
        ('a' <= c <= 'z') || ('A' <= c <= 'Z')
    } else {
        unicode_alphabetic(c)
    }
}

/// The numerals: on ASCII `0` to `9`.
pub open spec fn numeric(c: char) -> bool {
    if ascii(c) {
        '0' <= c <= '9'
    } else {
        unicode_numeric(c)
    }
}

/// White space: on ASCII the space and the control characters from tab to
/// carriage return, the new line among them.
pub open spec fn whitespace(c: char) -> bool {
    if ascii(c) {
        c == ' ' || ('\t' <= c <= '\r')
    } else {
        unicode_whitespace(c)
    }
}

/// The letters in upper case: on ASCII `A` to `Z`.
pub open spec fn uppercase(c: char) -> bool {
    if ascii(c) {
        'A' <= c <= 'Z'
    } else {
        unicode_uppercase(c)
    }
}

/// Either alphabetic or numeric.
pub open spec fn alphanumeric(c: char) -> bool {
    alphabetic(c) || numeric(c)
}

/// Whether a character is a letter.
pub fn char_is_alphabetic(c: char) -> (yes: bool)
    ensures
        yes == alphabetic(c),
{
    if (c as u32) < 128 {
        ('a' <= c && c <= 'z') || ('A' <= c && c <= 'Z')
    } else {
        c.is_alphabetic()
    }
}

/// Whether a character is a numeral.
pub fn char_is_numeric(c: char) -> (yes: bool)
    ensures
        yes == numeric(c),
{
    if (c as u32) < 128 {
        '0' <= c && c <= '9'
    } else {
        c.is_numeric()
    }
}

/// Whether a character is white space.
pub fn char_is_whitespace(c: char) -> (yes: bool)
    ensures
        yes == whitespace(c),
{
    if (c as u32) < 128 {
        c == ' ' || ('\t' <= c && c <= '\r')
    } else {
        c.is_whitespace()
    }
}

/// Whether a character is a letter in upper case.
pub fn char_is_uppercase(c: char) -> (yes: bool)
    ensures
        yes == uppercase(c),
{
    if (c as u32) < 128 {
        'A' <= c && c <= 'Z'
    } else {
        c.is_uppercase()
    }
}

/// Whether a character is a letter or a numeral.
pub fn char_is_alphanumeric(c: char) -> (yes: bool)
    ensures
        yes == alphanumeric(c),
{
    char_is_alphabetic(c) || char_is_numeric(c)
}

} // verus!
