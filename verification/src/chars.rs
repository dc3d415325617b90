//! Character classes of the grammar.

use vstd::prelude::*;

verus! {

/// Whether `c` has Unicode's Alphabetic property, as `char::is_alphabetic`
/// reports it.
pub uninterp spec fn unicode_alphabetic(c: char) -> bool;

/// Whether `c` has Unicode's White_Space property, as `char::is_whitespace`
/// reports it.
pub uninterp spec fn unicode_white_space(c: char) -> bool;

/// Calls `char::is_alphabetic`. Nothing is claimed of the answer but that it
/// is the property named `unicode_alphabetic`.
#[verifier::external_body]
fn has_alphabetic_property(c: char) -> (b: bool)
    ensures
        b == unicode_alphabetic(c),
{
    c.is_alphabetic()
}

/// Calls `char::is_whitespace`. Nothing is claimed of the answer but that it
/// is the property named `unicode_white_space`.
#[verifier::external_body]
fn has_white_space_property(c: char) -> (b: bool)
    ensures
        b == unicode_white_space(c),
{
    c.is_whitespace()
}

/// Whether `c` lies in the ASCII range.
pub open spec fn is_ascii(c: char) -> bool {
    (c as u32) < 0x80
}

/// An ASCII letter, `a` to `z` or `A` to `Z`.
pub open spec fn is_ascii_letter(c: char) -> bool {
    ('a' <= c && c <= 'z') || ('A' <= c && c <= 'Z')
}

/// ASCII whitespace: tab, line feed, vertical tab, form feed, carriage
/// return and space.
pub open spec fn is_ascii_space(c: char) -> bool {
    c == ' ' || ('\u{9}' <= c && c <= '\u{d}')
}

/// A decimal digit, `0` to `9`.
pub open spec fn is_digit(c: char) -> bool {
    '0' <= c && c <= '9'
}

/// A letter: within ASCII the 52 letters, beyond ASCII every character with
/// the Alphabetic property.
pub open spec fn is_letter(c: char) -> bool {
    if is_ascii(c) {
        is_ascii_letter(c)
    } else {
        unicode_alphabetic(c)
    }
}

/// Whitespace: within ASCII the six blank characters, beyond ASCII every
/// character with the White_Space property.
pub open spec fn is_space(c: char) -> bool {
    if is_ascii(c) {
        is_ascii_space(c)
    } else {
        unicode_white_space(c)
    }
}

/// The sets of characters that the grammar's runs are made of.
#[derive(Clone, Copy, Debug, PartialEq, Eq)]
pub enum CharClass {
    /// Whitespace.
    Space,
    /// Letters.
    Letter,
    /// Decimal digits.
    Digit,
    /// Letters and the underscore.
    Name,
    /// Letters, decimal digits and the underscore.
    Word,
}

impl CharClass {
    /// Whether `c` belongs to the class.
    pub open spec fn contains(self, c: char) -> bool {
        match self {
            CharClass::Space => is_space(c),
            CharClass::Letter => is_letter(c),
            CharClass::Digit => is_digit(c),
            CharClass::Name => is_letter(c) || c == '_',
            CharClass::Word => is_letter(c) || is_digit(c) || c == '_',
        }
    }

    /// Decides whether `c` belongs to the class.
    pub fn accepts(self, c: char) -> (b: bool)
        ensures
            b == self.contains(c),
    {
        match self {
            CharClass::Space => space(c),
            CharClass::Letter => letter(c),
            CharClass::Digit => digit(c),
            CharClass::Name => c == '_' || letter(c),
            CharClass::Word => c == '_' || digit(c) || letter(c),
        }
    }
}

/// Decides whether `c` is a decimal digit.
pub fn digit(c: char) -> (b: bool)
    ensures
        b == is_digit(c),
{
    '0' <= c && c <= '9'
}

/// Decides whether `c` is a letter.
pub fn letter(c: char) -> (b: bool)
    ensures
        b == is_letter(c),
{
    if c <= '\u{7f}' {
        ('a' <= c && c <= 'z') || ('A' <= c && c <= 'Z')
    } else {
        has_alphabetic_property(c)
    }
}

/// Decides whether `c` is whitespace.
pub fn space(c: char) -> (b: bool)
    ensures
        b == is_space(c),
{
    if c <= '\u{7f}' {
        c == ' ' || ('\u{9}' <= c && c <= '\u{d}')
    } else {
        has_white_space_property(c)
    }
}

} // verus!
