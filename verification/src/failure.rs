//! Why and where reading stopped.

use vstd::prelude::*;
use vstd::string::StringExecFns;

use crate::chars::CharClass;

verus! {

/// The keywords of the grammar.
#[derive(Debug, PartialEq, Eq, Clone, Copy)]
pub enum Keyword {
    /// `true`, in any casing.
    True,
    /// `false`, in any casing.
    False,
    /// `Test`.
    Test,
    /// `Library`.
    Library,
    /// `Parameters`.
    Parameters,
}

impl Keyword {
    /// The keyword's characters.
    pub open spec fn text(self) -> Seq<char> {
        match self {
            Keyword::True => "true"@,
            Keyword::False => "false"@,
            Keyword::Test => "Test"@,
            Keyword::Library => "Library"@,
            Keyword::Parameters => "Parameters"@,
        }
    }

    /// Whether the keyword is read without regard to the case of letters.
    pub open spec fn folds_case(self) -> bool {
        self == Keyword::True || self == Keyword::False
    }

    /// The keyword as it is spelled.
    pub fn spelling(self) -> (word: &'static str)
        ensures
            word@ == self.text(),
    {
        match self {
            Keyword::True => "true",
            Keyword::False => "false",
            Keyword::Test => "Test",
            Keyword::Library => "Library",
            Keyword::Parameters => "Parameters",
        }
    }

    /// Decides whether the keyword is read without regard to case.
    pub fn ignores_case(self) -> (b: bool)
        ensures
            b == self.folds_case(),
    {
        match self {
            Keyword::True => true,
            Keyword::False => true,
            _ => false,
        }
    }
}

/// What the grammar asks for at the place where reading stopped.
#[derive(Debug, PartialEq, Eq, Clone, Copy)]
pub enum Expected {
    /// A character of the class.
    Class(CharClass),
    /// The keyword, or the rest of it.
    Keyword(Keyword),
    /// The character.
    Symbol(char),
    /// One of the keywords `true` and `false`.
    Boolean,
    /// A number, a boolean or a text.
    Value,
}

impl Expected {
    /// What is asked for, in words.
    pub open spec fn description_text(self) -> Seq<char> {
        match self {
            Expected::Class(CharClass::Space) => "whitespace"@,
            Expected::Class(CharClass::Letter) => "a letter"@,
            Expected::Class(CharClass::Digit) => "a digit"@,
            Expected::Class(CharClass::Name) => "a letter or an underscore"@,
            Expected::Class(CharClass::Word) => "a letter, a digit or an underscore"@,
            Expected::Keyword(k) => "the keyword "@ + k.text(),
            Expected::Symbol(c) => "the character "@.push(c),
            Expected::Boolean => "one of the keywords true and false"@,
            Expected::Value => "a number, a boolean or a text"@,
        }
    }

    /// Says in words what is asked for.
    pub fn description(&self) -> (text: String)
        ensures
            text@ == self.description_text(),
    {
        match self {
            Expected::Class(CharClass::Space) => String::from_str("whitespace"),
            Expected::Class(CharClass::Letter) => String::from_str("a letter"),
            Expected::Class(CharClass::Digit) => String::from_str("a digit"),
            Expected::Class(CharClass::Name) => String::from_str("a letter or an underscore"),
            Expected::Class(CharClass::Word) => String::from_str(
                "a letter, a digit or an underscore",
            ),
            Expected::Keyword(k) => String::from_str("the keyword ").concat(k.spelling()),
            Expected::Symbol(c) => {
                let mut text = String::from_str("the character ");
                text.push(*c);
                text
            },
            Expected::Boolean => String::from_str("one of the keywords true and false"),
            Expected::Value => String::from_str("a number, a boolean or a text"),
        }
    }
}

/// A failed reading: the position, counted in characters from the start of
/// the input, at which the grammar could go no further, and what it asks for
/// there.
#[derive(Debug, PartialEq, Eq, Clone, Copy)]
pub struct ParseFailure {
    pub position: usize,
    pub expected: Expected,
}

} // verus!
