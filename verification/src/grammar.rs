//! The grammar, as functions on a sequence of characters and a position in
//! it. Each rule says what it reads from that position on: a value and the
//! position of the first character it leaves, or the position at which it
//! could go no further and what it asks for there.

use vstd::prelude::*;

use crate::chars::CharClass;
use crate::failure::Expected;
use crate::failure::Keyword;
use crate::model::ArgDirection;
use crate::model::ParamModel;
use crate::model::ParamType;
use crate::model::TestModel;
use crate::model::ValueModel;

verus! {

/// What a rule makes of the input from some position on.
pub enum Parsed<T> {
    /// The rule read `value`; `rest` is the position of the first character
    /// that it left unread.
    Accept { value: T, rest: nat },
    /// The rule could go no further than `position`, where it asks for
    /// `expected`.
    Reject { position: nat, expected: Expected },
}

impl<T> Parsed<T> {
    /// The failure `self`, as the outcome of a rule with another value.
    pub open spec fn failed<U>(self) -> Parsed<U>
        recommends
            self is Reject,
    {
        Parsed::Reject { position: self->position, expected: self->expected }
    }
}

/// The character at position `at`, if the input reaches that far.
pub open spec fn peek(s: Seq<char>, at: nat) -> Option<char> {
    if at < s.len() {
        Some(s[at as int])
    } else {
        None
    }
}

/// Where the longest run of characters of `class` that begins at `start`
/// ends: the position of the first character from `start` on that is not of
/// the class, or the end of the input.
pub open spec fn run_end(s: Seq<char>, start: nat, class: CharClass) -> nat
    decreases s.len() - start,
{
    if start < s.len() && class.contains(s[start as int]) {
        run_end(s, start + 1, class)
    } else {
        start
    }
}

/// The number that stands for `c` when the case of ASCII letters is
/// ignored: the code of `c`, and for a capital letter that of its small
/// letter.
pub open spec fn ascii_lower_code(c: char) -> int {
    if 'A' <= c && c <= 'Z' {
        c as int + 32
    } else {
        c as int
    }
}

/// Whether the input character `c` stands for the keyword character `k`,
/// with or without regard to the case of ASCII letters.
pub open spec fn same_letter(c: char, k: char, fold_case: bool) -> bool {
    if fold_case {
        ascii_lower_code(c) == ascii_lower_code(k)
    } else {
        c == k
    }
}

/// How many characters of `word`, counted from its character `from`
/// onwards, the input carries one after another: `from` plus that number.
/// The input character at `start + i` is held against `word[i]`.
pub open spec fn match_end(
    s: Seq<char>,
    start: nat,
    word: Seq<char>,
    fold_case: bool,
    from: nat,
) -> nat
    decreases word.len() - from,
{
    if from < word.len() && start + from < s.len() && same_letter(
        s[start + from as int],
        word[from as int],
        fold_case,
    ) {
        match_end(s, start, word, fold_case, from + 1)
    } else {
        from
    }
}

/// The position behind the whitespace that begins at `start`.
pub open spec fn skip_spaces(s: Seq<char>, start: nat) -> nat {
    run_end(s, start, CharClass::Space)
}

/// One or more characters of `class`, then whitespace. The value is the run.
pub open spec fn word(s: Seq<char>, start: nat, class: CharClass) -> Parsed<Seq<char>> {
    let end = run_end(s, start, class);
    if end == start {
        Parsed::Reject { position: start, expected: Expected::Class(class) }
    } else {
        Parsed::Accept { value: s.subrange(start as int, end as int), rest: skip_spaces(s, end) }
    }
}

/// The character `c`, then whitespace.
pub open spec fn symbol(s: Seq<char>, start: nat, c: char) -> Parsed<()> {
    if peek(s, start) == Some(c) {
        Parsed::Accept { value: (), rest: skip_spaces(s, start + 1) }
    } else {
        Parsed::Reject { position: start, expected: Expected::Symbol(c) }
    }
}

/// The keyword `k`, then whitespace. Where the input departs from the
/// keyword, the position is that of the first character that differs.
pub open spec fn keyword(s: Seq<char>, start: nat, k: Keyword) -> Parsed<()> {
    let matched = match_end(s, start, k.text(), k.folds_case(), 0);
    if matched == k.text().len() {
        Parsed::Accept { value: (), rest: skip_spaces(s, start + matched) }
    } else {
        Parsed::Reject { position: start + matched, expected: Expected::Keyword(k) }
    }
}

/// A text: one or more letters, digits and underscores, then whitespace.
pub open spec fn text(s: Seq<char>, start: nat) -> Parsed<ValueModel> {
    let run = word(s, start, CharClass::Word);
    if run is Reject {
        run.failed()
    } else {
        Parsed::Accept { value: ValueModel::Text { data: run->value }, rest: run->rest }
    }
}

/// A number: an optional `-`, one or more digits, optionally `.` and one or
/// more digits, optionally a unit of one or more letters, then whitespace.
/// Its `data` is the literal from the sign to the last digit.
pub open spec fn number(s: Seq<char>, start: nat) -> Parsed<ValueModel> {
    let digits = if peek(s, start) == Some('-') {
        start + 1
    } else {
        start
    };
    let whole = run_end(s, digits, CharClass::Digit);
    let fraction = if peek(s, whole) == Some('.') {
        run_end(s, whole + 1, CharClass::Digit)
    } else {
        whole
    };
    let unit = run_end(s, fraction, CharClass::Letter);
    if whole == digits {
        Parsed::Reject { position: digits, expected: Expected::Class(CharClass::Digit) }
    } else if fraction == whole + 1 {
        Parsed::Reject { position: fraction, expected: Expected::Class(CharClass::Digit) }
    } else {
        Parsed::Accept {
            value: ValueModel::Number {
                data: s.subrange(start as int, fraction as int),
                unit: if unit == fraction {
                    None
                } else {
                    Some(s.subrange(fraction as int, unit as int))
                },
            },
            rest: skip_spaces(s, unit),
        }
    }
}

/// A boolean: `true` or `false` in any casing, then whitespace. Where the
/// input is neither, the position is that of the first character that
/// departs from the keyword it began like, or `start` if it began like
/// neither.
pub open spec fn boolean(s: Seq<char>, start: nat) -> Parsed<ValueModel> {
    let yes = keyword(s, start, Keyword::True);
    let no = keyword(s, start, Keyword::False);
    if yes is Accept {
        Parsed::Accept { value: ValueModel::Bool { data: true }, rest: yes->rest }
    } else if yes->position > start {
        yes.failed()
    } else if no is Accept {
        Parsed::Accept { value: ValueModel::Bool { data: false }, rest: no->rest }
    } else if no->position > start {
        no.failed()
    } else {
        Parsed::Reject { position: start, expected: Expected::Boolean }
    }
}

/// The value of a parameter: a number, else a boolean, else a text. A kind
/// that breaks off after it has read at least one character fails the
/// value, and the kinds behind it are not tried. So `-x` and `1.x` are no
/// values, and neither is a word that begins with the first letter of `true`
/// or `false` and does not spell the keyword out: `t`, `tree` and `fast` are
/// broken booleans, not texts.
pub open spec fn value(s: Seq<char>, start: nat) -> Parsed<ValueModel> {
    let as_number = number(s, start);
    let as_boolean = boolean(s, start);
    let as_text = text(s, start);
    if as_number is Accept || as_number->position > start {
        as_number
    } else if as_boolean is Accept || as_boolean->position > start {
        as_boolean
    } else if as_text is Accept {
        as_text
    } else {
        Parsed::Reject { position: start, expected: Expected::Value }
    }
}

/// The direction that a direction word names.
pub open spec fn direction_of(word: Seq<char>) -> ArgDirection {
    if word == "In"@ {
        ArgDirection::In
    } else if word == "Out"@ {
        ArgDirection::Out
    } else {
        ArgDirection::Unknown
    }
}

/// The type that a type word names.
pub open spec fn type_of(word: Seq<char>) -> ParamType {
    if word == "sigref_expr"@ {
        ParamType::Sigrefexpr
    } else if word == "Voltage"@ {
        ParamType::Voltage
    } else if word == "Current"@ {
        ParamType::Current
    } else if word == "String"@ {
        ParamType::String
    } else if word == "Integer"@ {
        ParamType::Integer
    } else if word == "Real"@ {
        ParamType::Real
    } else if word == "Time"@ {
        ParamType::Time
    } else if word == "Bool"@ {
        ParamType::Bool
    } else if word == "Enum"@ {
        ParamType::Enum
    } else {
        ParamType::Unknown
    }
}

/// A parameter declaration: whitespace, a direction word of letters, a type
/// word and a name of letters and underscores, `=` and a value, each
/// followed by whitespace.
#[verifier::opaque]
pub open spec fn parameter(s: Seq<char>, start: nat) -> Parsed<ParamModel> {
    let direction = word(s, skip_spaces(s, start), CharClass::Letter);
    let kind = word(s, direction->rest, CharClass::Name);
    let name = word(s, kind->rest, CharClass::Name);
    let equals = symbol(s, name->rest, '=');
    let written = value(s, equals->rest);
    if direction is Reject {
        direction.failed()
    } else if kind is Reject {
        kind.failed()
    } else if name is Reject {
        name.failed()
    } else if equals is Reject {
        equals.failed()
    } else if written is Reject {
        written.failed()
    } else {
        Parsed::Accept {
            value: ParamModel {
                arg_direction: direction_of(direction->value),
                param_type: type_of(kind->value),
                name: name->value,
                value: written->value,
            },
            rest: written->rest,
        }
    }
}

/// What follows the parameters `found` in a list: nothing; or `;`; or `;`
/// and another parameter, and what follows that one. Behind a `;`, an input
/// that does not begin a parameter ends the list; one that begins a
/// parameter and breaks off fails it.
pub open spec fn more_parameters(s: Seq<char>, start: nat, found: Seq<ParamModel>) -> Parsed<
    Seq<ParamModel>,
>
    decreases s.len() - start,
{
    let separator = symbol(s, start, ';');
    let next = parameter(s, separator->rest);
    if separator is Reject {
        Parsed::Accept { value: found, rest: start }
    } else if next is Accept {
        proof {
            lemma_symbol_advances(s, start, ';');
            lemma_parameter_advances(s, separator->rest);
        }
        more_parameters(s, next->rest, found.push(next->value))
    } else if next->position == separator->rest {
        Parsed::Accept { value: found, rest: separator->rest }
    } else {
        next.failed()
    }
}

/// A list of parameters: one or more, with `;` between them and, if it is
/// there, behind the last.
pub open spec fn parameters(s: Seq<char>, start: nat) -> Parsed<Seq<ParamModel>> {
    let first = parameter(s, start);
    if first is Reject {
        first.failed()
    } else {
        more_parameters(s, first->rest, seq![first->value])
    }
}

/// The head of a test block: `Test`, the test's name, `{`, `Library`, the
/// library's name and `;`. The value is the two names, in that order.
pub open spec fn test_head(s: Seq<char>, start: nat) -> Parsed<(Seq<char>, Seq<char>)> {
    let test = keyword(s, start, Keyword::Test);
    let name = word(s, test->rest, CharClass::Word);
    let open = symbol(s, name->rest, '{');
    let library = keyword(s, open->rest, Keyword::Library);
    let library_name = word(s, library->rest, CharClass::Word);
    let end = symbol(s, library_name->rest, ';');
    if test is Reject {
        test.failed()
    } else if name is Reject {
        name.failed()
    } else if open is Reject {
        open.failed()
    } else if library is Reject {
        library.failed()
    } else if library_name is Reject {
        library_name.failed()
    } else if end is Reject {
        end.failed()
    } else {
        Parsed::Accept { value: (name->value, library_name->value), rest: end->rest }
    }
}

/// The parameters of a test block: `Parameters`, `{`, a list of parameters
/// and `}`.
pub open spec fn parameter_block(s: Seq<char>, start: nat) -> Parsed<Seq<ParamModel>> {
    let heading = keyword(s, start, Keyword::Parameters);
    let open = symbol(s, heading->rest, '{');
    let list = parameters(s, open->rest);
    let close = symbol(s, list->rest, '}');
    if heading is Reject {
        heading.failed()
    } else if open is Reject {
        open.failed()
    } else if list is Reject {
        list.failed()
    } else if close is Reject {
        close.failed()
    } else {
        Parsed::Accept { value: list->value, rest: close->rest }
    }
}

/// A test block: its head, its parameters and `}`.
pub open spec fn test_exec(s: Seq<char>, start: nat) -> Parsed<TestModel> {
    let head = test_head(s, start);
    let block = parameter_block(s, head->rest);
    let close = symbol(s, block->rest, '}');
    if head is Reject {
        head.failed()
    } else if block is Reject {
        block.failed()
    } else if close is Reject {
        close.failed()
    } else {
        Parsed::Accept {
            value: TestModel {
                name: head->value.0,
                library: head->value.1,
                parameters: block->value,
            },
            rest: close->rest,
        }
    }
}

/// Whether `text` is a run of `class`: one or more characters, all of the
/// class.
pub open spec fn is_run(text: Seq<char>, class: CharClass) -> bool {
    text.len() > 0 && forall|i: int| 0 <= i < text.len() ==> class.contains(#[trigger] text[i])
}

/// Whether `text` is a decimal literal: an optional `-`, one or more digits
/// and, optionally, `.` and one or more digits.
pub open spec fn is_decimal(text: Seq<char>) -> bool {
    let digits: nat = if peek(text, 0) == Some('-') {
        1
    } else {
        0
    };
    let whole = run_end(text, digits, CharClass::Digit);
    whole > digits && (whole == text.len() || (text[whole as int] == '.' && whole + 1
        < text.len() && run_end(text, whole + 1, CharClass::Digit) == text.len()))
}

/// Whether the input holds `word` from `start` on, the case of ASCII
/// letters apart.
pub open spec fn spells_in_any_casing(s: Seq<char>, start: nat, word: Seq<char>) -> bool {
    start + word.len() <= s.len() && forall|i: int|
        0 <= i < word.len() ==> same_letter(s[start + i], #[trigger] word[i], true)
}

/// A run never ends before it begins, nor beyond the input.
pub proof fn lemma_run_end_bounds(s: Seq<char>, start: nat, class: CharClass)
    ensures
        start <= run_end(s, start, class),
        start <= s.len() ==> run_end(s, start, class) <= s.len(),
    decreases s.len() - start,
{
    if start < s.len() && class.contains(s[start as int]) {
        lemma_run_end_bounds(s, start + 1, class);
    }
}

/// Every character of a run is of the class, and the character behind it,
/// if there is one, is not.
pub proof fn lemma_run_end_holds(s: Seq<char>, start: nat, class: CharClass)
    ensures
        forall|i: int| start <= i < run_end(s, start, class) ==> class.contains(#[trigger] s[i]),
        run_end(s, start, class) < s.len() ==> !class.contains(
            s[run_end(s, start, class) as int],
        ),
    decreases s.len() - start,
{
    if start < s.len() && class.contains(s[start as int]) {
        lemma_run_end_bounds(s, start + 1, class);
        lemma_run_end_holds(s, start + 1, class);
    }
}

/// The end of a run is the only position that the two facts of
/// `lemma_run_end_holds` are true of.
pub proof fn lemma_run_end_unique(s: Seq<char>, start: nat, class: CharClass, end: nat)
    requires
        start <= end <= s.len(),
        forall|i: int| start <= i < end ==> class.contains(#[trigger] s[i]),
        end < s.len() ==> !class.contains(s[end as int]),
    ensures
        run_end(s, start, class) == end,
    decreases end - start,
{
    if start < end {
        lemma_run_end_unique(s, start + 1, class, end);
    }
}

/// A match never counts more characters than the keyword has, nor more than
/// the input holds.
pub proof fn lemma_match_end_bounds(
    s: Seq<char>,
    start: nat,
    word: Seq<char>,
    fold_case: bool,
    from: nat,
)
    requires
        from <= word.len(),
        start + from <= s.len(),
    ensures
        from <= match_end(s, start, word, fold_case, from) <= word.len(),
        start + match_end(s, start, word, fold_case, from) <= s.len(),
    decreases word.len() - from,
{
    if from < word.len() && start + from < s.len() && same_letter(
        s[start + from as int],
        word[from as int],
        fold_case,
    ) {
        lemma_match_end_bounds(s, start, word, fold_case, from + 1);
    }
}

/// A run that has no character reads nothing, and a run is not longer than
/// the input.
pub proof fn lemma_word_advances(s: Seq<char>, start: nat, class: CharClass)
    ensures
        word(s, start, class) matches Parsed::Accept { value, rest } ==> start < rest <= s.len()
            && value.len() > 0,
        word(s, start, class) matches Parsed::Reject { position, .. } ==> position == start,
{
    lemma_run_end_bounds(s, start, class);
    lemma_run_end_bounds(s, run_end(s, start, class), CharClass::Space);
}

/// A symbol that was read is one character and the whitespace behind it.
pub proof fn lemma_symbol_advances(s: Seq<char>, start: nat, c: char)
    ensures
        symbol(s, start, c) matches Parsed::Accept { rest, .. } ==> start < rest <= s.len(),
        symbol(s, start, c) matches Parsed::Reject { position, .. } ==> position == start,
{
    lemma_run_end_bounds(s, start + 1, CharClass::Space);
}

/// No keyword is empty.
pub proof fn lemma_keyword_not_empty(k: Keyword)
    ensures
        k.text().len() > 0,
{
    reveal_strlit("true");
    reveal_strlit("false");
    reveal_strlit("Test");
    reveal_strlit("Library");
    reveal_strlit("Parameters");
}

/// A keyword that was read took at least one character; one that was not
/// stopped within the input.
pub proof fn lemma_keyword_advances(s: Seq<char>, start: nat, k: Keyword)
    requires
        start <= s.len(),
    ensures
        keyword(s, start, k) matches Parsed::Accept { rest, .. } ==> start < rest <= s.len(),
        keyword(s, start, k) matches Parsed::Reject { position, .. } ==> start <= position
            <= s.len(),
{
    lemma_keyword_not_empty(k);
    lemma_match_end_bounds(s, start, k.text(), k.folds_case(), 0);
    let matched = match_end(s, start, k.text(), k.folds_case(), 0);
    lemma_run_end_bounds(s, start + matched, CharClass::Space);
}

/// A number that was read took at least one character; one that was not
/// stopped within the input.
pub proof fn lemma_number_advances(s: Seq<char>, start: nat)
    requires
        start <= s.len(),
    ensures
        number(s, start) matches Parsed::Accept { rest, .. } ==> start < rest <= s.len(),
        number(s, start) matches Parsed::Reject { position, .. } ==> start <= position
            <= s.len(),
{
    let digits = if peek(s, start) == Some('-') {
        start + 1
    } else {
        start
    };
    let whole = run_end(s, digits, CharClass::Digit);
    lemma_run_end_bounds(s, digits, CharClass::Digit);
    if peek(s, whole) == Some('.') {
        lemma_run_end_bounds(s, whole + 1, CharClass::Digit);
    }
    let fraction = if peek(s, whole) == Some('.') {
        run_end(s, whole + 1, CharClass::Digit)
    } else {
        whole
    };
    lemma_run_end_bounds(s, fraction, CharClass::Letter);
    lemma_run_end_bounds(s, run_end(s, fraction, CharClass::Letter), CharClass::Space);
}

/// A boolean that was read took at least one character; one that was not
/// stopped within the input.
pub proof fn lemma_boolean_advances(s: Seq<char>, start: nat)
    requires
        start <= s.len(),
    ensures
        boolean(s, start) matches Parsed::Accept { rest, .. } ==> start < rest <= s.len(),
        boolean(s, start) matches Parsed::Reject { position, .. } ==> start <= position
            <= s.len(),
{
    lemma_keyword_advances(s, start, Keyword::True);
    lemma_keyword_advances(s, start, Keyword::False);
}

/// A value that was read took at least one character; one that was not
/// stopped within the input.
pub proof fn lemma_value_advances(s: Seq<char>, start: nat)
    requires
        start <= s.len(),
    ensures
        value(s, start) matches Parsed::Accept { rest, .. } ==> start < rest <= s.len(),
        value(s, start) matches Parsed::Reject { position, .. } ==> start <= position
            <= s.len(),
{
    lemma_number_advances(s, start);
    lemma_boolean_advances(s, start);
    lemma_word_advances(s, start, CharClass::Word);
}

/// A parameter that was read took at least one character; one that was not
/// stopped within the input.
pub proof fn lemma_parameter_advances(s: Seq<char>, start: nat)
    requires
        start <= s.len(),
    ensures
        parameter(s, start) matches Parsed::Accept { rest, .. } ==> start < rest <= s.len(),
        parameter(s, start) matches Parsed::Reject { position, .. } ==> start <= position
            <= s.len(),
{
    reveal(parameter);
    lemma_run_end_bounds(s, start, CharClass::Space);
    let at_direction = skip_spaces(s, start);
    lemma_word_advances(s, at_direction, CharClass::Letter);
    if let Parsed::Accept { value: _, rest: at_type } = word(s, at_direction, CharClass::Letter) {
        lemma_word_advances(s, at_type, CharClass::Name);
        if let Parsed::Accept { value: _, rest: at_name } = word(s, at_type, CharClass::Name) {
            lemma_word_advances(s, at_name, CharClass::Name);
            if let Parsed::Accept { value: _, rest: at_equals } = word(
                s,
                at_name,
                CharClass::Name,
            ) {
                lemma_symbol_advances(s, at_equals, '=');
                if let Parsed::Accept { value: _, rest: at_value } = symbol(s, at_equals, '=') {
                    lemma_value_advances(s, at_value);
                }
            }
        }
    }
}

} // verus!
