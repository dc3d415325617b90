//! The readers: each takes the input as text, reads what one rule of the
//! grammar describes from its start, and returns the value with the text
//! that it left unread, or the failure.

use vstd::prelude::*;
use vstd::string::StrSliceExecFns;

use crate::chars::CharClass;
use crate::failure::Expected;
use crate::failure::Keyword;
use crate::failure::ParseFailure;
use crate::grammar;
use crate::grammar::Parsed;
use crate::grammar::spells_in_any_casing;
use crate::laws::boolean_reads_any_casing;
use crate::well_formed::number_is_well_formed;
use crate::well_formed::parameter_is_well_formed;
use crate::well_formed::parameters_are_well_formed;
use crate::well_formed::test_is_well_formed;
use crate::well_formed::text_is_well_formed;
use crate::model::ArgDirection;
use crate::model::Param;
use crate::model::ParamType;
use crate::model::Test;
use crate::model::ValueType;
use crate::model::param_models;
use crate::scan::copy_range;
use crate::scan::matched;
use crate::scan::scan_run;
use crate::scan::spells;
use crate::scan::to_chars;

verus! {

/// Whether `r`, a value with the position behind it or a failure, is the
/// outcome `p` of a rule.
spec fn renders<T: View>(r: Result<(T, usize), ParseFailure>, p: Parsed<T::V>) -> bool {
    match r {
        Ok((value, rest)) => p == (Parsed::Accept { value: value@, rest: rest as nat }),
        Err(failure) => p == (Parsed::Reject::<T::V> {
            position: failure.position as nat,
            expected: failure.expected,
        }),
    }
}

/// Whether `r`, the position behind what was read or a failure, is the
/// outcome `p` of a rule without a value.
spec fn passes(r: Result<usize, ParseFailure>, p: Parsed<()>) -> bool {
    match r {
        Ok(rest) => p == (Parsed::Accept { value: (), rest: rest as nat }),
        Err(failure) => p == (Parsed::Reject::<()> {
            position: failure.position as nat,
            expected: failure.expected,
        }),
    }
}

/// Reads one or more characters of `class` and the whitespace behind them.
/// Returns the position behind the run and the position behind the
/// whitespace.
fn word_at(chars: &[char], start: usize, class: CharClass) -> (r: Result<
    (usize, usize),
    ParseFailure,
>)
    requires
        start <= chars.len(),
    ensures
        match r {
            Ok((end, rest)) => start < end <= rest <= chars.len() && grammar::word(
                chars@,
                start as nat,
                class,
            ) == (Parsed::Accept {
                value: chars@.subrange(start as int, end as int),
                rest: rest as nat,
            }),
            Err(failure) => failure.position == start && grammar::word(
                chars@,
                start as nat,
                class,
            ) == (Parsed::Reject::<Seq<char>> {
                position: start as nat,
                expected: failure.expected,
            }),
        },
{
    let end = scan_run(chars, start, class);
    if end == start {
        Err(ParseFailure { position: start, expected: Expected::Class(class) })
    } else {
        Ok((end, scan_run(chars, end, CharClass::Space)))
    }
}

/// Reads the character `c` and the whitespace behind it.
fn symbol_at(chars: &[char], start: usize, c: char) -> (r: Result<usize, ParseFailure>)
    requires
        start <= chars.len(),
    ensures
        passes(r, grammar::symbol(chars@, start as nat, c)),
        r matches Ok(rest) ==> start < rest <= chars.len(),
        r matches Err(failure) ==> failure.position == start,
{
    if start < chars.len() && chars[start] == c {
        Ok(scan_run(chars, start + 1, CharClass::Space))
    } else {
        Err(ParseFailure { position: start, expected: Expected::Symbol(c) })
    }
}

/// Reads the keyword `k` and the whitespace behind it.
fn keyword_at(chars: &[char], start: usize, k: Keyword) -> (r: Result<usize, ParseFailure>)
    requires
        start <= chars.len(),
    ensures
        passes(r, grammar::keyword(chars@, start as nat, k)),
        r matches Ok(rest) ==> start < rest <= chars.len(),
        r matches Err(failure) ==> start <= failure.position <= chars.len(),
{
    let (count, whole) = matched(chars, start, k.spelling(), k.ignores_case());
    proof {
        grammar::lemma_keyword_not_empty(k);
    }
    if whole {
        Ok(scan_run(chars, start + count, CharClass::Space))
    } else {
        Err(ParseFailure { position: start + count, expected: Expected::Keyword(k) })
    }
}

/// Reads a text from position `start`.
fn text_at(chars: &[char], start: usize) -> (r: Result<(ValueType, usize), ParseFailure>)
    requires
        start <= chars.len(),
    ensures
        renders(r, grammar::text(chars@, start as nat)),
        r matches Ok((_, rest)) ==> start < rest <= chars.len(),
        r matches Err(failure) ==> failure.position == start,
{
    match word_at(chars, start, CharClass::Word) {
        Ok((end, rest)) => Ok((ValueType::Text { data: copy_range(chars, start, end) }, rest)),
        Err(failure) => Err(failure),
    }
}

/// Reads a number from position `start`.
fn number_at(chars: &[char], start: usize) -> (r: Result<(ValueType, usize), ParseFailure>)
    requires
        start <= chars.len(),
    ensures
        renders(r, grammar::number(chars@, start as nat)),
        r matches Ok((_, rest)) ==> start < rest <= chars.len(),
        r matches Err(failure) ==> start <= failure.position <= chars.len(),
{
    let digits: usize = if start < chars.len() && chars[start] == '-' {
        start + 1
    } else {
        start
    };
    let whole = scan_run(chars, digits, CharClass::Digit);
    if whole == digits {
        return Err(ParseFailure { position: digits, expected: Expected::Class(CharClass::Digit) });
    }
    let mut fraction: usize = whole;
    if whole < chars.len() && chars[whole] == '.' {
        fraction = scan_run(chars, whole + 1, CharClass::Digit);
        if fraction == whole + 1 {
            return Err(
                ParseFailure { position: fraction, expected: Expected::Class(CharClass::Digit) },
            );
        }
    }
    let unit_end = scan_run(chars, fraction, CharClass::Letter);
    let unit = if unit_end == fraction {
        None
    } else {
        Some(copy_range(chars, fraction, unit_end))
    };
    let rest = scan_run(chars, unit_end, CharClass::Space);
    Ok((ValueType::Number { data: copy_range(chars, start, fraction), unit }, rest))
}

/// Reads a boolean from position `start`.
fn boolean_at(chars: &[char], start: usize) -> (r: Result<(ValueType, usize), ParseFailure>)
    requires
        start <= chars.len(),
    ensures
        renders(r, grammar::boolean(chars@, start as nat)),
        r matches Ok((_, rest)) ==> start < rest <= chars.len(),
        r matches Err(failure) ==> start <= failure.position <= chars.len(),
{
    match keyword_at(chars, start, Keyword::True) {
        Ok(rest) => Ok((ValueType::Bool { data: true }, rest)),
        Err(failure) => if failure.position > start {
            Err(failure)
        } else {
            match keyword_at(chars, start, Keyword::False) {
                Ok(rest) => Ok((ValueType::Bool { data: false }, rest)),
                Err(failure) => if failure.position > start {
                    Err(failure)
                } else {
                    Err(ParseFailure { position: start, expected: Expected::Boolean })
                },
            }
        },
    }
}

/// Reads the value of a parameter from position `start`.
fn value_at(chars: &[char], start: usize) -> (r: Result<(ValueType, usize), ParseFailure>)
    requires
        start <= chars.len(),
    ensures
        renders(r, grammar::value(chars@, start as nat)),
        r matches Ok((_, rest)) ==> start < rest <= chars.len(),
        r matches Err(failure) ==> start <= failure.position <= chars.len(),
{
    match number_at(chars, start) {
        Ok(read) => Ok(read),
        Err(failure) => if failure.position > start {
            Err(failure)
        } else {
            match boolean_at(chars, start) {
                Ok(read) => Ok(read),
                Err(failure) => if failure.position > start {
                    Err(failure)
                } else {
                    match text_at(chars, start) {
                        Ok(read) => Ok(read),
                        Err(_) => Err(ParseFailure { position: start, expected: Expected::Value }),
                    }
                },
            }
        },
    }
}

/// Names the direction that the word from `from` up to `to` stands for.
fn direction_at(chars: &[char], from: usize, to: usize) -> (direction: ArgDirection)
    requires
        from <= to <= chars.len(),
    ensures
        direction == grammar::direction_of(chars@.subrange(from as int, to as int)),
{
    if spells(chars, from, to, "In") {
        ArgDirection::In
    } else if spells(chars, from, to, "Out") {
        ArgDirection::Out
    } else {
        ArgDirection::Unknown
    }
}

/// Names the type that the word from `from` up to `to` stands for.
fn type_at(chars: &[char], from: usize, to: usize) -> (kind: ParamType)
    requires
        from <= to <= chars.len(),
    ensures
        kind == grammar::type_of(chars@.subrange(from as int, to as int)),
{
    if spells(chars, from, to, "sigref_expr") {
        ParamType::Sigrefexpr
    } else if spells(chars, from, to, "Voltage") {
        ParamType::Voltage
    } else if spells(chars, from, to, "Current") {
        ParamType::Current
    } else if spells(chars, from, to, "String") {
        ParamType::String
    } else if spells(chars, from, to, "Integer") {
        ParamType::Integer
    } else if spells(chars, from, to, "Real") {
        ParamType::Real
    } else if spells(chars, from, to, "Time") {
        ParamType::Time
    } else if spells(chars, from, to, "Bool") {
        ParamType::Bool
    } else if spells(chars, from, to, "Enum") {
        ParamType::Enum
    } else {
        ParamType::Unknown
    }
}

/// Reads a parameter declaration from position `start`.
fn parameter_at(chars: &[char], start: usize) -> (r: Result<(Param, usize), ParseFailure>)
    requires
        start <= chars.len(),
    ensures
        renders(r, grammar::parameter(chars@, start as nat)),
        r matches Ok((_, rest)) ==> start < rest <= chars.len(),
        r matches Err(failure) ==> start <= failure.position <= chars.len(),
{
    proof {
        reveal(grammar::parameter);
    }
    let at_direction = scan_run(chars, start, CharClass::Space);
    let (direction_end, at_type) = word_at(chars, at_direction, CharClass::Letter)?;
    let (type_end, at_name) = word_at(chars, at_type, CharClass::Name)?;
    let (name_end, at_equals) = word_at(chars, at_name, CharClass::Name)?;
    let at_value = symbol_at(chars, at_equals, '=')?;
    let (value, rest) = value_at(chars, at_value)?;
    Ok(
        (
            Param {
                arg_direction: direction_at(chars, at_direction, direction_end),
                param_type: type_at(chars, at_type, type_end),
                name: copy_range(chars, at_name, name_end),
                value,
            },
            rest,
        ),
    )
}

/// Whether `r`, a list of parameters with the position behind it or a
/// failure, is the outcome `p` of a rule.
spec fn renders_list(r: Result<(Vec<Param>, usize), ParseFailure>, p: Parsed<
    Seq<crate::model::ParamModel>,
>) -> bool {
    match r {
        Ok((found, rest)) => p == (Parsed::Accept {
            value: param_models(found@),
            rest: rest as nat,
        }),
        Err(failure) => p == (Parsed::Reject::<Seq<crate::model::ParamModel>> {
            position: failure.position as nat,
            expected: failure.expected,
        }),
    }
}

/// Reads a list of parameters from position `start`.
fn parameters_at(chars: &[char], start: usize) -> (r: Result<(Vec<Param>, usize), ParseFailure>)
    requires
        start <= chars.len(),
    ensures
        renders_list(r, grammar::parameters(chars@, start as nat)),
        r matches Ok((found, rest)) ==> found.len() >= 1 && start < rest <= chars.len(),
        r matches Err(failure) ==> start <= failure.position <= chars.len(),
{
    let (first, behind_first) = parameter_at(chars, start)?;
    let mut found: Vec<Param> = Vec::new();
    let mut at: usize = behind_first;
    proof {
        assert(param_models(found@.push(first)) =~= seq![first@]);
    }
    found.push(first);
    loop
        invariant
            start < at <= chars.len(),
            found.len() >= 1,
            grammar::parameters(chars@, start as nat) == grammar::more_parameters(
                chars@,
                at as nat,
                param_models(found@),
            ),
        decreases chars.len() - at,
    {
        match symbol_at(chars, at, ';') {
            Err(_) => {
                return Ok((found, at));
            },
            Ok(next) => match parameter_at(chars, next) {
                Ok((param, rest)) => {
                    proof {
                        assert(param_models(found@.push(param)) =~= param_models(found@).push(
                            param@,
                        ));
                    }
                    found.push(param);
                    at = rest;
                },
                Err(failure) => {
                    if failure.position == next {
                        return Ok((found, next));
                    } else {
                        return Err(failure);
                    }
                },
            },
        }
    }
}

/// Reads the head of a test block from position `start`: the test's name
/// and the library's.
fn test_head_at(chars: &[char], start: usize) -> (r: Result<
    ((String, String), usize),
    ParseFailure,
>)
    requires
        start <= chars.len(),
    ensures
        renders(r, grammar::test_head(chars@, start as nat)),
        r matches Ok((_, rest)) ==> start < rest <= chars.len(),
        r matches Err(failure) ==> start <= failure.position <= chars.len(),
{
    let at_name = keyword_at(chars, start, Keyword::Test)?;
    let (name_end, at_brace) = word_at(chars, at_name, CharClass::Word)?;
    let at_keyword = symbol_at(chars, at_brace, '{')?;
    let at_library = keyword_at(chars, at_keyword, Keyword::Library)?;
    let (library_end, at_end) = word_at(chars, at_library, CharClass::Word)?;
    let rest = symbol_at(chars, at_end, ';')?;
    Ok(
        (
            (copy_range(chars, at_name, name_end), copy_range(chars, at_library, library_end)),
            rest,
        ),
    )
}

/// Reads the parameters of a test block from position `start`.
fn parameter_block_at(chars: &[char], start: usize) -> (r: Result<
    (Vec<Param>, usize),
    ParseFailure,
>)
    requires
        start <= chars.len(),
    ensures
        renders_list(r, grammar::parameter_block(chars@, start as nat)),
        r matches Ok((found, rest)) ==> found.len() >= 1 && start < rest <= chars.len(),
        r matches Err(failure) ==> start <= failure.position <= chars.len(),
{
    let at_brace = keyword_at(chars, start, Keyword::Parameters)?;
    let at_list = symbol_at(chars, at_brace, '{')?;
    let (found, at_end) = parameters_at(chars, at_list)?;
    let rest = symbol_at(chars, at_end, '}')?;
    Ok((found, rest))
}

/// Reads a test block from position `start`.
fn test_exec_at(chars: &[char], start: usize) -> (r: Result<(Test, usize), ParseFailure>)
    requires
        start <= chars.len(),
    ensures
        renders(r, grammar::test_exec(chars@, start as nat)),
        r matches Ok((test, rest)) ==> test.parameters.len() >= 1 && start < rest <= chars.len(),
        r matches Err(failure) ==> start <= failure.position <= chars.len(),
{
    let (names, at_block) = test_head_at(chars, start)?;
    let (found, at_end) = parameter_block_at(chars, at_block)?;
    let rest = symbol_at(chars, at_end, '}')?;
    Ok((Test { name: names.0, library: names.1, parameters: found }, rest))
}

/// Whether `r`, a value with the text left unread or a failure, is the
/// outcome `p` of a rule on `input`: the value that the rule reads, with the
/// input from the rule's `rest` on; or the rule's failure.
pub open spec fn delivers<T: View>(
    r: Result<(T, &str), ParseFailure>,
    input: Seq<char>,
    p: Parsed<T::V>,
) -> bool {
    match p {
        Parsed::Accept { value, rest } => r matches Ok((read, unread)) && read@ == value
            && unread@ == input.skip(rest as int),
        Parsed::Reject { position, expected } => r matches Err(failure) && failure.position
            == position && failure.expected == expected,
    }
}

/// Whether `r`, a list of parameters with the text left unread or a failure,
/// is the outcome `p` of a rule on `input`.
pub open spec fn delivers_list(
    r: Result<(Vec<Param>, &str), ParseFailure>,
    input: Seq<char>,
    p: Parsed<Seq<crate::model::ParamModel>>,
) -> bool {
    match p {
        Parsed::Accept { value, rest } => r matches Ok((read, unread)) && param_models(read@)
            == value && unread@ == input.skip(rest as int),
        Parsed::Reject { position, expected } => r matches Err(failure) && failure.position
            == position && failure.expected == expected,
    }
}

/// The part of `input` from character `from` on.
fn unread(input: &str, from: usize, len: usize) -> (tail: &str)
    requires
        from <= len == input@.len(),
    ensures
        tail@ == input@.skip(from as int),
{
    input.substring_char(from, len)
}

/// Reads a number from the start of `input`: an optional `-`, one or more
/// digits, optionally `.` and one or more digits, optionally a unit of
/// letters, and the whitespace behind it. The number's `data` is the decimal
/// literal as it is written.
pub fn number(input: &str) -> (r: Result<(ValueType, &str), ParseFailure>)
    ensures
        delivers(r, input@, grammar::number(input@, 0)),
        r matches Ok((_, unread)) ==> unread@.len() < input@.len(),
        r matches Err(failure) ==> failure.position <= input@.len(),
        r matches Ok((value, _)) ==> value@ is Number && value@.well_formed(),
{
    let chars = to_chars(input);
    proof {
        number_is_well_formed(chars@, 0);
    }
    match number_at(chars.as_slice(), 0) {
        Ok((value, rest)) => Ok((value, unread(input, rest, chars.len()))),
        Err(failure) => Err(failure),
    }
}

/// Reads a text from the start of `input`: one or more letters, digits and
/// underscores, and the whitespace behind them. It fails only where `input`
/// does not begin with such a character.
pub fn text(input: &str) -> (r: Result<(ValueType, &str), ParseFailure>)
    ensures
        delivers(r, input@, grammar::text(input@, 0)),
        r matches Ok((_, unread)) ==> unread@.len() < input@.len(),
        r matches Err(failure) ==> failure.position <= input@.len(),
        r matches Ok((value, _)) ==> value@ is Text && value@.well_formed(),
        r is Ok <==> input@.len() > 0 && CharClass::Word.contains(input@[0]),
{
    let chars = to_chars(input);
    proof {
        text_is_well_formed(chars@, 0);
        grammar::lemma_run_end_bounds(chars@, 1, CharClass::Word);
    }
    match text_at(chars.as_slice(), 0) {
        Ok((value, rest)) => Ok((value, unread(input, rest, chars.len()))),
        Err(failure) => Err(failure),
    }
}

/// Reads a boolean from the start of `input`: `true` or `false` in any
/// casing, and the whitespace behind it. It fails on every other input.
pub fn boolean(input: &str) -> (r: Result<(ValueType, &str), ParseFailure>)
    ensures
        delivers(r, input@, grammar::boolean(input@, 0)),
        r matches Ok((_, unread)) ==> unread@.len() < input@.len(),
        r matches Err(failure) ==> failure.position <= input@.len(),
        r matches Ok((value, _)) ==> value@ is Bool,
        r is Ok <==> spells_in_any_casing(input@, 0, Keyword::True.text())
            || spells_in_any_casing(input@, 0, Keyword::False.text()),
{
    let chars = to_chars(input);
    proof {
        boolean_reads_any_casing(chars@, 0);
    }
    match boolean_at(chars.as_slice(), 0) {
        Ok((value, rest)) => Ok((value, unread(input, rest, chars.len()))),
        Err(failure) => Err(failure),
    }
}

/// Reads a parameter declaration from the start of `input`: a direction, a
/// type, a name, `=` and a value, which is read as a number, else as a
/// boolean, else as a text. A direction or type word that is no keyword is
/// read as `Unknown`.
pub fn parameter(input: &str) -> (r: Result<(Param, &str), ParseFailure>)
    ensures
        delivers(r, input@, grammar::parameter(input@, 0)),
        r matches Ok((_, unread)) ==> unread@.len() < input@.len(),
        r matches Err(failure) ==> failure.position <= input@.len(),
        r matches Ok((param, _)) ==> param@.well_formed(),
{
    let chars = to_chars(input);
    proof {
        parameter_is_well_formed(chars@, 0);
    }
    match parameter_at(chars.as_slice(), 0) {
        Ok((param, rest)) => Ok((param, unread(input, rest, chars.len()))),
        Err(failure) => Err(failure),
    }
}

/// Reads a list of parameters from the start of `input`: one or more
/// declarations, in their order, with `;` between them and, if it is there,
/// behind the last.
pub fn parameters(input: &str) -> (r: Result<(Vec<Param>, &str), ParseFailure>)
    ensures
        delivers_list(r, input@, grammar::parameters(input@, 0)),
        r matches Ok((_, unread)) ==> unread@.len() < input@.len(),
        r matches Err(failure) ==> failure.position <= input@.len(),
        r matches Ok((found, _)) ==> found.len() >= 1 && forall|i: int|
            0 <= i < found.len() ==> (#[trigger] found[i])@.well_formed(),
{
    let chars = to_chars(input);
    proof {
        parameters_are_well_formed(chars@, 0);
    }
    match parameters_at(chars.as_slice(), 0) {
        Ok((found, rest)) => {
            proof {
                assert forall|i: int| 0 <= i < found.len() implies (#[trigger] found[i])@.well_formed() by {
                    assert(param_models(found@)[i] == found[i]@);
                }
            }
            Ok((found, unread(input, rest, chars.len())))
        },
        Err(failure) => Err(failure),
    }
}

/// Reads a test block from the start of `input`: `Test`, the name, `{`,
/// `Library`, the library's name, `;`, `Parameters`, a list of parameters in
/// braces, and `}`. A block without a parameter is not read.
pub fn test_exec(input: &str) -> (r: Result<(Test, &str), ParseFailure>)
    ensures
        delivers(r, input@, grammar::test_exec(input@, 0)),
        r matches Ok((_, unread)) ==> unread@.len() < input@.len(),
        r matches Err(failure) ==> failure.position <= input@.len(),
        r matches Ok((test, _)) ==> test.parameters.len() >= 1 && test@.well_formed(),
{
    let chars = to_chars(input);
    proof {
        test_is_well_formed(chars@, 0);
    }
    match test_exec_at(chars.as_slice(), 0) {
        Ok((test, rest)) => Ok((test, unread(input, rest, chars.len()))),
        Err(failure) => Err(failure),
    }
}

} // verus!
