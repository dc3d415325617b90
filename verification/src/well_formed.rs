//! What holds of everything that is read: texts, units and names are runs
//! of their characters, a number's literal is a decimal literal, and a list
//! has at least one parameter.

use vstd::prelude::*;

use crate::chars::CharClass;
use crate::embedding::lemma_run_end_same;
use crate::failure::Keyword;
use crate::grammar::Parsed;
use crate::grammar::is_decimal;
use crate::grammar::is_run;
use crate::grammar::keyword;
use crate::grammar::lemma_keyword_advances;
use crate::grammar::lemma_parameter_advances;
use crate::grammar::lemma_run_end_bounds;
use crate::grammar::lemma_run_end_holds;
use crate::grammar::lemma_symbol_advances;
use crate::grammar::lemma_word_advances;
use crate::grammar::more_parameters;
use crate::grammar::number;
use crate::grammar::parameter;
use crate::grammar::parameter_block;
use crate::grammar::parameters;
use crate::grammar::peek;
use crate::grammar::run_end;
use crate::grammar::skip_spaces;
use crate::grammar::symbol;
use crate::grammar::test_exec;
use crate::grammar::test_head;
use crate::grammar::text;
use crate::grammar::value;
use crate::grammar::word;
use crate::model::ParamModel;

verus! {

/// The characters of a run are a run.
proof fn lemma_word_is_run(s: Seq<char>, start: nat, class: CharClass)
    ensures
        word(s, start, class) matches Parsed::Accept { value, .. } ==> is_run(value, class),
{
    lemma_run_end_bounds(s, start, class);
    lemma_run_end_holds(s, start, class);
    let end = run_end(s, start, class);
    if end > start && start <= s.len() {
        let run = s.subrange(start as int, end as int);
        assert forall|i: int| 0 <= i < run.len() implies class.contains(#[trigger] run[i]) by {
            assert(run[i] == s[start + i]);
        }
    }
}

/// Every text that is read is well formed.
pub proof fn text_is_well_formed(s: Seq<char>, start: nat)
    ensures
        text(s, start) matches Parsed::Accept { value, .. } ==> value.well_formed(),
{
    lemma_word_is_run(s, start, CharClass::Word);
}

/// A run that lies within a part of the input is a run of that part.
proof fn lemma_run_of_part(
    s: Seq<char>,
    from: nat,
    to: nat,
    p: nat,
    class: CharClass,
)
    requires
        from <= p <= to <= s.len(),
        run_end(s, p, class) <= to,
    ensures
        run_end(s.subrange(from as int, to as int), (p - from) as nat, class) == run_end(
            s,
            p,
            class,
        ) - from,
{
    let part = s.subrange(from as int, to as int);
    let shift = (p - from) as nat;
    let end = run_end(s, p, class);
    lemma_run_end_bounds(s, p, class);
    lemma_run_end_holds(s, p, class);
    assert forall|j: int| p <= j < end implies part[shift + (j - p)] == #[trigger] s[j] by {
        assert(part[j - from] == s[from + (j - from)]);
    }
    if shift + (end - p) < part.len() {
        assert(part[end - from] == s[from + (end - from)]);
    }
    lemma_run_end_same(s, p, part, shift, class);
}

/// The literal of a number that is read is a decimal literal.
proof fn lemma_number_literal(s: Seq<char>, start: nat, digits: nat, whole: nat, fraction: nat)
    requires
        start <= s.len(),
        digits == if peek(s, start) == Some('-') {
            start + 1
        } else {
            start
        },
        whole == run_end(s, digits, CharClass::Digit),
        whole > digits,
        fraction == if peek(s, whole) == Some('.') {
            run_end(s, whole + 1, CharClass::Digit)
        } else {
            whole
        },
        fraction != whole + 1,
    ensures
        whole <= fraction <= s.len(),
        is_decimal(s.subrange(start as int, fraction as int)),
{
    lemma_run_end_bounds(s, digits, CharClass::Digit);
    let pointed = peek(s, whole) == Some('.');
    if pointed {
        lemma_run_end_bounds(s, whole + 1, CharClass::Digit);
    }
    let data = s.subrange(start as int, fraction as int);
    assert(data[0] == s[start + 0int]);
    lemma_run_of_part(s, start, fraction, digits, CharClass::Digit);
    if pointed {
        assert(data[whole - start] == s[start + (whole - start)]);
        lemma_run_of_part(s, start, fraction, whole + 1, CharClass::Digit);
    }
}

/// The letters of a unit are a run of letters.
proof fn lemma_unit_is_run(s: Seq<char>, start: nat)
    ensures
        run_end(s, start, CharClass::Letter) != start ==> is_run(
            s.subrange(start as int, run_end(s, start, CharClass::Letter) as int),
            CharClass::Letter,
        ),
{
    lemma_word_is_run(s, start, CharClass::Letter);
}

/// Every number that is read is well formed: its `data` is a decimal
/// literal, and its unit a run of letters.
pub proof fn number_is_well_formed(s: Seq<char>, start: nat)
    ensures
        number(s, start) matches Parsed::Accept { value, .. } ==> value.well_formed(),
{
    let digits = if peek(s, start) == Some('-') {
        start + 1
    } else {
        start
    };
    let whole = run_end(s, digits, CharClass::Digit);
    let fraction = if peek(s, whole) == Some('.') {
        run_end(s, whole + 1, CharClass::Digit)
    } else {
        whole
    };
    lemma_run_end_bounds(s, digits, CharClass::Digit);
    if whole > digits && fraction != whole + 1 && start <= s.len() {
        lemma_number_literal(s, start, digits, whole, fraction);
        lemma_unit_is_run(s, fraction);
    }
}

/// Every value that is read is well formed.
pub proof fn value_is_well_formed(s: Seq<char>, start: nat)
    ensures
        value(s, start) matches Parsed::Accept { value, .. } ==> value.well_formed(),
{
    number_is_well_formed(s, start);
    text_is_well_formed(s, start);
}

/// Every parameter that is read is well formed.
pub proof fn parameter_is_well_formed(s: Seq<char>, start: nat)
    ensures
        parameter(s, start) matches Parsed::Accept { value, .. } ==> value.well_formed(),
{
    reveal(parameter);
    lemma_run_end_bounds(s, start, CharClass::Space);
    let at_direction = skip_spaces(s, start);
    lemma_word_advances(s, at_direction, CharClass::Letter);
    if let Parsed::Accept { value: _, rest: at_type } = word(s, at_direction, CharClass::Letter) {
        lemma_word_advances(s, at_type, CharClass::Name);
        if let Parsed::Accept { value: _, rest: at_name } = word(s, at_type, CharClass::Name) {
            lemma_word_advances(s, at_name, CharClass::Name);
            lemma_word_is_run(s, at_name, CharClass::Name);
            if let Parsed::Accept { value: _, rest: at_equals } = word(
                s,
                at_name,
                CharClass::Name,
            ) {
                lemma_symbol_advances(s, at_equals, '=');
                if let Parsed::Accept { value: _, rest: at_value } = symbol(s, at_equals, '=') {
                    value_is_well_formed(s, at_value);
                }
            }
        }
    }
}

/// Behind well-formed parameters, a list goes on with well-formed
/// parameters only, and loses none.
proof fn lemma_more_parameters_well_formed(s: Seq<char>, start: nat, found: Seq<ParamModel>)
    requires
        forall|i: int| 0 <= i < found.len() ==> (#[trigger] found[i]).well_formed(),
    ensures
        more_parameters(s, start, found) matches Parsed::Accept { value, .. } ==> value.len()
            >= found.len() && forall|i: int|
            0 <= i < value.len() ==> (#[trigger] value[i]).well_formed(),
    decreases s.len() - start,
{
    lemma_symbol_advances(s, start, ';');
    if let Parsed::Accept { value: _, rest: next } = symbol(s, start, ';') {
        lemma_parameter_advances(s, next);
        parameter_is_well_formed(s, next);
        if let Parsed::Accept { value, rest } = parameter(s, next) {
            lemma_more_parameters_well_formed(s, rest, found.push(value));
        }
    }
}

/// Every list of parameters that is read holds at least one parameter, and
/// well-formed parameters only.
pub proof fn parameters_are_well_formed(s: Seq<char>, start: nat)
    ensures
        parameters(s, start) matches Parsed::Accept { value, .. } ==> value.len() >= 1
            && forall|i: int| 0 <= i < value.len() ==> (#[trigger] value[i]).well_formed(),
{
    parameter_is_well_formed(s, start);
    if let Parsed::Accept { value, rest } = parameter(s, start) {
        lemma_more_parameters_well_formed(s, rest, seq![value]);
    }
}

/// The two names in the head of a test block are runs of letters, digits
/// and underscores, and the head ends within the input.
proof fn lemma_test_head_names(s: Seq<char>, start: nat)
    requires
        start <= s.len(),
    ensures
        test_head(s, start) matches Parsed::Accept { value, rest } ==> is_run(
            value.0,
            CharClass::Word,
        ) && is_run(value.1, CharClass::Word) && rest <= s.len(),
{
    lemma_keyword_advances(s, start, Keyword::Test);
    if let Parsed::Accept { value: _, rest: at_name } = keyword(s, start, Keyword::Test) {
        lemma_word_advances(s, at_name, CharClass::Word);
        lemma_word_is_run(s, at_name, CharClass::Word);
        if let Parsed::Accept { value: _, rest: at_brace } = word(s, at_name, CharClass::Word) {
            lemma_symbol_advances(s, at_brace, '{');
            if let Parsed::Accept { value: _, rest: at_keyword } = symbol(s, at_brace, '{') {
                lemma_keyword_advances(s, at_keyword, Keyword::Library);
                if let Parsed::Accept { value: _, rest: at_library } = keyword(
                    s,
                    at_keyword,
                    Keyword::Library,
                ) {
                    lemma_word_advances(s, at_library, CharClass::Word);
                    lemma_word_is_run(s, at_library, CharClass::Word);
                    if let Parsed::Accept { value: _, rest: at_end } = word(
                        s,
                        at_library,
                        CharClass::Word,
                    ) {
                        lemma_symbol_advances(s, at_end, ';');
                    }
                }
            }
        }
    }
}

/// The parameters of a test block are at least one, and well formed.
proof fn lemma_parameter_block_well_formed(s: Seq<char>, start: nat)
    ensures
        parameter_block(s, start) matches Parsed::Accept { value, .. } ==> value.len() >= 1
            && forall|i: int| 0 <= i < value.len() ==> (#[trigger] value[i]).well_formed(),
{
    if let Parsed::Accept { value: _, rest: at_brace } = keyword(s, start, Keyword::Parameters) {
        if let Parsed::Accept { value: _, rest: at_list } = symbol(s, at_brace, '{') {
            parameters_are_well_formed(s, at_list);
        }
    }
}

/// Every test block that is read is well formed: it has its two names and
/// at least one parameter.
pub proof fn test_is_well_formed(s: Seq<char>, start: nat)
    ensures
        test_exec(s, start) matches Parsed::Accept { value, .. } ==> value.well_formed(),
{
    crate::grammar::lemma_keyword_not_empty(Keyword::Test);
    if start <= s.len() {
        lemma_test_head_names(s, start);
        if let Parsed::Accept { value: _, rest: at_block } = test_head(s, start) {
            lemma_parameter_block_well_formed(s, at_block);
        }
    }
}

} // verus!
