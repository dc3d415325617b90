//! What the rules read from inputs of a given make: a decimal literal with
//! a unit, a run of word characters, a keyword in any casing, a declaration
//! written with any words, and a list of declarations joined by `;`.

use vstd::prelude::*;

use crate::chars::CharClass;
use crate::chars::is_letter;
use crate::embedding::embeds;
use crate::embedding::lemma_parameter_embedded;
use crate::embedding::lemma_value_embedded;
use crate::failure::Keyword;
use crate::grammar::Parsed;
use crate::grammar::boolean;
use crate::grammar::direction_of;
use crate::grammar::is_decimal;
use crate::grammar::is_run;
use crate::grammar::lemma_match_end_bounds;
use crate::grammar::lemma_run_end_bounds;
use crate::grammar::lemma_run_end_holds;
use crate::grammar::lemma_run_end_unique;
use crate::grammar::lemma_value_advances;
use crate::grammar::match_end;
use crate::grammar::more_parameters;
use crate::grammar::number;
use crate::grammar::parameter;
use crate::grammar::parameters;
use crate::grammar::peek;
use crate::grammar::run_end;
use crate::grammar::same_letter;
use crate::grammar::skip_spaces;
use crate::grammar::spells_in_any_casing;
use crate::grammar::symbol;
use crate::grammar::word;
use crate::grammar::text;
use crate::grammar::type_of;
use crate::grammar::value;
use crate::model::ArgDirection;
use crate::model::ParamModel;
use crate::model::ParamType;
use crate::model::ValueModel;

verus! {

/// A letter is no digit and no point.
proof fn lemma_letter_is_no_digit(c: char)
    requires
        is_letter(c),
    ensures
        !CharClass::Digit.contains(c),
        c != '.',
        c != '-',
{
}

/// A decimal literal with a unit of letters behind it reads as the number
/// of that literal with that unit, and the literal alone as the number
/// without a unit; nothing is left unread.
pub proof fn number_reads_decimal_and_unit(literal: Seq<char>, unit: Seq<char>)
    requires
        is_decimal(literal),
        forall|i: int| 0 <= i < unit.len() ==> is_letter(#[trigger] unit[i]),
    ensures
        number(literal + unit, 0) == (Parsed::Accept {
            value: ValueModel::Number {
                data: literal,
                unit: if unit.len() == 0 {
                    None
                } else {
                    Some(unit)
                },
            },
            rest: (literal + unit).len(),
        }),
{
    let input = literal + unit;
    let n = literal.len();
    let digits: nat = if peek(literal, 0) == Some('-') {
        1
    } else {
        0
    };
    let whole = run_end(literal, digits, CharClass::Digit);
    lemma_run_end_bounds(literal, digits, CharClass::Digit);
    lemma_run_end_holds(literal, digits, CharClass::Digit);
    assert(peek(input, 0) == peek(literal, 0));
    if unit.len() > 0 {
        lemma_letter_is_no_digit(unit[0]);
        assert(input[n as int] == unit[0]);
    }
    assert forall|j: int| digits <= j < whole implies CharClass::Digit.contains(
        #[trigger] input[j],
    ) by {
        assert(input[j] == literal[j]);
    }
    if whole < n {
        assert(input[whole as int] == literal[whole as int]);
    }
    lemma_run_end_unique(input, digits, CharClass::Digit, whole);
    if whole < n {
        lemma_run_end_bounds(literal, whole + 1, CharClass::Digit);
        lemma_run_end_holds(literal, whole + 1, CharClass::Digit);
        assert forall|j: int| whole + 1 <= j < n implies CharClass::Digit.contains(
            #[trigger] input[j],
        ) by {
            assert(input[j] == literal[j]);
        }
        lemma_run_end_unique(input, whole + 1, CharClass::Digit, n);
    }
    assert forall|j: int| n <= j < input.len() implies CharClass::Letter.contains(
        #[trigger] input[j],
    ) by {
        assert(input[j] == unit[j - n]);
    }
    lemma_run_end_unique(input, n, CharClass::Letter, input.len());
    lemma_run_end_unique(input, input.len(), CharClass::Space, input.len());
    assert(input.subrange(0, n as int) =~= literal);
    assert(input.subrange(n as int, input.len() as int) =~= unit);
}

/// A run of letters, digits and underscores, with nothing behind it that
/// goes on with the run, reads as the text of exactly that run; the
/// whitespace behind it is read too, and no more.
pub proof fn text_reads_word_run(run: Seq<char>, tail: Seq<char>)
    requires
        is_run(run, CharClass::Word),
        tail.len() > 0 ==> !CharClass::Word.contains(tail[0]),
    ensures
        text(run + tail, 0) == (Parsed::Accept {
            value: ValueModel::Text { data: run },
            rest: run.len() + skip_spaces(tail, 0),
        }),
{
    let input = run + tail;
    let n = run.len();
    assert forall|j: int| 0 <= j < n implies CharClass::Word.contains(#[trigger] input[j]) by {
        assert(input[j] == run[j]);
    }
    if tail.len() > 0 {
        assert(input[n as int] == tail[0]);
    }
    lemma_run_end_unique(input, 0, CharClass::Word, n);
    let blank = skip_spaces(tail, 0);
    lemma_run_end_bounds(tail, 0, CharClass::Space);
    lemma_run_end_holds(tail, 0, CharClass::Space);
    assert forall|j: int| n <= j < n + blank implies CharClass::Space.contains(
        #[trigger] input[j],
    ) by {
        assert(input[j] == tail[j - n]);
    }
    if blank < tail.len() {
        assert(input[(n + blank) as int] == tail[blank as int]);
    }
    lemma_run_end_unique(input, n, CharClass::Space, n + blank);
    assert(input.subrange(0, n as int) =~= run);
}

/// As much of a keyword as is matched is held by the input, and the
/// character behind it is not.
proof fn lemma_match_end_holds(
    s: Seq<char>,
    start: nat,
    word: Seq<char>,
    fold_case: bool,
    from: nat,
)
    requires
        from <= word.len(),
        start + from <= s.len(),
    ensures
        forall|i: int|
            from <= i < match_end(s, start, word, fold_case, from) ==> same_letter(
                s[start + i],
                #[trigger] word[i],
                fold_case,
            ),
        match_end(s, start, word, fold_case, from) < word.len() ==> start + match_end(
            s,
            start,
            word,
            fold_case,
            from,
        ) == s.len() || !same_letter(
            s[(start + match_end(s, start, word, fold_case, from)) as int],
            word[match_end(s, start, word, fold_case, from) as int],
            fold_case,
        ),
    decreases word.len() - from,
{
    lemma_match_end_bounds(s, start, word, fold_case, from);
    if from < word.len() && start + from < s.len() && same_letter(
        s[(start + from) as int],
        word[from as int],
        fold_case,
    ) {
        lemma_match_end_holds(s, start, word, fold_case, from + 1);
    }
}

/// A boolean is read from exactly those inputs that spell `true` or `false`
/// in some casing: the one reads as true and the other as false, each with
/// the whitespace behind it.
pub proof fn boolean_reads_any_casing(s: Seq<char>, start: nat)
    ensures
        spells_in_any_casing(s, start, Keyword::True.text()) ==> boolean(s, start)
            == (Parsed::Accept {
            value: ValueModel::Bool { data: true },
            rest: skip_spaces(s, start + Keyword::True.text().len()),
        }),
        spells_in_any_casing(s, start, Keyword::False.text()) ==> boolean(s, start)
            == (Parsed::Accept {
            value: ValueModel::Bool { data: false },
            rest: skip_spaces(s, start + Keyword::False.text().len()),
        }),
        !spells_in_any_casing(s, start, Keyword::True.text()) && !spells_in_any_casing(
            s,
            start,
            Keyword::False.text(),
        ) ==> boolean(s, start) is Reject,
{
    let yes = Keyword::True.text();
    let no = Keyword::False.text();
    reveal_strlit("true");
    reveal_strlit("false");
    if start <= s.len() {
        lemma_match_end_holds(s, start, yes, true, 0);
        lemma_match_end_bounds(s, start, yes, true, 0);
        lemma_match_end_holds(s, start, no, true, 0);
        lemma_match_end_bounds(s, start, no, true, 0);
        let matched_yes = match_end(s, start, yes, true, 0);
        let matched_no = match_end(s, start, no, true, 0);
        if spells_in_any_casing(s, start, yes) {
            if matched_yes < yes.len() {
                assert(same_letter(s[(start + matched_yes) as int], yes[matched_yes as int], true));
            }
        }
        if spells_in_any_casing(s, start, no) {
            if matched_no < no.len() {
                assert(same_letter(s[(start + matched_no) as int], no[matched_no as int], true));
            }
            assert(same_letter(s[start + 0int], no[0], true));
            assert(!same_letter(s[start + 0int], yes[0], true));
        }
    }
}

/// Whether the input holds the five parts of a declaration from `start` on:
/// a direction word, a type word, a name, `=` and a value. What the words
/// are plays no part in it.
pub open spec fn has_declaration_parts(s: Seq<char>, start: nat) -> bool {
    let direction = word(s, skip_spaces(s, start), CharClass::Letter);
    let kind = word(s, direction->rest, CharClass::Name);
    let name = word(s, kind->rest, CharClass::Name);
    let equals = symbol(s, name->rest, '=');
    let written = value(s, equals->rest);
    direction is Accept && kind is Accept && name is Accept && equals is Accept
        && written is Accept
}

/// A parameter is read wherever the input holds the five parts of a
/// declaration, and nowhere else: no direction word and no type word makes
/// it fail. The words decide only what the direction and the type of the
/// parameter are, and each word that is no keyword gives `Unknown`.
pub proof fn parameter_fails_on_no_word(s: Seq<char>, start: nat)
    ensures
        parameter(s, start) is Accept <==> has_declaration_parts(s, start),
        parameter(s, start) matches Parsed::Accept { value, .. } ==> value.arg_direction
            == direction_of(word(s, skip_spaces(s, start), CharClass::Letter)->value)
            && value.param_type == type_of(
            word(
                s,
                word(s, skip_spaces(s, start), CharClass::Letter)->rest,
                CharClass::Name,
            )->value,
        ),
        forall|written: Seq<char>|
            written != "In"@ && written != "Out"@ ==> #[trigger] direction_of(written)
                == ArgDirection::Unknown,
        forall|written: Seq<char>|
            written != "sigref_expr"@ && written != "Voltage"@ && written != "Current"@ && written
                != "String"@ && written != "Integer"@ && written != "Real"@ && written != "Time"@
                && written != "Bool"@ && written != "Enum"@ ==> #[trigger] type_of(written)
                == ParamType::Unknown,
{
    reveal(parameter);
}

/// Whether `text` is one value and nothing else.
pub open spec fn is_value(text: Seq<char>) -> bool {
    value(text, 0) matches Parsed::Accept { rest, .. } && rest == text.len()
}

/// The declaration that is written with the four parts, with one blank
/// between them and on either side of `=`.
pub open spec fn declaration(
    direction: Seq<char>,
    kind: Seq<char>,
    name: Seq<char>,
    written: Seq<char>,
) -> Seq<char> {
    direction + seq![' '] + kind + seq![' '] + name + seq![' ', '=', ' '] + written
}

/// Where the parts of a declaration stand in it.
proof fn lemma_declaration_parts(
    direction: Seq<char>,
    kind: Seq<char>,
    name: Seq<char>,
    written: Seq<char>,
)
    ensures
        declaration(direction, kind, name, written).len() == direction.len() + kind.len()
            + name.len() + written.len() + 5,
        forall|i: int|
            0 <= i < direction.len() ==> declaration(direction, kind, name, written)[i]
                == #[trigger] direction[i],
        declaration(direction, kind, name, written)[direction.len() as int] == ' ',
        forall|i: int|
            0 <= i < kind.len() ==> declaration(direction, kind, name, written)[direction.len()
                + 1 + i] == #[trigger] kind[i],
        declaration(direction, kind, name, written)[direction.len() + kind.len() + 1int] == ' ',
        forall|i: int|
            0 <= i < name.len() ==> declaration(direction, kind, name, written)[direction.len()
                + kind.len() + 2 + i] == #[trigger] name[i],
        declaration(direction, kind, name, written)[direction.len() + kind.len() + name.len()
            + 2int] == ' ',
        declaration(direction, kind, name, written)[direction.len() + kind.len() + name.len()
            + 3int] == '=',
        declaration(direction, kind, name, written)[direction.len() + kind.len() + name.len()
            + 4int] == ' ',
        forall|i: int|
            0 <= i < written.len() ==> declaration(
                direction,
                kind,
                name,
                written,
            )[direction.len() + kind.len() + name.len() + 5 + i] == #[trigger] written[i],
{
    let a = direction + seq![' '];
    let b = a + kind;
    let c = b + seq![' '];
    let d = c + name;
    let e = d + seq![' ', '=', ' '];
    let f = e + written;
    assert(f == declaration(direction, kind, name, written));
    assert forall|i: int| 0 <= i < direction.len() implies f[i] == #[trigger] direction[i] by {
        assert(a[i] == direction[i]);
        assert(b[i] == a[i]);
        assert(c[i] == b[i]);
        assert(d[i] == c[i]);
        assert(e[i] == d[i]);
    }
    let gap_one = direction.len() as int;
    assert(f[gap_one] == ' ') by {
        assert(a[gap_one] == ' ');
        assert(b[gap_one] == a[gap_one]);
        assert(c[gap_one] == b[gap_one]);
        assert(d[gap_one] == c[gap_one]);
        assert(e[gap_one] == d[gap_one]);
    }
    assert forall|i: int| 0 <= i < kind.len() implies f[gap_one + 1 + i] == #[trigger] kind[i] by {
        assert(b[gap_one + 1 + i] == kind[i]);
        assert(c[gap_one + 1 + i] == b[gap_one + 1 + i]);
        assert(d[gap_one + 1 + i] == c[gap_one + 1 + i]);
        assert(e[gap_one + 1 + i] == d[gap_one + 1 + i]);
    }
    let gap_two = gap_one + 1 + kind.len();
    assert(f[gap_two] == ' ') by {
        assert(c[gap_two] == ' ');
        assert(d[gap_two] == c[gap_two]);
        assert(e[gap_two] == d[gap_two]);
    }
    assert forall|i: int| 0 <= i < name.len() implies f[gap_two + 1 + i] == #[trigger] name[i] by {
        assert(d[gap_two + 1 + i] == name[i]);
        assert(e[gap_two + 1 + i] == d[gap_two + 1 + i]);
    }
    let gap_three = gap_two + 1 + name.len();
    assert(f[gap_three] == ' ' && f[gap_three + 1] == '=' && f[gap_three + 2] == ' ') by {
        assert(e[gap_three] == ' ');
        assert(e[gap_three + 1] == '=');
        assert(e[gap_three + 2] == ' ');
    }
    assert forall|i: int| 0 <= i < written.len() implies f[gap_three + 3 + i] == #[trigger] written[i] by {
        assert(f[gap_three + 3 + i] == written[i]);
    }
}

/// Where the runs of a declaration end, and that it embeds its value.
proof fn lemma_declaration_runs(
    direction: Seq<char>,
    kind: Seq<char>,
    name: Seq<char>,
    written: Seq<char>,
)
    requires
        is_run(direction, CharClass::Letter),
        is_run(kind, CharClass::Name),
        is_run(name, CharClass::Name),
        written.len() > 0,
        !CharClass::Space.contains(direction[0]),
        !CharClass::Space.contains(kind[0]),
        !CharClass::Space.contains(name[0]),
        !CharClass::Space.contains(written[0]),
    ensures
        ({
            let input = declaration(direction, kind, name, written);
            let d = direction.len();
            let k = kind.len();
            let n = name.len();
            &&& run_end(input, 0, CharClass::Space) == 0
            &&& run_end(input, 0, CharClass::Letter) == d
            &&& run_end(input, d, CharClass::Space) == d + 1
            &&& run_end(input, d + 1, CharClass::Name) == d + 1 + k
            &&& run_end(input, d + 1 + k, CharClass::Space) == d + k + 2
            &&& run_end(input, d + k + 2, CharClass::Name) == d + k + 2 + n
            &&& run_end(input, d + k + 2 + n, CharClass::Space) == d + k + n + 3
            &&& peek(input, d + k + n + 3) == Some('=')
            &&& run_end(input, d + k + n + 4, CharClass::Space) == d + k + n + 5
            &&& input.subrange(0, d as int) == direction
            &&& input.subrange((d + 1) as int, (d + 1 + k) as int) == kind
            &&& input.subrange((d + k + 2) as int, (d + k + 2 + n) as int) == name
            &&& embeds(input, d + k + n + 5, written)
            &&& input.len() == d + k + n + 5 + written.len()
        }),
{
    let input = declaration(direction, kind, name, written);
    lemma_declaration_parts(direction, kind, name, written);
    let gap_one = direction.len();
    let at_type = gap_one + 1;
    let gap_two = at_type + kind.len();
    let at_name = gap_two + 1;
    let gap_three = at_name + name.len();
    let at_equals = gap_three + 1;
    let at_value = at_equals + 2;
    assert(input[0] == direction[0]);
    lemma_run_end_unique(input, 0, CharClass::Space, 0);
    assert forall|j: int| 0 <= j < gap_one implies CharClass::Letter.contains(#[trigger] input[j]) by {
        assert(input[j] == direction[j]);
    }
    lemma_run_end_unique(input, 0, CharClass::Letter, gap_one);
    assert(input[gap_one + 1 + 0int] == kind[0]);
    lemma_run_end_unique(input, gap_one + 1, CharClass::Space, at_type);
    lemma_run_end_unique(input, gap_one, CharClass::Space, at_type);
    assert(input.subrange(0, gap_one as int) =~= direction);
    assert forall|j: int| at_type <= j < gap_two implies CharClass::Name.contains(
        #[trigger] input[j],
    ) by {
        assert(input[gap_one + 1 + (j - at_type)] == kind[j - at_type]);
    }
    lemma_run_end_unique(input, at_type, CharClass::Name, gap_two);
    assert(input[gap_one + kind.len() + 2 + 0int] == name[0]);
    lemma_run_end_unique(input, gap_two + 1, CharClass::Space, at_name);
    lemma_run_end_unique(input, gap_two, CharClass::Space, at_name);
    assert(input.subrange(at_type as int, gap_two as int) =~= kind);
    assert forall|j: int| at_name <= j < gap_three implies CharClass::Name.contains(
        #[trigger] input[j],
    ) by {
        assert(input[gap_one + kind.len() + 2 + (j - at_name)] == name[j - at_name]);
    }
    lemma_run_end_unique(input, at_name, CharClass::Name, gap_three);
    lemma_run_end_unique(input, gap_three + 1, CharClass::Space, at_equals);
    lemma_run_end_unique(input, gap_three, CharClass::Space, at_equals);
    assert(input.subrange(at_name as int, gap_three as int) =~= name);
    assert(input[gap_one + kind.len() + name.len() + 5 + 0int] == written[0]);
    lemma_run_end_unique(input, at_equals + 2, CharClass::Space, at_value);
    lemma_run_end_unique(input, at_equals + 1, CharClass::Space, at_value);
    assert forall|i: int| 0 <= i < written.len() implies input[at_value + i]
        == #[trigger] written[i] by {
        assert(input[gap_one + kind.len() + name.len() + 5 + i] == written[i]);
    }
}

/// A declaration written with any direction word of letters, any type word
/// and any name of letters and underscores, and any value, none of them
/// beginning with whitespace, is read, whether its words are keywords or
/// not: the direction and the type are those that the words name, and
/// `Unknown` for every word that names none.
pub proof fn parameter_reads_any_words(
    direction: Seq<char>,
    kind: Seq<char>,
    name: Seq<char>,
    written: Seq<char>,
)
    requires
        is_run(direction, CharClass::Letter),
        is_run(kind, CharClass::Name),
        is_run(name, CharClass::Name),
        is_value(written),
        !CharClass::Space.contains(direction[0]),
        !CharClass::Space.contains(kind[0]),
        !CharClass::Space.contains(name[0]),
        !CharClass::Space.contains(written[0]),
    ensures
        parameter(declaration(direction, kind, name, written), 0) == (Parsed::Accept {
            value: ParamModel {
                arg_direction: direction_of(direction),
                param_type: type_of(kind),
                name,
                value: value(written, 0)->value,
            },
            rest: declaration(direction, kind, name, written).len(),
        }),
{
    reveal(parameter);
    let input = declaration(direction, kind, name, written);
    lemma_value_advances(written, 0);
    lemma_declaration_runs(direction, kind, name, written);
    let at_value = direction.len() + kind.len() + name.len() + 5;
    lemma_value_embedded(input, at_value, written, 0);
}

/// Whether `text` is one parameter declaration and nothing else.
pub open spec fn is_declaration(text: Seq<char>) -> bool {
    parameter(text, 0) matches Parsed::Accept { rest, .. } && rest == text.len()
}

/// The parameter that the declaration `text` declares.
pub open spec fn declared(text: Seq<char>) -> ParamModel {
    parameter(text, 0)->value
}

/// What follows the first declaration of a list: each further declaration
/// behind a `;`, and one more `;` behind the last if the list is `closed`.
pub open spec fn following(declarations: Seq<Seq<char>>, closed: bool) -> Seq<char>
    decreases declarations.len(),
{
    if declarations.len() == 0 {
        if closed {
            seq![';']
        } else {
            Seq::empty()
        }
    } else {
        seq![';'] + declarations[0] + following(declarations.drop_first(), closed)
    }
}

/// The declarations joined by `;`, with one more `;` behind the last if the
/// list is `closed`.
pub open spec fn joined(declarations: Seq<Seq<char>>, closed: bool) -> Seq<char>
    recommends
        declarations.len() >= 1,
{
    declarations[0] + following(declarations.drop_first(), closed)
}

/// Whitespace is skipped once and for all: behind it there is none left.
proof fn lemma_spaces_skipped(s: Seq<char>, start: nat)
    requires
        start <= s.len(),
    ensures
        skip_spaces(s, skip_spaces(s, start)) == skip_spaces(s, start),
        parameter(s, skip_spaces(s, start)) == parameter(s, start),
{
    reveal(parameter);
    lemma_run_end_bounds(s, start, CharClass::Space);
    lemma_run_end_holds(s, start, CharClass::Space);
}

/// The parts of what follows a declaration: `;`, the next declaration, and
/// what follows that one.
proof fn lemma_following_parts(declarations: Seq<Seq<char>>, closed: bool)
    requires
        declarations.len() > 0,
    ensures
        following(declarations, closed).len() == 1 + declarations[0].len() + following(
            declarations.drop_first(),
            closed,
        ).len(),
        following(declarations, closed)[0] == ';',
        forall|i: int|
            0 <= i < declarations[0].len() ==> following(declarations, closed)[1 + i]
                == #[trigger] declarations[0][i],
        following(declarations, closed).skip(1 + declarations[0].len() as int) == following(
            declarations.drop_first(),
            closed,
        ),
{
    let first = declarations[0];
    let behind = following(declarations.drop_first(), closed);
    let head = seq![';'] + first;
    assert(following(declarations, closed) == head + behind);
    assert(head.len() == 1 + first.len());
    assert(head[0] == ';');
    assert forall|i: int| 0 <= i < first.len() implies (head + behind)[1 + i] == #[trigger] first[i] by {
        assert(head[1 + i] == first[i]);
    }
    assert((head + behind).skip(1 + first.len() as int) =~= behind);
}

/// What follows a declaration is empty or begins with `;`.
proof fn lemma_following_begins(declarations: Seq<Seq<char>>, closed: bool)
    ensures
        following(declarations, closed).len() > 0 ==> following(declarations, closed)[0] == ';',
{
    if declarations.len() > 0 {
        lemma_following_parts(declarations, closed);
    }
}

/// The parameters of a list of declarations are that of the first and those
/// of the others.
proof fn lemma_declared_first(found: Seq<ParamModel>, declarations: Seq<Seq<char>>)
    requires
        declarations.len() > 0,
    ensures
        found.push(declared(declarations[0])) + declarations.drop_first().map_values(
            |d: Seq<char>| declared(d),
        ) == found + declarations.map_values(|d: Seq<char>| declared(d)),
{
    let all = declarations.map_values(|d: Seq<char>| declared(d));
    let others = declarations.drop_first().map_values(|d: Seq<char>| declared(d));
    let left = found.push(declared(declarations[0])) + others;
    let right = found + all;
    assert(left.len() == right.len());
    assert forall|i: int| 0 <= i < left.len() implies left[i] == right[i] by {
        if i < found.len() {
        } else if i == found.len() {
            assert(all[0] == declared(declarations[0]));
        } else {
            let j = i - found.len() - 1;
            assert(others[j] == declared(declarations.drop_first()[j]));
            assert(declarations.drop_first()[j] == declarations[j + 1]);
            assert(all[j + 1] == declared(declarations[j + 1]));
        }
    }
    assert(left =~= right);
}

/// An input holds what is behind a position of it, character by character.
proof fn lemma_skip_holds(input: Seq<char>, at: nat, tail: Seq<char>)
    requires
        at <= input.len(),
        input.skip(at as int) == tail,
    ensures
        tail.len() == input.len() - at,
        forall|i: int| 0 <= i < tail.len() ==> input[at + i] == #[trigger] tail[i],
{
    assert forall|i: int| 0 <= i < tail.len() implies input[at + i] == #[trigger] tail[i] by {
        assert(input.skip(at as int)[i] == input[at + i]);
    }
}

/// Behind a `;` an input that begins with a declaration, and goes on with
/// nothing or with `;`, reads that declaration and then what follows it.
proof fn lemma_next_declaration(
    input: Seq<char>,
    at: nat,
    first: Seq<char>,
    found: Seq<ParamModel>,
)
    requires
        at + 1 + first.len() <= input.len(),
        input[at as int] == ';',
        forall|i: int| 0 <= i < first.len() ==> input[at + 1 + i] == #[trigger] first[i],
        at + 1 + first.len() < input.len() ==> input[at + 1 + first.len() as int] == ';',
        is_declaration(first),
    ensures
        more_parameters(input, at, found) == more_parameters(
            input,
            at + 1 + first.len(),
            found.push(declared(first)),
        ),
{
    let begin = at + 1;
    assert(embeds(input, begin, first));
    lemma_parameter_embedded(input, begin, first, 0);
    lemma_spaces_skipped(input, begin);
}

/// A list ends where the input ends, and behind a last `;`.
proof fn lemma_list_ends(input: Seq<char>, at: nat, found: Seq<ParamModel>)
    requires
        at == input.len() || (at + 1 == input.len() && input[at as int] == ';'),
    ensures
        more_parameters(input, at, found) == (Parsed::Accept { value: found, rest: input.len() }),
{
    reveal(parameter);
    if at < input.len() {
        lemma_run_end_bounds(input, at + 1, CharClass::Space);
        lemma_run_end_unique(input, at + 1, CharClass::Space, at + 1);
        lemma_run_end_unique(input, at + 1, CharClass::Letter, at + 1);
    }
}

/// Behind the parameters `found`, a list that goes on with the
/// declarations `declarations` reads them all, in their order.
proof fn lemma_more_parameters_joined(
    input: Seq<char>,
    at: nat,
    declarations: Seq<Seq<char>>,
    closed: bool,
    found: Seq<ParamModel>,
)
    requires
        at <= input.len(),
        input.skip(at as int) == following(declarations, closed),
        forall|i: int|
            0 <= i < declarations.len() ==> is_declaration(#[trigger] declarations[i]),
    ensures
        more_parameters(input, at, found) == (Parsed::Accept {
            value: found + declarations.map_values(|d: Seq<char>| declared(d)),
            rest: input.len(),
        }),
    decreases declarations.len(),
{
    let tail = following(declarations, closed);
    lemma_skip_holds(input, at, tail);
    if declarations.len() == 0 {
        assert(found + declarations.map_values(|d: Seq<char>| declared(d)) =~= found);
        if closed {
            assert(tail[0] == ';');
            assert(input[at as int] == tail[0]);
        }
        lemma_list_ends(input, at, found);
    } else {
        let first = declarations[0];
        let others = declarations.drop_first();
        let behind = following(others, closed);
        let end = at + 1 + first.len();
        let n = first.len() as int;
        lemma_following_parts(declarations, closed);
        lemma_following_begins(others, closed);
        assert(input[at as int] == tail[0]);
        assert forall|i: int| 0 <= i < first.len() implies input[at + 1 + i] == #[trigger] first[i] by {
            assert(tail[1 + i] == first[i]);
            assert(input[at + (1 + i)] == tail[1 + i]);
        }
        if behind.len() > 0 {
            assert(tail.skip(1 + n)[0] == tail[1 + n + 0]);
            assert(input[at + (1 + n)] == tail[1 + n]);
        }
        lemma_next_declaration(input, at, first, found);
        assert(input.skip(end as int) =~= tail.skip(1 + n));
        assert forall|i: int| 0 <= i < others.len() implies is_declaration(
            #[trigger] others[i],
        ) by {
            assert(others[i] == declarations[i + 1]);
        }
        lemma_more_parameters_joined(input, end, others, closed, found.push(declared(first)));
        lemma_declared_first(found, declarations);
    }
}

/// A list made of declarations that are joined by `;`, with or without a
/// `;` behind the last, reads as those declarations: as many parameters as
/// there are declarations, each the one that its declaration declares, in
/// the same order, and nothing is left unread.
pub proof fn parameters_read_joined_declarations(declarations: Seq<Seq<char>>, closed: bool)
    requires
        declarations.len() >= 1,
        forall|i: int|
            0 <= i < declarations.len() ==> is_declaration(#[trigger] declarations[i]),
    ensures
        parameters(joined(declarations, closed), 0) == (Parsed::Accept {
            value: declarations.map_values(|d: Seq<char>| declared(d)),
            rest: joined(declarations, closed).len(),
        }),
{
    let input = joined(declarations, closed);
    let first = declarations[0];
    let others = declarations.drop_first();
    let behind = following(others, closed);
    lemma_following_begins(others, closed);
    assert(is_declaration(first));
    assert(input == first + behind);
    let n = first.len() as int;
    if behind.len() > 0 {
        assert(input[n + 0] == behind[0]);
    }
    assert(embeds(input, 0, first));
    lemma_parameter_embedded(input, 0, first, 0);
    assert(input.skip(first.len() as int) =~= behind);
    assert forall|i: int| 0 <= i < others.len() implies is_declaration(#[trigger] others[i]) by {
        assert(others[i] == declarations[i + 1]);
    }
    lemma_more_parameters_joined(input, first.len(), others, closed, seq![declared(first)]);
    lemma_declared_first(Seq::empty(), declarations);
    assert(Seq::<ParamModel>::empty().push(declared(first)) =~= seq![declared(first)]);
    assert(Seq::<ParamModel>::empty() + declarations.map_values(|d: Seq<char>| declared(d))
        =~= declarations.map_values(|d: Seq<char>| declared(d)));
}

} // verus!
