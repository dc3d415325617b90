//! What a rule reads does not depend on what surrounds it: the lemmas that
//! carry an outcome from one input over to another that holds the same
//! characters in the same place.

use vstd::prelude::*;

use crate::chars::CharClass;
use crate::chars::is_space;
use crate::failure::Keyword;
use crate::grammar::Parsed;
use crate::grammar::boolean;
use crate::grammar::keyword;
use crate::grammar::lemma_match_end_bounds;
use crate::grammar::lemma_run_end_bounds;
use crate::grammar::lemma_run_end_holds;
use crate::grammar::lemma_run_end_unique;
use crate::grammar::match_end;
use crate::grammar::number;
use crate::grammar::parameter;
use crate::grammar::peek;
use crate::grammar::run_end;
use crate::grammar::same_letter;
use crate::grammar::skip_spaces;
use crate::grammar::symbol;
use crate::grammar::text;
use crate::grammar::value;
use crate::grammar::word;

verus! {

/// Whether `c` can stand in a parameter declaration: whitespace, a letter,
/// a digit, or one of `_`, `.`, `-` and `=`.
pub open spec fn declares(c: char) -> bool {
    is_space(c) || CharClass::Word.contains(c) || c == '.' || c == '-' || c == '='
}

/// The outcome `p`, with its position moved on by `by`.
pub open spec fn moved<T>(p: Parsed<T>, by: nat) -> Parsed<T> {
    match p {
        Parsed::Accept { value, rest } => Parsed::Accept { value, rest: rest + by },
        Parsed::Reject { position, expected } => Parsed::Reject {
            position: position + by,
            expected,
        },
    }
}

/// Whether `outer` holds `inner` from position `at` on, and behind it ends
/// or goes on with a character that cannot stand in a declaration.
pub open spec fn embeds(outer: Seq<char>, at: nat, inner: Seq<char>) -> bool {
    &&& at + inner.len() <= outer.len()
    &&& forall|i: int| 0 <= i < inner.len() ==> outer[at + i] == #[trigger] inner[i]
    &&& at + inner.len() < outer.len() ==> !declares(outer[(at + inner.len()) as int])
}

/// A run that one input holds from `p` on, another input holds from `q` on,
/// if it has the same characters there and none of the class behind them.
pub proof fn lemma_run_end_same(s: Seq<char>, p: nat, t: Seq<char>, q: nat, class: CharClass)
    requires
        p <= s.len(),
        q + (run_end(s, p, class) - p) <= t.len(),
        forall|j: int| p <= j < run_end(s, p, class) ==> t[q + (j - p)] == #[trigger] s[j],
        q + (run_end(s, p, class) - p) < t.len() ==> !class.contains(
            t[q + (run_end(s, p, class) - p)],
        ),
    ensures
        run_end(t, q, class) == q + (run_end(s, p, class) - p),
{
    lemma_run_end_bounds(s, p, class);
    lemma_run_end_holds(s, p, class);
    let end = run_end(s, p, class);
    let there = (q + (end - p)) as nat;
    assert forall|j: int| q <= j < there implies class.contains(#[trigger] t[j]) by {
        assert(t[q + ((j - q + p) - p)] == s[j - q + p]);
    }
    lemma_run_end_unique(t, q, class, there);
}

/// Within an input that embeds another, a run is the run of the embedded
/// input, moved.
pub proof fn lemma_run_embedded(
    outer: Seq<char>,
    at: nat,
    inner: Seq<char>,
    p: nat,
    class: CharClass,
)
    requires
        embeds(outer, at, inner),
        p <= inner.len(),
    ensures
        run_end(outer, at + p, class) == at + run_end(inner, p, class),
        run_end(inner, p, class) <= inner.len(),
        inner.subrange(p as int, run_end(inner, p, class) as int) == outer.subrange(
            (at + p) as int,
            (at + run_end(inner, p, class)) as int,
        ),
{
    lemma_run_end_bounds(inner, p, class);
    let end = run_end(inner, p, class);
    assert forall|j: int| p <= j < end implies outer[at + p + (j - p)] == #[trigger] inner[j] by {
        assert(outer[at + j] == inner[j]);
    }
    lemma_run_end_holds(inner, p, class);
    if end < inner.len() {
        assert(outer[(at + end) as int] == inner[end as int]);
    }
    lemma_run_end_same(inner, p, outer, at + p, class);
    assert(inner.subrange(p as int, end as int) =~= outer.subrange((at + p) as int, (at + end) as int));
}

/// Within an input that embeds another, the character at a position of the
/// embedded input is the same; behind it there is none, or one that cannot
/// stand in a declaration.
pub proof fn lemma_peek_embedded(outer: Seq<char>, at: nat, inner: Seq<char>, p: nat)
    requires
        embeds(outer, at, inner),
        p <= inner.len(),
    ensures
        p < inner.len() ==> peek(outer, at + p) == peek(inner, p),
        p == inner.len() ==> (peek(outer, at + p) matches Some(c) ==> !declares(c)),
{
    if p < inner.len() {
        assert(outer[at + p as int] == inner[p as int]);
    }
}

/// Within an input that embeds another, a word is the word of the embedded
/// input.
pub proof fn lemma_word_embedded(
    outer: Seq<char>,
    at: nat,
    inner: Seq<char>,
    p: nat,
    class: CharClass,
)
    requires
        embeds(outer, at, inner),
        p <= inner.len(),
    ensures
        word(outer, at + p, class) == moved(word(inner, p, class), at),
{
    lemma_run_embedded(outer, at, inner, p, class);
    lemma_run_embedded(outer, at, inner, run_end(inner, p, class), CharClass::Space);
}

/// Within an input that embeds another, a symbol that can stand in a
/// declaration is read where the embedded input has it.
pub proof fn lemma_symbol_embedded(outer: Seq<char>, at: nat, inner: Seq<char>, p: nat, c: char)
    requires
        embeds(outer, at, inner),
        p <= inner.len(),
        declares(c),
    ensures
        symbol(outer, at + p, c) == moved(symbol(inner, p, c), at),
{
    lemma_peek_embedded(outer, at, inner, p);
    if p < inner.len() {
        lemma_run_embedded(outer, at, inner, p + 1, CharClass::Space);
    }
}

/// Every character of a keyword is an ASCII letter.
pub proof fn lemma_keyword_letters(k: Keyword)
    ensures
        forall|i: int|
            0 <= i < k.text().len() ==> crate::chars::is_ascii_letter(#[trigger] k.text()[i]),
{
    reveal_strlit("true");
    reveal_strlit("false");
    reveal_strlit("Test");
    reveal_strlit("Library");
    reveal_strlit("Parameters");
}

/// Within an input that embeds another, as much of a keyword is matched as
/// in the embedded input.
pub proof fn lemma_match_embedded(
    outer: Seq<char>,
    at: nat,
    inner: Seq<char>,
    p: nat,
    k: Keyword,
    from: nat,
)
    requires
        embeds(outer, at, inner),
        p + from <= inner.len(),
        from <= k.text().len(),
    ensures
        match_end(outer, at + p, k.text(), k.folds_case(), from) == match_end(
            inner,
            p,
            k.text(),
            k.folds_case(),
            from,
        ),
    decreases k.text().len() - from,
{
    let word = k.text();
    lemma_keyword_letters(k);
    if from < word.len() {
        if p + from < inner.len() {
            assert(outer[(at + (p + from)) as int] == inner[(p + from) as int]);
            if same_letter(inner[(p + from) as int], word[from as int], k.folds_case()) {
                lemma_match_embedded(outer, at, inner, p, k, from + 1);
            }
        } else if at + p + from < outer.len() {
            let c = outer[(at + p + from) as int];
            assert(!declares(c));
            assert(crate::chars::is_ascii_letter(word[from as int]));
            assert(!same_letter(c, word[from as int], k.folds_case()));
        }
    }
}

/// Within an input that embeds another, a keyword is read where the
/// embedded input has it.
pub proof fn lemma_keyword_embedded(outer: Seq<char>, at: nat, inner: Seq<char>, p: nat, k: Keyword)
    requires
        embeds(outer, at, inner),
        p <= inner.len(),
    ensures
        keyword(outer, at + p, k) == moved(keyword(inner, p, k), at),
{
    lemma_match_embedded(outer, at, inner, p, k, 0);
    lemma_match_end_bounds(inner, p, k.text(), k.folds_case(), 0);
    let matched = match_end(inner, p, k.text(), k.folds_case(), 0);
    lemma_run_embedded(outer, at, inner, p + matched, CharClass::Space);
}

/// Within an input that embeds another, a text is the text of the embedded
/// input.
pub proof fn lemma_text_embedded(outer: Seq<char>, at: nat, inner: Seq<char>, p: nat)
    requires
        embeds(outer, at, inner),
        p <= inner.len(),
    ensures
        text(outer, at + p) == moved(text(inner, p), at),
{
    lemma_word_embedded(outer, at, inner, p, CharClass::Word);
}

/// Within an input that embeds another, a boolean is the boolean of the
/// embedded input.
pub proof fn lemma_boolean_embedded(outer: Seq<char>, at: nat, inner: Seq<char>, p: nat)
    requires
        embeds(outer, at, inner),
        p <= inner.len(),
    ensures
        boolean(outer, at + p) == moved(boolean(inner, p), at),
{
    lemma_keyword_embedded(outer, at, inner, p, Keyword::True);
    lemma_keyword_embedded(outer, at, inner, p, Keyword::False);
}

/// Within an input that embeds another, a number is the number of the
/// embedded input.
pub proof fn lemma_number_embedded(outer: Seq<char>, at: nat, inner: Seq<char>, p: nat)
    requires
        embeds(outer, at, inner),
        p <= inner.len(),
    ensures
        number(outer, at + p) == moved(number(inner, p), at),
{
    lemma_peek_embedded(outer, at, inner, p);
    let digits = if peek(inner, p) == Some('-') {
        p + 1
    } else {
        p
    };
    lemma_run_embedded(outer, at, inner, digits, CharClass::Digit);
    lemma_run_end_bounds(inner, digits, CharClass::Digit);
    let whole = run_end(inner, digits, CharClass::Digit);
    lemma_peek_embedded(outer, at, inner, whole);
    let fraction = if peek(inner, whole) == Some('.') {
        lemma_run_embedded(outer, at, inner, whole + 1, CharClass::Digit);
        lemma_run_end_bounds(inner, whole + 1, CharClass::Digit);
        run_end(inner, whole + 1, CharClass::Digit)
    } else {
        whole
    };
    lemma_run_embedded(outer, at, inner, fraction, CharClass::Letter);
    lemma_run_end_bounds(inner, fraction, CharClass::Letter);
    let unit = run_end(inner, fraction, CharClass::Letter);
    lemma_run_embedded(outer, at, inner, unit, CharClass::Space);
    if whole != digits && fraction != whole + 1 {
        assert(inner.subrange(p as int, fraction as int) =~= outer.subrange(
            (at + p) as int,
            (at + fraction) as int,
        ));
    }
}

/// Within an input that embeds another, a value is the value of the
/// embedded input.
pub proof fn lemma_value_embedded(outer: Seq<char>, at: nat, inner: Seq<char>, p: nat)
    requires
        embeds(outer, at, inner),
        p <= inner.len(),
    ensures
        value(outer, at + p) == moved(value(inner, p), at),
{
    lemma_number_embedded(outer, at, inner, p);
    lemma_boolean_embedded(outer, at, inner, p);
    lemma_text_embedded(outer, at, inner, p);
}

/// Within an input that embeds another, a parameter is the parameter of the
/// embedded input.
pub proof fn lemma_parameter_embedded(outer: Seq<char>, at: nat, inner: Seq<char>, p: nat)
    requires
        embeds(outer, at, inner),
        p <= inner.len(),
    ensures
        parameter(outer, at + p) == moved(parameter(inner, p), at),
{
    reveal(parameter);
    lemma_run_embedded(outer, at, inner, p, CharClass::Space);
    let at_direction = skip_spaces(inner, p);
    lemma_word_embedded(outer, at, inner, at_direction, CharClass::Letter);
    crate::grammar::lemma_word_advances(inner, at_direction, CharClass::Letter);
    if let Parsed::Accept { value: _, rest: at_type } = word(inner, at_direction, CharClass::Letter) {
        lemma_word_embedded(outer, at, inner, at_type, CharClass::Name);
        crate::grammar::lemma_word_advances(inner, at_type, CharClass::Name);
        if let Parsed::Accept { value: _, rest: at_name } = word(inner, at_type, CharClass::Name) {
            lemma_word_embedded(outer, at, inner, at_name, CharClass::Name);
            crate::grammar::lemma_word_advances(inner, at_name, CharClass::Name);
            if let Parsed::Accept { value: _, rest: at_equals } = word(
                inner,
                at_name,
                CharClass::Name,
            ) {
                lemma_symbol_embedded(outer, at, inner, at_equals, '=');
                crate::grammar::lemma_symbol_advances(inner, at_equals, '=');
                if let Parsed::Accept { value: _, rest: at_value } = symbol(
                    inner,
                    at_equals,
                    '=',
                ) {
                    lemma_value_embedded(outer, at, inner, at_value);
                }
            }
        }
    }
}

} // verus!
