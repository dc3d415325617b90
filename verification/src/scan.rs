//! Reading runs, keywords and words from a slice of characters.

use vstd::prelude::*;

use crate::chars::CharClass;
use crate::grammar::ascii_lower_code;
use crate::grammar::match_end;
use crate::grammar::run_end;
use crate::grammar::same_letter;

verus! {

/// `String::push` appends the character to the string: what the string
/// holds afterwards is what it held before, with `c` behind it.
pub assume_specification[ std::string::String::push ](
    buffer: &mut std::string::String,
    c: char,
)
    ensures
        final(buffer)@ == old(buffer)@.push(c),
;

/// The characters of `input`, one by one.
pub(crate) fn to_chars(input: &str) -> (chars: Vec<char>)
    ensures
        chars@ == input@,
{
    let mut chars: Vec<char> = Vec::new();
    for c in it: input.chars()
        invariant
            chars@ == it.seq().take(it.index() as int),
            it.seq() == input@,
    {
        chars.push(c);
    }
    chars
}

/// Finds where the run of `class` that begins at `start` ends.
pub(crate) fn scan_run(chars: &[char], start: usize, class: CharClass) -> (end: usize)
    requires
        start <= chars.len(),
    ensures
        end == run_end(chars@, start as nat, class),
        start <= end <= chars.len(),
{
    let mut at: usize = start;
    while at < chars.len() && class.accepts(chars[at])
        invariant
            start <= at <= chars.len(),
            run_end(chars@, start as nat, class) == run_end(chars@, at as nat, class),
        decreases chars.len() - at,
    {
        at += 1;
    }
    at
}

/// Copies the characters from position `from` up to position `to`.
pub(crate) fn copy_range(chars: &[char], from: usize, to: usize) -> (text: String)
    requires
        from <= to <= chars.len(),
    ensures
        text@ == chars@.subrange(from as int, to as int),
{
    let mut text = String::new();
    let mut at: usize = from;
    while at < to
        invariant
            from <= at <= to <= chars.len(),
            text@ == chars@.subrange(from as int, at as int),
        decreases to - at,
    {
        text.push(chars[at]);
        at += 1;
    }
    text
}

/// Decides whether the characters from `from` up to `to` spell `word`.
pub(crate) fn spells(chars: &[char], from: usize, to: usize, word: &str) -> (b: bool)
    requires
        from <= to <= chars.len(),
    ensures
        b == (chars@.subrange(from as int, to as int) == word@),
{
    let mut at: usize = from;
    for c in it: word.chars()
        invariant
            from <= to <= chars.len(),
            it.seq() == word@,
            at == from + it.index(),
            at <= to,
            forall|i: int| 0 <= i < it.index() ==> chars@[from + i] == word@[i],
    {
        if at == to || chars[at] != c {
            assert(chars@.subrange(from as int, to as int) != word@) by {
                if at < to {
                    assert(chars@.subrange(from as int, to as int)[at - from] != word@[at - from]);
                }
            }
            return false;
        }
        at += 1;
    }
    assert(at == to ==> chars@.subrange(from as int, to as int) =~= word@);
    at == to
}

/// The number that stands for `c` when the case of ASCII letters is
/// ignored.
fn lower_code(c: char) -> (code: u32)
    ensures
        code == ascii_lower_code(c),
{
    if 'A' <= c && c <= 'Z' {
        c as u32 + 32
    } else {
        c as u32
    }
}

/// Decides whether the input character `c` stands for the keyword character
/// `k`.
fn same(c: char, k: char, fold_case: bool) -> (b: bool)
    ensures
        b == same_letter(c, k, fold_case),
{
    if fold_case {
        lower_code(c) == lower_code(k)
    } else {
        c == k
    }
}

/// Counts the characters of `word` that the input carries one after another
/// from `start` on, and says whether they are all of `word`.
pub(crate) fn matched(chars: &[char], start: usize, word: &str, fold_case: bool) -> (r: (
    usize,
    bool,
))
    requires
        start <= chars.len(),
    ensures
        r.0 == match_end(chars@, start as nat, word@, fold_case, 0),
        r.1 == (r.0 == word@.len()),
        start + r.0 <= chars.len(),
{
    let mut count: usize = 0;
    for k in it: word.chars()
        invariant
            start <= chars.len(),
            it.seq() == word@,
            count == it.index(),
            start + count <= chars.len(),
            match_end(chars@, start as nat, word@, fold_case, 0) == match_end(
                chars@,
                start as nat,
                word@,
                fold_case,
                count as nat,
            ),
    {
        if count == chars.len() - start || !same(chars[start + count], k, fold_case) {
            return (count, false);
        }
        count += 1;
    }
    (count, true)
}

} // verus!
