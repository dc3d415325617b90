//! The grammar written a second time, with parser combinators, and held
//! against the library on many small inputs.

use combine::error::ParseError;
use combine::parser::char::{char, digit, letter, spaces, string, string_cmp};
use combine::{between, choice, many1, optional, sep_end_by1, Parser, Stream};
use stil::{ArgDirection, Param, ParamType, Test, ValueType};

fn number<Input>() -> impl Parser<Input, Output = ValueType>
where
    Input: Stream<Token = char>,
    Input::Error: ParseError<Input::Token, Input::Range, Input::Position>,
{
    (
        optional(char('-')),
        many1::<String, _, _>(digit()),
        optional(char('.').with(many1::<String, _, _>(digit()))),
        optional(many1::<String, _, _>(letter())),
    )
        .skip(spaces())
        .map(|(sign, whole, fraction, unit)| {
            let mut data = String::new();
            if sign.is_some() {
                data.push('-');
            }
            data.push_str(&whole);
            if let Some(digits) = fraction {
                data.push('.');
                data.push_str(&digits);
            }
            ValueType::Number { data, unit }
        })
}

fn text<Input>() -> impl Parser<Input, Output = ValueType>
where
    Input: Stream<Token = char>,
    Input::Error: ParseError<Input::Token, Input::Range, Input::Position>,
{
    many1(choice((letter(), digit(), char('_'))))
        .skip(spaces())
        .map(|data| ValueType::Text { data })
}

fn boolean<Input>() -> impl Parser<Input, Output = ValueType>
where
    Input: Stream<Token = char>,
    Input::Error: ParseError<Input::Token, Input::Range, Input::Position>,
{
    choice((
        string_cmp("true", |l, r| l.eq_ignore_ascii_case(&r)).skip(spaces()),
        string_cmp("false", |l, r| l.eq_ignore_ascii_case(&r)).skip(spaces()),
    ))
    .map(|word| ValueType::Bool { data: word == "true" })
}

fn parameter<Input>() -> impl Parser<Input, Output = Param>
where
    Input: Stream<Token = char>,
    Input::Error: ParseError<Input::Token, Input::Range, Input::Position>,
{
    (
        spaces(),
        many1::<String, _, _>(letter()).skip(spaces()),
        many1::<String, _, _>(letter().or(char('_'))).skip(spaces()),
        many1::<String, _, _>(letter().or(char('_'))).skip(spaces()),
        char('=').skip(spaces()),
        choice((number(), boolean(), text())).skip(spaces()),
    )
        .map(|(_, direction, kind, name, _, value)| Param {
            arg_direction: match direction.as_str() {
                "In" => ArgDirection::In,
                "Out" => ArgDirection::Out,
                _ => ArgDirection::Unknown,
            },
            param_type: match kind.as_str() {
                "sigref_expr" => ParamType::Sigrefexpr,
                "Voltage" => ParamType::Voltage,
                "Current" => ParamType::Current,
                "String" => ParamType::String,
                "Integer" => ParamType::Integer,
                "Real" => ParamType::Real,
                "Time" => ParamType::Time,
                "Bool" => ParamType::Bool,
                "Enum" => ParamType::Enum,
                _ => ParamType::Unknown,
            },
            name,
            value,
        })
}

fn parameters<Input>() -> impl Parser<Input, Output = Vec<Param>>
where
    Input: Stream<Token = char>,
    Input::Error: ParseError<Input::Token, Input::Range, Input::Position>,
{
    sep_end_by1(parameter().skip(spaces()), char(';').skip(spaces()))
}

fn test_exec<Input>() -> impl Parser<Input, Output = Test>
where
    Input: Stream<Token = char>,
    Input::Error: ParseError<Input::Token, Input::Range, Input::Position>,
{
    (
        string("Test").skip(spaces()),
        text().skip(spaces()),
        char('{').skip(spaces()),
        string("Library").skip(spaces()),
        text().skip(spaces()),
        char(';').skip(spaces()),
        string("Parameters").skip(spaces()),
        between(char('{'), char('}'), parameters()),
        spaces(),
        char('}').skip(spaces()),
    )
        .map(|(_, name, _, _, library, _, _, parameters, _, _)| Test {
            name: match name {
                ValueType::Text { data } => data,
                _ => String::new(),
            },
            library: match library {
                ValueType::Text { data } => data,
                _ => String::new(),
            },
            parameters,
        })
}

/// Every text of up to `length` pieces, each piece taken from `pieces`.
fn texts_of(pieces: &[&str], length: usize) -> Vec<String> {
    let mut all = vec![String::new()];
    let mut last = vec![String::new()];
    for _ in 0..length {
        let mut next = Vec::new();
        for begun in &last {
            for piece in pieces {
                next.push(format!("{begun}{piece}"));
            }
        }
        all.extend(next.iter().cloned());
        last = next;
    }
    all
}

const VALUE_PIECES: [&str; 12] = ["-", "1", "0", ".", "t", "r", "U", "e", "f", "_", " ", "V"];

#[test]
fn numbers_agree_with_the_combinators() {
    let inputs = texts_of(&VALUE_PIECES, 4);
    assert_eq!(inputs.len(), 1 + 12 + 144 + 1728 + 20736);
    let mut read = 0;
    for input in &inputs {
        let ours = stil::number(input).ok();
        let theirs = number().parse(input.as_str()).ok();
        assert_eq!(ours, theirs);
        if ours.is_some() {
            read += 1;
        }
    }
    assert!(read > 1000);
}

#[test]
fn texts_agree_with_the_combinators() {
    let mut read = 0;
    for input in &texts_of(&VALUE_PIECES, 4) {
        let ours = stil::text(input).ok();
        let theirs = text().parse(input.as_str()).ok();
        assert_eq!(ours, theirs);
        if ours.is_some() {
            read += 1;
        }
    }
    assert!(read > 1000);
}

#[test]
fn booleans_agree_with_the_combinators() {
    let mut read = 0;
    let pieces = ["t", "T", "ru", "RU", "e", "E", "f", "F", "al", "AL", "s", "se", " ", "1"];
    for input in &texts_of(&pieces, 4) {
        let ours = stil::boolean(input).ok();
        let theirs = boolean().parse(input.as_str()).ok();
        assert_eq!(ours, theirs);
        if ours.is_some() {
            read += 1;
        }
    }
    assert!(read > 20);
}

#[test]
fn parameter_values_agree_with_the_combinators() {
    let mut read = 0;
    for value in &texts_of(&VALUE_PIECES, 4) {
        let input = format!("In Real x = {value}");
        let ours = stil::parameter(&input).ok();
        let theirs = parameter().parse(input.as_str()).ok();
        assert_eq!(ours, theirs);
        if ours.is_some() {
            read += 1;
        }
    }
    assert!(read > 1000);
}

#[test]
fn parameters_agree_with_the_combinators() {
    let pieces = ["In", "Out", "Foo", "_", " ", "=", "1", "x", ";"];
    let mut read = 0;
    for input in &texts_of(&pieces, 6) {
        let ours = stil::parameter(input).ok();
        let theirs = parameter().parse(input.as_str()).ok();
        assert_eq!(ours, theirs);
        if ours.is_some() {
            read += 1;
        }
    }
    assert!(read > 20);
}

#[test]
fn lists_agree_with_the_combinators() {
    let pieces = ["In Real a = 1", "Out Bool b = TRUE ", " Foo Bar c = d", ";", " ", "}", "In", "= 2"];
    let mut read = 0;
    for input in &texts_of(&pieces, 5) {
        let ours = stil::parameters(input).ok();
        let theirs = parameters().parse(input.as_str()).ok();
        assert_eq!(ours, theirs);
        if ours.is_some() {
            read += 1;
        }
    }
    assert!(read > 1000);
}

#[test]
fn blocks_agree_with_the_combinators() {
    let pieces = [
        "Test", "Library", "Parameters", "{", "}", ";", " ", "A", "In Time C = 16.6ms",
    ];
    let mut read = 0;
    for behind in &texts_of(&pieces, 4) {
        for begun in [
            "",
            "Test A { Library B; ",
            "Test A { Library B; Parameters { In Time C = 16.6ms",
        ] {
            let input = format!("{begun}{behind}");
            let ours = stil::test_exec(&input).ok();
            let theirs = test_exec().parse(input.as_str()).ok();
            assert_eq!(ours, theirs);
            if ours.is_some() {
                read += 1;
            }
        }
    }
    assert!(read > 100);
}

#[test]
fn letters_and_blanks_beyond_ascii_agree_with_the_combinators() {
    let pieces = ["é", "Ω", "京", "\u{a0}", "\u{2003}", "٣", "€", "1", "_", "a"];
    for input in &texts_of(&pieces, 4) {
        assert_eq!(stil::text(input).ok(), text().parse(input.as_str()).ok());
        assert_eq!(stil::number(input).ok(), number().parse(input.as_str()).ok());
        let declared = format!("é{input} Ω x = {input}");
        assert_eq!(
            stil::parameter(&declared).ok(),
            parameter().parse(declared.as_str()).ok()
        );
    }
}
