use stil::chars::CharClass;
use stil::{boolean, number, text};
use stil::{Expected, Keyword, ParseFailure, ValueType};

fn number_value(data: &str, unit: Option<&str>) -> ValueType {
    ValueType::Number { data: data.to_string(), unit: unit.map(|u| u.to_string()) }
}

fn float_of(value: &ValueType) -> f32 {
    match value {
        ValueType::Number { data, .. } => data.parse::<f32>().unwrap_or(f32::MIN),
        _ => panic!("not a number"),
    }
}

#[test]
fn number_keeps_the_literal_as_written() {
    assert_eq!(number("100V"), Ok((number_value("100", Some("V")), "")));
    assert_eq!(number("-15.091mA"), Ok((number_value("-15.091", Some("mA")), "")));
    assert_eq!(number("1534"), Ok((number_value("1534", None), "")));
    assert_eq!(number("0.54030"), Ok((number_value("0.54030", None), "")));
    assert_eq!(number("-0"), Ok((number_value("-0", None), "")));
}

#[test]
fn number_literal_converts_to_the_float() {
    let (value, _) = number("-1.3V").unwrap();
    assert_eq!(float_of(&value), -1.3f32);
    let (value, _) = number("16.6ms").unwrap();
    assert_eq!(float_of(&value), 16.6f32);
    let (value, _) = number("20").unwrap();
    assert_eq!(float_of(&value), 20f32);
}

#[test]
fn number_with_unit_and_without() {
    for literal in ["7", "-7", "7.25", "-7.25", "000", "12345678901234567890"] {
        assert_eq!(number(literal), Ok((number_value(literal, None), "")));
        for unit in ["V", "mA", "kHz", "µs", "Ω"] {
            let written = format!("{literal}{unit}");
            assert_eq!(number(&written), Ok((number_value(literal, Some(unit)), "")));
        }
    }
}

#[test]
fn number_reads_the_whitespace_behind_it() {
    assert_eq!(number("12  \t\n;"), Ok((number_value("12", None), ";")));
    assert_eq!(number("12mV  x"), Ok((number_value("12", Some("mV")), "x")));
    assert_eq!(number("12 mV"), Ok((number_value("12", None), "mV")));
    assert_eq!(number("1.5\u{a0}\u{2003}s"), Ok((number_value("1.5", None), "s")));
}

#[test]
fn number_stops_where_the_literal_ends() {
    assert_eq!(number("12_3"), Ok((number_value("12", None), "_3")));
    assert_eq!(number("1.2.3"), Ok((number_value("1.2", None), ".3")));
    assert_eq!(number("5V2"), Ok((number_value("5", Some("V")), "2")));
    assert_eq!(number("1-2"), Ok((number_value("1", None), "-2")));
}

#[test]
fn number_asks_for_a_digit() {
    let digit = Expected::Class(CharClass::Digit);
    assert_eq!(number("A"), Err(ParseFailure { position: 0, expected: digit }));
    assert_eq!(number(""), Err(ParseFailure { position: 0, expected: digit }));
    assert_eq!(number(" 5"), Err(ParseFailure { position: 0, expected: digit }));
    assert_eq!(number(".5"), Err(ParseFailure { position: 0, expected: digit }));
    assert_eq!(number("-"), Err(ParseFailure { position: 1, expected: digit }));
    assert_eq!(number("-x"), Err(ParseFailure { position: 1, expected: digit }));
    assert_eq!(number("- 5"), Err(ParseFailure { position: 1, expected: digit }));
    assert_eq!(number("12."), Err(ParseFailure { position: 3, expected: digit }));
    assert_eq!(number("12.V"), Err(ParseFailure { position: 3, expected: digit }));
    assert_eq!(number("-3.x"), Err(ParseFailure { position: 3, expected: digit }));
}

#[test]
fn number_takes_ascii_digits_only() {
    assert!(number("٣").is_err());
    assert_eq!(number("1٣"), Ok((number_value("1", None), "٣")));
}

#[test]
fn text_reads_the_run() {
    assert_eq!(text("ABC___DEF"), Ok((ValueType::Text { data: "ABC___DEF".to_string() }, "")));
    assert_eq!(text("_"), Ok((ValueType::Text { data: "_".to_string() }, "")));
    assert_eq!(text("9lives"), Ok((ValueType::Text { data: "9lives".to_string() }, "")));
    assert_eq!(text("a1_b2 \n c"), Ok((ValueType::Text { data: "a1_b2".to_string() }, "c")));
    assert_eq!(text("name;rest"), Ok((ValueType::Text { data: "name".to_string() }, ";rest")));
    assert_eq!(text("x-y"), Ok((ValueType::Text { data: "x".to_string() }, "-y")));
}

#[test]
fn text_reads_letters_beyond_ascii() {
    assert_eq!(text("größe"), Ok((ValueType::Text { data: "größe".to_string() }, "")));
    assert_eq!(text("京都 x"), Ok((ValueType::Text { data: "京都".to_string() }, "x")));
    assert_eq!(text("ab\u{a0}cd"), Ok((ValueType::Text { data: "ab".to_string() }, "cd")));
    assert_eq!(text("ab€"), Ok((ValueType::Text { data: "ab".to_string() }, "€")));
}

#[test]
fn text_asks_for_a_word_character() {
    let word = Expected::Class(CharClass::Word);
    assert_eq!(text(""), Err(ParseFailure { position: 0, expected: word }));
    assert_eq!(text(" a"), Err(ParseFailure { position: 0, expected: word }));
    assert_eq!(text("-a"), Err(ParseFailure { position: 0, expected: word }));
    assert_eq!(text("€"), Err(ParseFailure { position: 0, expected: word }));
    assert_eq!(text("💝"), Err(ParseFailure { position: 0, expected: word }));
}

#[test]
fn boolean_reads_every_casing() {
    for written in ["true", "TRUE", "True", "tRuE", "trUE", "TRue"] {
        assert_eq!(boolean(written), Ok((ValueType::Bool { data: true }, "")));
    }
    for written in ["false", "FALSE", "False", "fAlSe", "falsE", "FALse"] {
        assert_eq!(boolean(written), Ok((ValueType::Bool { data: false }, "")));
    }
}

#[test]
fn boolean_reads_the_whitespace_behind_it() {
    assert_eq!(boolean("true  ;"), Ok((ValueType::Bool { data: true }, ";")));
    assert_eq!(boolean("FALSE\n}"), Ok((ValueType::Bool { data: false }, "}")));
    assert_eq!(boolean("truest"), Ok((ValueType::Bool { data: true }, "st")));
}

#[test]
fn boolean_says_where_the_keyword_breaks_off() {
    assert_eq!(
        boolean("tue"),
        Err(ParseFailure { position: 1, expected: Expected::Keyword(Keyword::True) })
    );
    assert_eq!(
        boolean("tru"),
        Err(ParseFailure { position: 3, expected: Expected::Keyword(Keyword::True) })
    );
    assert_eq!(
        boolean("fals"),
        Err(ParseFailure { position: 4, expected: Expected::Keyword(Keyword::False) })
    );
    assert_eq!(
        boolean("Fa1se"),
        Err(ParseFailure { position: 2, expected: Expected::Keyword(Keyword::False) })
    );
    assert_eq!(boolean("yes"), Err(ParseFailure { position: 0, expected: Expected::Boolean }));
    assert_eq!(boolean(""), Err(ParseFailure { position: 0, expected: Expected::Boolean }));
    assert_eq!(boolean(" true"), Err(ParseFailure { position: 0, expected: Expected::Boolean }));
}

#[test]
fn boolean_ignores_the_case_of_ascii_letters_only() {
    // U+212A, the Kelvin sign, lower-cases to `k` but is no ASCII letter;
    // U+0131 is a dotless small i.
    assert!(boolean("tr\u{131}e").is_err());
    assert!(boolean("ｔrue").is_err());
}

#[test]
fn positions_count_characters() {
    assert_eq!(
        number("-é"),
        Err(ParseFailure { position: 1, expected: Expected::Class(CharClass::Digit) })
    );
    assert_eq!(number("1µ\u{2003}é"), Ok((number_value("1", Some("µ")), "é")));
}

#[test]
fn what_is_expected_is_said_in_words() {
    assert_eq!(Expected::Class(CharClass::Digit).description(), "a digit");
    assert_eq!(Expected::Class(CharClass::Letter).description(), "a letter");
    assert_eq!(Expected::Class(CharClass::Name).description(), "a letter or an underscore");
    assert_eq!(
        Expected::Class(CharClass::Word).description(),
        "a letter, a digit or an underscore"
    );
    assert_eq!(Expected::Class(CharClass::Space).description(), "whitespace");
    assert_eq!(Expected::Keyword(Keyword::Library).description(), "the keyword Library");
    assert_eq!(Expected::Keyword(Keyword::True).description(), "the keyword true");
    assert_eq!(Expected::Symbol('=').description(), "the character =");
    assert_eq!(Expected::Symbol('}').description(), "the character }");
    assert_eq!(Expected::Boolean.description(), "one of the keywords true and false");
    assert_eq!(Expected::Value.description(), "a number, a boolean or a text");
}

#[test]
fn character_classes() {
    for c in ['a', 'z', 'A', 'Z', 'é', 'Ω', '京'] {
        assert!(CharClass::Letter.accepts(c));
        assert!(CharClass::Name.accepts(c));
        assert!(CharClass::Word.accepts(c));
        assert!(!CharClass::Digit.accepts(c));
        assert!(!CharClass::Space.accepts(c));
    }
    for c in ['0', '5', '9'] {
        assert!(CharClass::Digit.accepts(c));
        assert!(CharClass::Word.accepts(c));
        assert!(!CharClass::Letter.accepts(c));
        assert!(!CharClass::Name.accepts(c));
        assert!(!CharClass::Space.accepts(c));
    }
    for c in [' ', '\t', '\n', '\u{b}', '\u{c}', '\r', '\u{85}', '\u{a0}', '\u{2003}', '\u{3000}'] {
        assert!(CharClass::Space.accepts(c));
        assert!(!CharClass::Word.accepts(c));
    }
    assert!(CharClass::Name.accepts('_'));
    assert!(CharClass::Word.accepts('_'));
    assert!(!CharClass::Letter.accepts('_'));
    for c in ['-', '.', '=', ';', '{', '}', '@', '[', '`', '/', ':', '\u{8}', '\u{e}', '\u{7f}', '٣'] {
        assert!(!CharClass::Space.accepts(c));
        assert!(!CharClass::Word.accepts(c));
        assert!(!CharClass::Digit.accepts(c));
    }
}

#[test]
fn character_classes_are_those_of_the_standard_library() {
    for code in 0u32..0x3_0000 {
        if let Some(c) = char::from_u32(code) {
            assert_eq!(CharClass::Letter.accepts(c), c.is_alphabetic());
            assert_eq!(CharClass::Space.accepts(c), c.is_whitespace());
            assert_eq!(CharClass::Digit.accepts(c), c.is_digit(10));
            assert_eq!(CharClass::Name.accepts(c), c.is_alphabetic() || c == '_');
            assert_eq!(
                CharClass::Word.accepts(c),
                c.is_alphabetic() || c.is_digit(10) || c == '_'
            );
        }
    }
}
