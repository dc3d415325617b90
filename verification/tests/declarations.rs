use stil::chars::CharClass;
use stil::{parameter, parameters};
use stil::{ArgDirection, Expected, Keyword, Param, ParamType, ParseFailure, ValueType};

fn text_value(data: &str) -> ValueType {
    ValueType::Text { data: data.to_string() }
}

fn number_value(data: &str, unit: Option<&str>) -> ValueType {
    ValueType::Number { data: data.to_string(), unit: unit.map(|u| u.to_string()) }
}

fn param(
    arg_direction: ArgDirection,
    param_type: ParamType,
    name: &str,
    value: ValueType,
) -> Param {
    Param { arg_direction, param_type, name: name.to_string(), value }
}

fn failure(position: usize, expected: Expected) -> ParseFailure {
    ParseFailure { position, expected }
}

#[test]
fn parameter_with_a_number_and_a_unit() {
    assert_eq!(
        parameter("In Voltage Lower = -1.3V"),
        Ok((
            param(
                ArgDirection::In,
                ParamType::Voltage,
                "Lower",
                number_value("-1.3", Some("V"))
            ),
            ""
        ))
    );
}

#[test]
fn parameter_names_every_direction() {
    for (word, direction) in [
        ("In", ArgDirection::In),
        ("Out", ArgDirection::Out),
        ("in", ArgDirection::Unknown),
        ("OUT", ArgDirection::Unknown),
        ("InOut", ArgDirection::Unknown),
        ("I", ArgDirection::Unknown),
        ("Foo", ArgDirection::Unknown),
        ("Äußer", ArgDirection::Unknown),
    ] {
        let written = format!("{word} Real x = 1");
        assert_eq!(
            parameter(&written),
            Ok((param(direction, ParamType::Real, "x", number_value("1", None)), ""))
        );
    }
}

#[test]
fn parameter_names_every_type() {
    for (word, kind) in [
        ("sigref_expr", ParamType::Sigrefexpr),
        ("Voltage", ParamType::Voltage),
        ("Current", ParamType::Current),
        ("String", ParamType::String),
        ("Integer", ParamType::Integer),
        ("Real", ParamType::Real),
        ("Time", ParamType::Time),
        ("Bool", ParamType::Bool),
        ("Enum", ParamType::Enum),
        ("Sigrefexpr", ParamType::Unknown),
        ("sigref_exp", ParamType::Unknown),
        ("voltage", ParamType::Unknown),
        ("Boolean", ParamType::Unknown),
        ("Bar", ParamType::Unknown),
        ("_", ParamType::Unknown),
    ] {
        let written = format!("Out {word} x = 1");
        assert_eq!(
            parameter(&written),
            Ok((param(ArgDirection::Out, kind, "x", number_value("1", None)), ""))
        );
    }
}

#[test]
fn parameter_with_unknown_keywords() {
    assert_eq!(
        parameter("Foo Bar x = 1"),
        Ok((
            param(ArgDirection::Unknown, ParamType::Unknown, "x", number_value("1", None)),
            ""
        ))
    );
}

#[test]
fn parameter_tries_number_then_boolean_then_text() {
    fn read(written: &str) -> Result<(ValueType, &str), ParseFailure> {
        parameter(written).map(|(p, rest)| (p.value, rest))
    }
    assert_eq!(read("In X v = 20"), Ok((number_value("20", None), "")));
    assert_eq!(read("In X v = 2e"), Ok((number_value("2", Some("e")), "")));
    assert_eq!(read("In X v = TRUE"), Ok((ValueType::Bool { data: true }, "")));
    assert_eq!(read("In X v = false"), Ok((ValueType::Bool { data: false }, "")));
    assert_eq!(read("In X v = square"), Ok((text_value("square"), "")));
    assert_eq!(read("In X v = _1"), Ok((text_value("_1"), "")));
    assert_eq!(read("In X v = Y___MVN03"), Ok((text_value("Y___MVN03"), "")));
    assert_eq!(read("In X v = truest"), Ok((ValueType::Bool { data: true }, "st")));
}

#[test]
fn parameter_value_that_breaks_off_is_no_value() {
    let digit = Expected::Class(CharClass::Digit);
    assert_eq!(parameter("In X v = -x"), Err(failure(10, digit)));
    assert_eq!(parameter("In X v = 1.x"), Err(failure(11, digit)));
    assert_eq!(parameter("In X v = tree"), Err(failure(11, Expected::Keyword(Keyword::True))));
    assert_eq!(parameter("In X v = t"), Err(failure(10, Expected::Keyword(Keyword::True))));
    assert_eq!(parameter("In X v = fast"), Err(failure(11, Expected::Keyword(Keyword::False))));
    assert_eq!(parameter("In X v = Final"), Err(failure(10, Expected::Keyword(Keyword::False))));
}

#[test]
fn parameter_without_a_value() {
    assert_eq!(parameter("In X v = "), Err(failure(9, Expected::Value)));
    assert_eq!(parameter("In X v = ;"), Err(failure(9, Expected::Value)));
    assert_eq!(parameter("In X v = +1"), Err(failure(9, Expected::Value)));
    assert_eq!(parameter("In X v =\n\t{"), Err(failure(10, Expected::Value)));
}

#[test]
fn parameter_without_equals() {
    assert_eq!(parameter("In X v 5"), Err(failure(7, Expected::Symbol('='))));
    assert_eq!(parameter("In X v"), Err(failure(6, Expected::Symbol('='))));
    assert_eq!(parameter("In X v1 = 5"), Err(failure(6, Expected::Symbol('='))));
    assert_eq!(parameter("In X v : 5"), Err(failure(7, Expected::Symbol('='))));
}

#[test]
fn parameter_without_its_words() {
    let letter = Expected::Class(CharClass::Letter);
    let name = Expected::Class(CharClass::Name);
    assert_eq!(parameter(""), Err(failure(0, letter)));
    assert_eq!(parameter("   "), Err(failure(3, letter)));
    assert_eq!(parameter("= 5"), Err(failure(0, letter)));
    assert_eq!(parameter("_In X v = 5"), Err(failure(0, letter)));
    assert_eq!(parameter("In"), Err(failure(2, name)));
    assert_eq!(parameter("In = 5"), Err(failure(3, name)));
    assert_eq!(parameter("In X"), Err(failure(4, name)));
    assert_eq!(parameter("In X = 5"), Err(failure(5, name)));
    assert_eq!(parameter("In 9 x = 5"), Err(failure(3, name)));
}

#[test]
fn parameter_direction_is_letters_only() {
    // The direction ends before `_`, which then begins the type.
    assert_eq!(
        parameter("In_x y = 1"),
        Ok((param(ArgDirection::In, ParamType::Unknown, "y", number_value("1", None)), ""))
    );
    assert_eq!(parameter("In_x y z = 1"), Err(failure(7, Expected::Symbol('='))));
    assert_eq!(
        parameter("In _x y = 1"),
        Ok((param(ArgDirection::In, ParamType::Unknown, "y", number_value("1", None)), ""))
    );
}

#[test]
fn parameter_is_free_in_its_layout() {
    let expected = param(ArgDirection::In, ParamType::Time, "C", number_value("16.6", Some("ms")));
    for written in [
        "In Time C = 16.6ms",
        "In Time C=16.6ms",
        "  In  Time\tC\n=\r\n16.6ms  ",
        "\u{a0}In\u{2003}Time C = 16.6ms\u{3000}",
    ] {
        assert_eq!(
            parameter(written),
            Ok((
                param(ArgDirection::In, ParamType::Time, "C", number_value("16.6", Some("ms"))),
                ""
            ))
        );
    }
    assert_eq!(parameter("In Time C = 16.6ms ; next"), Ok((expected, "; next")));
}

#[test]
fn parameters_of_two_declarations() {
    assert_eq!(
        parameters("In Bool RequiredDig = TRUE;In Integer Dig_Length = 20;"),
        Ok((
            vec![
                param(
                    ArgDirection::In,
                    ParamType::Bool,
                    "RequiredDig",
                    ValueType::Bool { data: true }
                ),
                param(
                    ArgDirection::In,
                    ParamType::Integer,
                    "Dig_Length",
                    number_value("20", None)
                ),
            ],
            ""
        ))
    );
}

#[test]
fn parameters_need_one_declaration() {
    let letter = Expected::Class(CharClass::Letter);
    assert_eq!(parameters(""), Err(failure(0, letter)));
    assert_eq!(parameters("  "), Err(failure(2, letter)));
    assert_eq!(parameters(";"), Err(failure(0, letter)));
    assert_eq!(parameters("}"), Err(failure(0, letter)));
}

#[test]
fn parameters_joined_read_as_each_alone() {
    let declarations = [
        "In Voltage Lower = -1.3V",
        "  Out sigref_expr Pins = Y___MVN03  ",
        "Foo Bar x = 1",
        "\nIn Bool RequiredAWG = TRUE",
        "In Integer Dig_Length = 20\t",
        "In Enum e = ALL",
    ];
    for count in 1..=declarations.len() {
        let chosen = &declarations[..count];
        let alone: Vec<Param> = chosen
            .iter()
            .map(|d| {
                let (p, rest) = parameter(d).unwrap();
                assert_eq!(rest, "");
                p
            })
            .collect();
        assert_eq!(alone.len(), count);
        let open = chosen.join(";");
        assert_eq!(parameters(&open), Ok((alone, "")));
        let alone: Vec<Param> = chosen.iter().map(|d| parameter(d).unwrap().0).collect();
        let closed = format!("{open};");
        assert_eq!(parameters(&closed), Ok((alone, "")));
    }
}

#[test]
fn parameters_keep_the_order_and_repeats() {
    let (found, rest) = parameters("In Real b = 2; In Real a = 1; In Real b = 2; In Real a = 3").unwrap();
    assert_eq!(rest, "");
    let names: Vec<&str> = found.iter().map(|p| p.name.as_str()).collect();
    assert_eq!(names, vec!["b", "a", "b", "a"]);
    assert_eq!(found[0], found[2]);
    assert_eq!(found[3].value, number_value("3", None));
}

#[test]
fn parameters_end_where_no_declaration_begins() {
    let one = || vec![param(ArgDirection::In, ParamType::Real, "a", number_value("1", None))];
    assert_eq!(parameters("In Real a = 1"), Ok((one(), "")));
    assert_eq!(parameters("In Real a = 1;"), Ok((one(), "")));
    assert_eq!(parameters("In Real a = 1 ;  "), Ok((one(), "")));
    assert_eq!(parameters("In Real a = 1 ; }"), Ok((one(), "}")));
    assert_eq!(parameters("In Real a = 1 }"), Ok((one(), "}")));
    assert_eq!(parameters("In Real a = 1;;"), Ok((one(), ";")));
    assert_eq!(parameters("In Real a = 1 In Real b = 2"), Ok((one(), "In Real b = 2")));
    assert_eq!(parameters("In Real a = 1; 2"), Ok((one(), "2")));
}

#[test]
fn parameters_fail_where_a_declaration_breaks_off() {
    assert_eq!(
        parameters("In Real a = 1; In"),
        Err(failure(17, Expected::Class(CharClass::Name)))
    );
    assert_eq!(parameters("In Real a = 1; In Real b"), Err(failure(24, Expected::Symbol('='))));
    assert_eq!(parameters("In Real a = 1; In Real b = ;"), Err(failure(27, Expected::Value)));
    assert_eq!(
        parameters("In Real a = 1; In Real b = 2.;"),
        Err(failure(29, Expected::Class(CharClass::Digit)))
    );
    assert_eq!(parameters("In Real a = ; In Real b = 2;"), Err(failure(12, Expected::Value)));
}
