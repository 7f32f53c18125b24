use elucidate::{boolean, integer, json, null, real_number, whitespace0, Expected, Node, Rejection};

fn reject(offset: usize, expected: Expected) -> Rejection {
    Rejection { offset, expected }
}

fn real_value(r: Result<(&str, String), Rejection>) -> (&str, f64) {
    let (rest, text) = r.unwrap();
    (rest, text.parse::<f64>().unwrap())
}

#[test]
fn parse_to_ast() {
    assert_eq!(json("    null    "), Ok(("", Node::Null)));
    assert_eq!(json("true"), Ok(("", Node::Boolean(true))));
    assert_eq!(json("false"), Ok(("", Node::Boolean(false))));
    match json("-42.42e7") {
        Ok(("", Node::Real(t))) => assert_eq!(t.parse::<f64>().unwrap(), -42.42e7),
        other => panic!("unexpected {:?}", other),
    }
    assert_eq!(json("-424200000"), Ok(("", Node::Integer(-424200000))));
}

#[test]
fn parses_null_values() {
    assert_eq!(null("nullabc"), Ok(("abc", ())));
    assert_eq!(null("()"), Err(reject(0, Expected::Keyword)));
    assert_eq!(null("nul"), Err(reject(3, Expected::Keyword)));
}

#[test]
fn parses_boolean_values() {
    assert_eq!(boolean("true\"more"), Ok(("\"more", true)));
    assert_eq!(boolean("falseXYZ"), Ok(("XYZ", false)));
    assert_eq!(boolean("1234567890"), Err(reject(0, Expected::Keyword)));
}

#[test]
fn parses_integer_numerical_values() {
    assert_eq!(integer("4567xyz"), Ok(("xyz", 4567)));
    assert_eq!(integer("00000XXX"), Ok(("0000XXX", 0)));
    assert_eq!(integer("123456789xyz"), Ok(("xyz", 123456789)));
    assert_eq!(integer("-500abc"), Ok(("abc", -500)));
    assert_eq!(integer("92233e72036854775808"), Ok(("e72036854775808", 92233)));
    assert_eq!(integer("abc"), Err(reject(0, Expected::Digit)));
}

#[test]
fn parse_real_numerical_values() {
    assert_eq!(real_value(real_number("456.7xyz")), ("xyz", 456.7));
    assert_eq!(real_value(real_number("0.0000XXX")), ("XXX", 0.0));
    assert_eq!(real_number("0123456789xyz"), Err(reject(1, Expected::FractionOrExponent)));
    assert_eq!(real_value(real_number("-500.98")), ("", -500.98));
    assert_eq!(real_value(real_number("6.89985307179586.")), (".", 6.89985307179586));
    assert_eq!(real_value(real_number("-12.7.e8")), (".e8", -12.7));
    assert_eq!(real_value(real_number("1e+7qwerty")), ("qwerty", 10_000_000.0));
    assert_eq!(real_number("-127."), Err(reject(4, Expected::FractionOrExponent)));
    assert_eq!(real_number("abc"), Err(reject(0, Expected::Digit)));
}

#[test]
fn whitespace0_parser_works() {
    let input = "\n\r  abc  \r\n";
    assert_eq!(whitespace0(input), ("abc  \r\n", "\n\r  "));
    assert_eq!(
        whitespace0("\r\n\t{\"message\":\"test\""),
        ("{\"message\":\"test\"", "\r\n\t")
    );
}

#[test]
fn integer_out_of_range_is_rejected() {
    assert_eq!(integer("9223372036854775807"), Ok(("", i64::MAX)));
    assert_eq!(integer("-9223372036854775808"), Ok(("", i64::MIN)));
    assert_eq!(integer("9223372036854775808"), Err(reject(0, Expected::FitsInt64)));
    assert_eq!(integer("-"), Err(reject(1, Expected::Digit)));
}

#[test]
fn json_trims_and_reports_offsets() {
    assert_eq!(json(" \t42 \n,"), Ok((",", Node::Integer(42))));
    assert_eq!(json("  x"), Err(reject(2, Expected::Scalar)));
    assert_eq!(json("  nul"), Err(reject(5, Expected::Scalar)));
    assert_eq!(json(""), Err(reject(0, Expected::Scalar)));
}
