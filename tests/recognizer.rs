use elucidate::{keyword, number, scalar, Cursor, Expected, Keyword, MatchOutcome, Node, Rejection};

fn matched<'a>(node: Node, rest: &'a str, complete: bool) -> MatchOutcome<'a> {
    MatchOutcome::Matched(node, Cursor { input: rest, complete })
}

fn rejected<'a>(offset: usize, expected: Expected) -> MatchOutcome<'a> {
    MatchOutcome::Rejected(Rejection { offset, expected })
}

fn real_of(outcome: MatchOutcome) -> (f64, String) {
    match outcome {
        MatchOutcome::Matched(Node::Real(t), rest) => (t.parse::<f64>().unwrap(), rest.input.to_string()),
        other => panic!("expected a real, got {:?}", other),
    }
}

#[test]
fn decimal_integers_match_whole() {
    for n in [0i64, 7, 42, 1000, 123456789, i64::MAX] {
        let text = n.to_string();
        assert_eq!(number(Cursor::complete(&text)), matched(Node::Integer(n), "", true));
    }
}

#[test]
fn leading_zero_is_one_character() {
    assert_eq!(number(Cursor::complete("0123")), matched(Node::Integer(0), "123", true));
    assert_eq!(number(Cursor::complete("-0123")), matched(Node::Integer(0), "123", true));
    assert_eq!(number(Cursor::complete("-0")), matched(Node::Integer(0), "", true));
    assert_eq!(number(Cursor::complete("00")), matched(Node::Integer(0), "0", true));
}

#[test]
fn bare_trailing_dot_is_left() {
    assert_eq!(number(Cursor::complete("-127.")), matched(Node::Integer(-127), ".", true));
    assert_eq!(number(Cursor::complete("5e")), matched(Node::Integer(5), "e", true));
    assert_eq!(number(Cursor::complete("5e+x")), matched(Node::Integer(5), "e+x", true));
}

#[test]
fn exponent_with_sign_is_real() {
    assert_eq!(real_of(number(Cursor::complete("1e+7qwerty"))), (10000000.0, "qwerty".to_string()));
    assert_eq!(real_of(number(Cursor::complete("2.5E-2]"))), (0.025, "]".to_string()));
}

#[test]
fn integer_overflow_becomes_real() {
    assert_eq!(
        real_of(number(Cursor::complete("9223372036854775808"))),
        (9.223372036854776e18, String::new())
    );
    assert_eq!(
        number(Cursor::complete("-9223372036854775808")),
        matched(Node::Integer(i64::MIN), "", true)
    );
    assert_eq!(
        real_of(number(Cursor::complete("-9223372036854775809"))),
        (-9.223372036854776e18, String::new())
    );
    assert_eq!(
        real_of(number(Cursor::complete("92233e72036854775808"))),
        (f64::INFINITY, String::new())
    );
}

#[test]
fn keyword_streaming() {
    assert_eq!(keyword(Cursor::partial("tr"), Keyword::True), MatchOutcome::NeedMore(2));
    assert_eq!(keyword(Cursor::partial("fals"), Keyword::True), rejected(0, Expected::Keyword));
    assert_eq!(keyword(Cursor::complete("fals"), Keyword::True), rejected(0, Expected::Keyword));
    assert_eq!(keyword(Cursor::partial("trx"), Keyword::True), rejected(2, Expected::Keyword));
    assert_eq!(keyword(Cursor::complete("tr"), Keyword::True), rejected(2, Expected::Keyword));
    assert_eq!(keyword(Cursor::partial(""), Keyword::Null), MatchOutcome::NeedMore(4));
    assert_eq!(
        keyword(Cursor::partial("false,"), Keyword::False),
        matched(Node::Boolean(false), ",", false)
    );
}

#[test]
fn number_streaming() {
    assert_eq!(number(Cursor::partial("4567")), MatchOutcome::NeedMore(1));
    assert_eq!(number(Cursor::complete("4567")), matched(Node::Integer(4567), "", true));
    assert_eq!(number(Cursor::partial("")), MatchOutcome::NeedMore(1));
    assert_eq!(number(Cursor::partial("-")), MatchOutcome::NeedMore(1));
    assert_eq!(number(Cursor::partial("12.")), MatchOutcome::NeedMore(1));
    assert_eq!(number(Cursor::partial("12.5")), MatchOutcome::NeedMore(1));
    assert_eq!(number(Cursor::partial("12e")), MatchOutcome::NeedMore(1));
    assert_eq!(number(Cursor::partial("12.5E-")), MatchOutcome::NeedMore(1));
    assert_eq!(number(Cursor::partial("12x")), matched(Node::Integer(12), "x", false));
    assert_eq!(number(Cursor::partial("12.x")), matched(Node::Integer(12), ".x", false));
    assert_eq!(number(Cursor::partial("-x")), rejected(1, Expected::Digit));
    assert_eq!(number(Cursor::complete("")), rejected(0, Expected::Digit));
    assert_eq!(number(Cursor::complete("-")), rejected(1, Expected::Digit));
}

#[test]
fn scalar_order_and_rejection() {
    assert_eq!(scalar(Cursor::complete("null]")), matched(Node::Null, "]", true));
    assert_eq!(scalar(Cursor::complete("true")), matched(Node::Boolean(true), "", true));
    assert_eq!(scalar(Cursor::complete("-3,")), matched(Node::Integer(-3), ",", true));
    assert_eq!(scalar(Cursor::complete("abc")), rejected(0, Expected::Scalar));
    assert_eq!(scalar(Cursor::complete("nul")), rejected(3, Expected::Scalar));
    assert_eq!(scalar(Cursor::partial("nu")), MatchOutcome::NeedMore(2));
    assert_eq!(scalar(Cursor::partial("-1")), MatchOutcome::NeedMore(1));
}

#[test]
fn remainder_is_not_consumed_again() {
    let first = scalar(Cursor::complete("truefalse7"));
    assert_eq!(first, matched(Node::Boolean(true), "false7", true));
    let rest = match first {
        MatchOutcome::Matched(_, c) => c,
        _ => unreachable!(),
    };
    let second = scalar(rest);
    assert_eq!(second, matched(Node::Boolean(false), "7", true));
    let rest = match second {
        MatchOutcome::Matched(_, c) => c,
        _ => unreachable!(),
    };
    assert_eq!(scalar(rest), matched(Node::Integer(7), "", true));
}

#[test]
fn at_most_one_production_waits() {
    for input in ["t", "tru", "f", "fal", "n", "nul", "-", "0", "12.", "x"] {
        let c = Cursor::partial(input);
        let waiting = [
            keyword(c, Keyword::True),
            keyword(c, Keyword::False),
            keyword(c, Keyword::Null),
            number(c),
        ]
        .iter()
        .filter(|o| matches!(o, MatchOutcome::NeedMore(_)))
        .count();
        assert!(waiting <= 1, "{} waits in {} productions", input, waiting);
    }
}

#[test]
fn keyword_text_and_value() {
    assert_eq!(Keyword::True.text(), "true");
    assert_eq!(Keyword::False.text(), "false");
    assert_eq!(Keyword::Null.text(), "null");
    assert_eq!(Keyword::Null.value(), Node::Null);
}

#[test]
fn decisions_survive_more_input() {
    assert_eq!(scalar(Cursor::partial("12x")), matched(Node::Integer(12), "x", false));
    assert_eq!(scalar(Cursor::complete("12x5")), matched(Node::Integer(12), "x5", true));
    assert_eq!(number(Cursor::partial("1.5e")), MatchOutcome::NeedMore(1));
    assert_eq!(real_of(number(Cursor::partial("1.5e3 "))), (1500.0, " ".to_string()));
    assert_eq!(scalar(Cursor::partial("fx")), rejected(1, Expected::Scalar));
    assert_eq!(scalar(Cursor::partial("fxyz")), rejected(1, Expected::Scalar));
}
