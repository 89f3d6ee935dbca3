use ace_parser::ast::{Expr, OpCode};
use ace_parser::syntax::parse;

fn num(n: i64) -> Expr {
    Expr::Int(n)
}

fn bin(l: Expr, op: OpCode, r: Expr) -> Expr {
    Expr::BinOp(Box::new(l), op, Box::new(r))
}

#[test]
fn parses_simple_addition() {
    assert_eq!(parse("1+2"), Some(bin(num(1), OpCode::Add, num(2))));
}

#[test]
fn multiplication_binds_tighter_than_addition() {
    assert_eq!(
        parse("2*3+4"),
        Some(bin(bin(num(2), OpCode::Mul, num(3)), OpCode::Add, num(4)))
    );
}

#[test]
fn parentheses_override_precedence() {
    assert_eq!(
        parse("(1+2)*3"),
        Some(bin(bin(num(1), OpCode::Add, num(2)), OpCode::Mul, num(3)))
    );
}

#[test]
fn subtraction_is_right_associative() {
    // The right-recursive grammar makes `-` right-associative:
    // 6-3-2 parses as 6-(3-2), not the conventional (6-3)-2.
    assert_eq!(
        parse("6-3-2"),
        Some(bin(num(6), OpCode::Sub, bin(num(3), OpCode::Sub, num(2))))
    );
}

#[test]
fn division_is_right_associative() {
    assert_eq!(
        parse("8/4/2"),
        Some(bin(num(8), OpCode::Div, bin(num(4), OpCode::Div, num(2))))
    );
}

#[test]
fn whitespace_around_operators_is_skipped() {
    assert_eq!(parse("1 + 2"), Some(bin(num(1), OpCode::Add, num(2))));
    assert_eq!(
        parse("( 1 +\t2 ) *  3"),
        Some(bin(bin(num(1), OpCode::Add, num(2)), OpCode::Mul, num(3)))
    );
}

#[test]
fn leading_or_trailing_whitespace_fails_top_level() {
    // Whitespace is only skipped around operators and inside parentheses,
    // so the full-consumption check fails on padding at either end.
    assert_eq!(parse(" 1+2"), None);
    assert_eq!(parse("1+2 "), None);
}

#[test]
fn single_integer_parses() {
    assert_eq!(parse("42"), Some(num(42)));
    assert_eq!(parse("0"), Some(num(0)));
    assert_eq!(parse("007"), Some(num(7)));
}

#[test]
fn nested_parentheses_parse() {
    assert_eq!(parse("((5))"), Some(num(5)));
    assert_eq!(
        parse("(1*(2+3))"),
        Some(bin(num(1), OpCode::Mul, bin(num(2), OpCode::Add, num(3))))
    );
}

#[test]
fn malformed_input_fails_without_partial_tree() {
    assert_eq!(parse("1+"), None);
    assert_eq!(parse("(1+2"), None);
    assert_eq!(parse(""), None);
    assert_eq!(parse("+1"), None);
    assert_eq!(parse("1 2"), None);
    assert_eq!(parse("a+b"), None);
    assert_eq!(parse("1+2)"), None);
}

#[test]
fn largest_integer_parses_and_overflow_fails() {
    assert_eq!(parse("9223372036854775807"), Some(num(i64::MAX)));
    // One past the largest signed 64-bit value: the literal is rejected
    // rather than wrapped or saturated.
    assert_eq!(parse("9223372036854775808"), None);
}

#[test]
fn all_four_operators_produce_their_codes() {
    assert_eq!(parse("1+2"), Some(bin(num(1), OpCode::Add, num(2))));
    assert_eq!(parse("1-2"), Some(bin(num(1), OpCode::Sub, num(2))));
    assert_eq!(parse("1*2"), Some(bin(num(1), OpCode::Mul, num(2))));
    assert_eq!(parse("1/2"), Some(bin(num(1), OpCode::Div, num(2))));
}

#[test]
fn generated_expressions_parse_in_full() {
    // Concrete instances of the completeness law: well-formed strings of
    // the grammar always parse and consume everything.
    let cases = [
        "1",
        "12+345",
        "1+2*3-4/5",
        "((((1))))",
        "(1 + 2) * (3 - 4)",
        "10 / ( 2 + 3 )",
    ];
    for text in cases {
        assert!(parse(text).is_some(), "should parse: {text}");
    }
}
