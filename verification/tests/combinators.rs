use ace_parser::ast::{Expr, OpCode};
use ace_parser::combinator::{all, alter, left, opt, right, some, wrap};
use ace_parser::parser::{ParseResult, Parser};
use ace_parser::simple::{any_char, literal, space0, space1, ws_char, wrap_space0};
use ace_parser::syntax::{opcode, Atom, ToBinOp};

fn cv(s: &str) -> Vec<char> {
    s.chars().collect()
}

#[test]
fn concat_yields_both_values_in_order() {
    let p = ace_parser::combinator::concat(any_char(), any_char());
    assert_eq!(p.parse(&cv("ab"), 0), ParseResult::Success(2, ('a', 'b')));
    assert_eq!(p.parse(&cv("a"), 0), ParseResult::Failure);
}

#[test]
fn alter_takes_the_first_success() {
    let p = alter(opcode("+", OpCode::Add), opcode("+", OpCode::Sub));
    match p.parse(&cv("+"), 0) {
        ParseResult::Success(next, op) => {
            assert_eq!(next, 1);
            assert_eq!(op, OpCode::Add);
        }
        ParseResult::Failure => panic!("alter should succeed"),
    }
}

#[test]
fn alter_backtracks_to_the_second_parser() {
    let p = alter(opcode("*", OpCode::Mul), opcode("/", OpCode::Div));
    assert_eq!(p.parse(&cv("/"), 0), ParseResult::Success(1, OpCode::Div));
    assert_eq!(p.parse(&cv("%"), 0), ParseResult::Failure);
}

#[test]
fn opt_turns_failure_into_zero_width_success() {
    let p = opt(ws_char());
    assert_eq!(p.parse(&cv(" x"), 0), ParseResult::Success(1, Some(' ')));
    assert_eq!(p.parse(&cv("x"), 0), ParseResult::Success(0, None));
    assert_eq!(p.parse(&cv(""), 0), ParseResult::Success(0, None));
}

#[test]
fn many_ws_on_non_whitespace_succeeds_empty() {
    // Zero-or-more whitespace on empty or non-whitespace-leading input
    // succeeds immediately with an empty sequence, consuming nothing.
    let p = ace_parser::combinator::many(ws_char());
    assert_eq!(p.parse(&cv(""), 0), ParseResult::Success(0, Vec::new()));
    assert_eq!(p.parse(&cv("abc"), 0), ParseResult::Success(0, Vec::new()));
    let q = space0();
    assert_eq!(q.parse(&cv("abc"), 0), ParseResult::Success(0, Vec::new()));
}

#[test]
fn some_ws_on_non_whitespace_fails_unchanged() {
    // One-or-more whitespace on the same inputs fails, returning the
    // input unconsumed.
    let p = some(ws_char());
    assert_eq!(p.parse(&cv(""), 0), ParseResult::Failure);
    assert_eq!(p.parse(&cv("abc"), 0), ParseResult::Failure);
    let q = space1();
    assert_eq!(q.parse(&cv("abc"), 0), ParseResult::Failure);
}

#[test]
fn repetition_collects_values_in_order() {
    let p = space0();
    assert_eq!(
        p.parse(&cv(" \t\nx"), 0),
        ParseResult::Success(3, vec![' ', '\t', '\n'])
    );
    let q = space1();
    assert_eq!(q.parse(&cv("  "), 0), ParseResult::Success(2, vec![' ', ' ']));
}

#[test]
fn map_transforms_the_parsed_value() {
    // The shape the grammar uses: operand, operator, operand, mapped into
    // a binary node.
    let p = ace_parser::combinator::map(
        ace_parser::combinator::concat(
            ace_parser::combinator::concat(Atom, wrap_space0(alter(opcode("*", OpCode::Mul), opcode("/", OpCode::Div)))),
            Atom,
        ),
        ToBinOp,
    );
    assert_eq!(
        p.parse(&cv("2 * 3"), 0),
        ParseResult::Success(
            5,
            Expr::BinOp(Box::new(Expr::Int(2)), OpCode::Mul, Box::new(Expr::Int(3)))
        )
    );
    assert_eq!(p.parse(&cv("2"), 0), ParseResult::Failure);
}

#[test]
fn left_and_right_keep_one_component() {
    let p = left(any_char(), literal("!"));
    assert_eq!(p.parse(&cv("x!"), 0), ParseResult::Success(2, 'x'));
    assert_eq!(p.parse(&cv("x?"), 0), ParseResult::Failure);
    let q = right(literal("-"), any_char());
    assert_eq!(q.parse(&cv("-x"), 0), ParseResult::Success(2, 'x'));
    assert_eq!(q.parse(&cv("x"), 0), ParseResult::Failure);
}

#[test]
fn wrap_keeps_the_middle_value() {
    let p = wrap(literal("["), any_char(), literal("]"));
    assert_eq!(p.parse(&cv("[x]"), 0), ParseResult::Success(3, 'x'));
    assert_eq!(p.parse(&cv("[x"), 0), ParseResult::Failure);
    assert_eq!(p.parse(&cv("x]"), 0), ParseResult::Failure);
}

#[test]
fn pred_fails_without_consuming() {
    let p = ws_char();
    assert_eq!(p.parse(&cv(" "), 0), ParseResult::Success(1, ' '));
    assert_eq!(p.parse(&cv("x"), 0), ParseResult::Failure);
}

#[test]
fn all_requires_full_consumption() {
    let p = all(any_char());
    assert_eq!(p.parse(&cv("a"), 0), ParseResult::Success(1, 'a'));
    assert_eq!(p.parse(&cv("ab"), 0), ParseResult::Failure);
}

#[test]
fn parsers_run_from_any_position() {
    let p = ace_parser::combinator::concat(any_char(), any_char());
    assert_eq!(p.parse(&cv("abc"), 1), ParseResult::Success(3, ('b', 'c')));
    let q = space0();
    assert_eq!(q.parse(&cv("a  "), 1), ParseResult::Success(3, vec![' ', ' ']));
}
