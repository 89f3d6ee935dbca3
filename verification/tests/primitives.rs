use ace_parser::ast::Expr;
use ace_parser::parser::{ParseResult, Parser};
use ace_parser::simple::{any_char, chars_vec, comment, literal};
use ace_parser::syntax::integer;

fn cv(s: &str) -> Vec<char> {
    s.chars().collect()
}

#[test]
fn any_char_consumes_exactly_one_character() {
    let p = any_char();
    assert_eq!(p.parse(&cv("ab"), 0), ParseResult::Success(1, 'a'));
    assert_eq!(p.parse(&cv(""), 0), ParseResult::Failure);
}

#[test]
fn any_char_respects_multi_byte_characters() {
    let p = any_char();
    assert_eq!(p.parse(&cv("é!"), 0), ParseResult::Success(1, 'é'));
    assert_eq!(p.parse(&cv("日本"), 0), ParseResult::Success(1, '日'));
}

#[test]
fn chars_vec_preserves_the_characters() {
    assert_eq!(chars_vec("a b"), vec!['a', ' ', 'b']);
    assert_eq!(chars_vec(""), Vec::<char>::new());
    assert_eq!(chars_vec("héllo"), vec!['h', 'é', 'l', 'l', 'o']);
}

#[test]
fn literal_matches_exactly_its_text() {
    let p = literal("abc");
    assert_eq!(p.parse(&cv("abcd"), 0), ParseResult::Success(3, ()));
    assert_eq!(p.parse(&cv("abd"), 0), ParseResult::Failure);
    assert_eq!(p.parse(&cv("ab"), 0), ParseResult::Failure);
}

#[test]
fn empty_literal_is_a_zero_width_match() {
    let p = literal("");
    assert_eq!(p.parse(&cv("xyz"), 0), ParseResult::Success(0, ()));
    assert_eq!(p.parse(&cv(""), 0), ParseResult::Success(0, ()));
}

#[test]
fn comment_matches_a_block_comment() {
    let p = comment();
    assert_eq!(p.parse(&cv("/* hi */rest"), 0), ParseResult::Success(8, ()));
    assert_eq!(p.parse(&cv("/**/x"), 0), ParseResult::Success(4, ()));
}

#[test]
fn comment_is_non_greedy() {
    // The body runs only to the first closing marker.
    let p = comment();
    assert_eq!(p.parse(&cv("/*a*/b*/"), 0), ParseResult::Success(5, ()));
    assert_eq!(p.parse(&cv("/***/"), 0), ParseResult::Success(5, ()));
}

#[test]
fn unterminated_comment_fails() {
    let p = comment();
    assert_eq!(p.parse(&cv("/*never"), 0), ParseResult::Failure);
    assert_eq!(p.parse(&cv("/*/"), 0), ParseResult::Failure);
    assert_eq!(p.parse(&cv("x/**/"), 0), ParseResult::Failure);
    assert_eq!(p.parse(&cv("/"), 0), ParseResult::Failure);
}

#[test]
fn integer_reads_the_maximal_digit_run() {
    assert_eq!(
        integer(&cv("123abc"), 0),
        ParseResult::Success(3, Expr::Int(123))
    );
    assert_eq!(integer(&cv("00450"), 0), ParseResult::Success(5, Expr::Int(450)));
    assert_eq!(integer(&cv("abc"), 0), ParseResult::Failure);
    assert_eq!(integer(&cv(""), 0), ParseResult::Failure);
}

#[test]
fn integer_rejects_an_overflowing_run() {
    assert_eq!(
        integer(&cv("9223372036854775807"), 0),
        ParseResult::Success(19, Expr::Int(i64::MAX))
    );
    assert_eq!(integer(&cv("9223372036854775808"), 0), ParseResult::Failure);
    assert_eq!(integer(&cv("99999999999999999999"), 0), ParseResult::Failure);
}

#[test]
fn unicode_whitespace_is_skipped_around_operators() {
    // U+00A0 (no-break space) has the White_Space property.
    assert_eq!(
        ace_parser::syntax::parse("1\u{00A0}+ 2"),
        Some(Expr::BinOp(
            Box::new(Expr::Int(1)),
            ace_parser::ast::OpCode::Add,
            Box::new(Expr::Int(2))
        ))
    );
}
