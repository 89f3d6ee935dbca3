//! The arithmetic grammar: two precedence tiers of binary operators over
//! integer literals and parenthesised subexpressions, built from the
//! combinator library and the leaf parsers.
//!
//! Each tier follows the same template: try a binary operation first and,
//! only if that fails, fall back to the single-operand form. The recursive
//! call on a successful binary match sits on the right-hand operand, so
//! `a OP b OP c` parses as `a OP (b OP c)`: the tree leans right. For `+`
//! and `*` this evaluates as the conventional reading; for `-` and `/` it
//! does not, which is kept as the specified behaviour of this grammar.

use vstd::prelude::*;
use crate::ast::{Expr, OpCode};
use crate::parser::{Parser, ParseResult};
use crate::combinator::{Wrap, Alter, Many, Pred, MapFn, alter, all};
use crate::simple::{
    AnyChar, IsWs, Literal, literal, wrap_space0, chars_vec, ws_end, lemma_ws_end,
    lemma_space0_end,
};

verus! {

/// A decimal digit.
pub open spec fn is_digit(c: char) -> bool {
    48 <= c as u32 && c as u32 <= 57
}

/// The numeric value of a decimal digit.
pub open spec fn digit_val(c: char) -> int {
    c as u32 - 48
}

/// End of the digit run that starts at `pos`.
pub open spec fn digit_end(s: Seq<char>, pos: int) -> int
    decreases s.len() - pos,
{
    if 0 <= pos < s.len() && is_digit(s[pos]) {
        digit_end(s, pos + 1)
    } else {
        pos
    }
}

/// The value of the decimal digits in `s[pos..end]`, most significant
/// first.
pub open spec fn digits_val(s: Seq<char>, pos: int, end: int) -> int
    decreases end - pos,
{
    if pos < end {
        digits_val(s, pos, end - 1) * 10 + digit_val(s[end - 1])
    } else {
        0
    }
}

pub proof fn lemma_digit_end(s: Seq<char>, pos: int)
    requires
        0 <= pos <= s.len(),
    ensures
        pos <= digit_end(s, pos) <= s.len(),
        forall|i: int| pos <= i < digit_end(s, pos) ==> #[trigger] is_digit(s[i]),
        digit_end(s, pos) < s.len() ==> !is_digit(s[digit_end(s, pos)]),
    decreases s.len() - pos,
{
    if 0 <= pos < s.len() && is_digit(s[pos]) {
        lemma_digit_end(s, pos + 1);
    }
}

pub proof fn lemma_digits_val_nonneg(s: Seq<char>, pos: int, end: int)
    requires
        pos <= end,
        forall|i: int| pos <= i < end ==> #[trigger] is_digit(s[i]),
    ensures
        digits_val(s, pos, end) >= 0,
    decreases end - pos,
{
    if pos < end {
        assert(is_digit(s[end - 1]));
        lemma_digits_val_nonneg(s, pos, end - 1);
    }
}

/// Extending a digit run never shrinks its value.
pub proof fn lemma_digits_val_mono(s: Seq<char>, pos: int, a: int, b: int)
    requires
        pos <= a <= b,
        forall|i: int| pos <= i < b ==> #[trigger] is_digit(s[i]),
    ensures
        digits_val(s, pos, a) <= digits_val(s, pos, b),
    decreases b - a,
{
    if a < b {
        assert(is_digit(s[b - 1]));
        lemma_digits_val_mono(s, pos, a, b - 1);
        lemma_digits_val_nonneg(s, pos, b - 1);
    }
}

/// Meaning of the integer literal parser: the maximal digit run at `pos`,
/// read as a signed 64-bit integer. A run whose value does not fit fails
/// the parse rather than wrapping or saturating.
pub open spec fn int_result(s: Seq<char>, pos: int) -> Option<(int, Expr)> {
    if 0 <= pos < s.len() && is_digit(s[pos]) {
        let e = digit_end(s, pos);
        let n = digits_val(s, pos, e);
        if n <= i64::MAX as int {
            Some((e, Expr::Int(n as i64)))
        } else {
            None
        }
    } else {
        None
    }
}

/// Matches one or more decimal digits and converts them to a signed 64-bit
/// integer; fails without consuming anything when no digit is present or
/// the value overflows.
pub fn integer(s: &Vec<char>, pos: usize) -> (r: ParseResult<Expr>)
    requires
        pos <= s@.len(),
    ensures
        (match r {
            ParseResult::Success(next, v) => {
                &&& pos <= next <= s@.len()
                &&& int_result(s@, pos as int) == Some((next as int, v.deep_view()))
            },
            ParseResult::Failure => int_result(s@, pos as int) is None,
        }),
{
    if pos == s.len() {
        return ParseResult::Failure;
    }
    let c0 = s[pos];
    if !(48 <= c0 as u32 && c0 as u32 <= 57) {
        return ParseResult::Failure;
    }
    proof {
        lemma_digit_end(s@, pos as int);
    }
    let ghost dend = digit_end(s@, pos as int);
    let mut q: usize = pos;
    let mut val: i64 = 0;
    while q < s.len() && 48 <= s[q] as u32 && s[q] as u32 <= 57
        invariant
            pos <= q <= dend <= s@.len(),
            s@.len() <= usize::MAX,
            pos < s@.len(),
            is_digit(s@[pos as int]),
            dend == digit_end(s@, pos as int),
            forall|i: int| pos <= i < dend ==> #[trigger] is_digit(s@[i]),
            dend < s@.len() ==> !is_digit(s@[dend]),
            0 <= val,
            val as int == digits_val(s@, pos as int, q as int),
        decreases s@.len() - q,
    {
        proof {
            assert(q < dend);
        }
        let d = (s[q] as u32 - 48) as i64;
        let stepped = match val.checked_mul(10) {
            Some(v10) => v10.checked_add(d),
            None => None,
        };
        match stepped {
            Some(v2) => {
                val = v2;
                q += 1;
            },
            None => {
                proof {
                    assert(digits_val(s@, pos as int, q + 1) > i64::MAX as int);
                    lemma_digits_val_mono(s@, pos as int, q + 1, dend);
                    assert(digits_val(s@, pos as int, dend) > i64::MAX as int);
                }
                return ParseResult::Failure;
            },
        }
    }
    proof {
        if q < dend {
            assert(is_digit(s@[q as int]));
            assert(false);
        }
    }
    ParseResult::Success(q, Expr::Int(val))
}

/// Matches the expected text and yields the given operator code.
pub struct OpParser {
    pub lit: Literal,
    pub op: OpCode,
}

impl Parser for OpParser {
    type Output = OpCode;

    open spec fn wf(&self) -> bool {
        true
    }

    open spec fn result(&self, s: Seq<char>, pos: int) -> Option<(int, OpCode)> {
        match self.lit.result(s, pos) {
            Option::Some((next, _u)) => Some((next, self.op)),
            Option::None => None,
        }
    }

    fn parse(&self, s: &Vec<char>, pos: usize) -> (r: ParseResult<OpCode>) {
        match self.lit.parse(s, pos) {
            ParseResult::Success(next, _u) => ParseResult::Success(next, self.op),
            ParseResult::Failure => ParseResult::Failure,
        }
    }
}

/// Builds an operator matcher from its text and code.
pub fn opcode(expected: &str, op: OpCode) -> (r: OpParser)
    ensures
        r.lit.expected@ == expected@,
        r.op == op,
        r.wf(),
{
    OpParser { lit: literal(expected), op }
}

/// Which of two single-character operators stands at `pos`, if any; the
/// first is tried first.
pub open spec fn op2_at(
    s: Seq<char>,
    pos: int,
    c1: char,
    op1: OpCode,
    c2: char,
    op2: OpCode,
) -> Option<OpCode> {
    if 0 <= pos < s.len() {
        if s[pos] == c1 {
            Some(op1)
        } else if s[pos] == c2 {
            Some(op2)
        } else {
            None
        }
    } else {
        None
    }
}

/// Meaning of an operator surrounded by optional whitespace: skip
/// whitespace, read the operator, skip whitespace.
pub open spec fn op2_result(
    s: Seq<char>,
    pos: int,
    c1: char,
    op1: OpCode,
    c2: char,
    op2: OpCode,
) -> Option<(int, OpCode)> {
    let w = ws_end(s, pos);
    match op2_at(s, w, c1, op1, c2, op2) {
        Option::Some(op) => Some((ws_end(s, w + 1), op)),
        Option::None => None,
    }
}

/// The whitespace-wrapped choice of two one-character operators means
/// exactly [`op2_result`].
pub proof fn lemma_op2_bridge(
    opp: Wrap<Many<Pred<AnyChar, IsWs>>, Alter<OpParser, OpParser>, Many<Pred<AnyChar, IsWs>>>,
    s: Seq<char>,
    pos: int,
    c1: char,
    op1: OpCode,
    c2: char,
    op2: OpCode,
)
    requires
        0 <= pos <= s.len(),
        opp.lp == (Many { p: Pred { p: AnyChar, f: IsWs } }),
        opp.rp == (Many { p: Pred { p: AnyChar, f: IsWs } }),
        opp.p.p1.lit.expected@ == seq![c1],
        opp.p.p1.op == op1,
        opp.p.p2.lit.expected@ == seq![c2],
        opp.p.p2.op == op2,
    ensures
        opp.result(s, pos) == op2_result(s, pos, c1, op1, c2, op2),
{
    lemma_ws_end(s, pos);
    lemma_space0_end(s, pos);
    let w = ws_end(s, pos);
    if w < s.len() {
        assert(s.subrange(w, w + 1) =~= seq![s[w]]);
        assert(seq![s[w]][0] == s[w]);
        assert(seq![c1][0] == c1);
        assert(seq![c2][0] == c2);
        if s[w] == c1 || s[w] == c2 {
            lemma_ws_end(s, w + 1);
            lemma_space0_end(s, w + 1);
        }
    }
}

/// Meaning of an atom: an integer literal, or a parenthesised additive
/// expression with optional whitespace inside the parentheses.
pub open spec fn atom_result(s: Seq<char>, pos: int) -> Option<(int, Expr)>
    decreases s.len() - pos, 0int,
{
    match int_result(s, pos) {
        Option::Some(r) => Some(r),
        Option::None => {
            if 0 <= pos < s.len() && s[pos] == '(' {
                let w1 = ws_end(s, pos + 1);
                if pos < w1 <= s.len() {
                    match additive_result(s, w1) {
                        Option::Some((q, e)) => {
                            let w2 = ws_end(s, q);
                            if 0 <= w2 < s.len() && s[w2] == ')' {
                                Some((w2 + 1, e))
                            } else {
                                None
                            }
                        },
                        Option::None => None,
                    }
                } else {
                    None
                }
            } else {
                None
            }
        },
    }
}

/// Meaning of the multiplicative tier: an atom, optionally followed by `*`
/// or `/` and a right-recursive multiplicative expression. When the
/// operator or the right operand fails, the tier falls back to the atom
/// alone.
pub open spec fn multiplicative_result(s: Seq<char>, pos: int) -> Option<(int, Expr)>
    decreases s.len() - pos, 1int,
{
    match atom_result(s, pos) {
        Option::None => None,
        Option::Some((p1, l)) => match op2_result(s, p1, '*', OpCode::Mul, '/', OpCode::Div) {
            Option::None => Some((p1, l)),
            Option::Some((p2, op)) => if pos < p2 <= s.len() {
                match multiplicative_result(s, p2) {
                    Option::None => Some((p1, l)),
                    Option::Some((p3, rv)) => Some(
                        (p3, Expr::BinOp(Box::new(l), op, Box::new(rv))),
                    ),
                }
            } else {
                Some((p1, l))
            },
        },
    }
}

/// Meaning of the additive tier: a multiplicative expression, optionally
/// followed by `+` or `-` and a right-recursive additive expression, with
/// the same fallback as the multiplicative tier.
pub open spec fn additive_result(s: Seq<char>, pos: int) -> Option<(int, Expr)>
    decreases s.len() - pos, 2int,
{
    match multiplicative_result(s, pos) {
        Option::None => None,
        Option::Some((p1, l)) => match op2_result(s, p1, '+', OpCode::Add, '-', OpCode::Sub) {
            Option::None => Some((p1, l)),
            Option::Some((p2, op)) => if pos < p2 <= s.len() {
                match additive_result(s, p2) {
                    Option::None => Some((p1, l)),
                    Option::Some((p3, rv)) => Some(
                        (p3, Expr::BinOp(Box::new(l), op, Box::new(rv))),
                    ),
                }
            } else {
                Some((p1, l))
            },
        },
    }
}

/// Parses one atom.
pub fn atom(s: &Vec<char>, pos: usize) -> (r: ParseResult<Expr>)
    requires
        pos <= s@.len(),
    ensures
        (match r {
            ParseResult::Success(next, v) => {
                &&& pos <= next <= s@.len()
                &&& atom_result(s@, pos as int) == Some((next as int, v.deep_view()))
            },
            ParseResult::Failure => atom_result(s@, pos as int) is None,
        }),
    decreases s@.len() - pos, 0int,
{
    match integer(s, pos) {
        ParseResult::Success(next, v) => {
            return ParseResult::Success(next, v);
        },
        ParseResult::Failure => {},
    }
    let lp = literal("(");
    let p1 = match lp.parse(s, pos) {
        ParseResult::Success(p1, _u) => p1,
        ParseResult::Failure => {
            proof {
                reveal_strlit("(");
                if pos < s@.len() && s@[pos as int] == '(' {
                    assert(s@.subrange(pos as int, pos + 1) =~= "("@);
                    assert(false);
                }
            }
            return ParseResult::Failure;
        },
    };
    proof {
        reveal_strlit("(");
        assert(s@.subrange(pos as int, pos + 1) =~= seq![s@[pos as int]]);
        assert(seq![s@[pos as int]][0] == s@[pos as int]);
        assert(s@[pos as int] == '(');
    }
    let sp = crate::simple::space0();
    let w1 = match sp.parse(s, p1) {
        ParseResult::Success(w1, _ws) => w1,
        ParseResult::Failure => {
            proof {
                assert(false);
            }
            return ParseResult::Failure;
        },
    };
    proof {
        lemma_space0_end(s@, p1 as int);
        lemma_ws_end(s@, p1 as int);
    }
    match additive(s, w1) {
        ParseResult::Failure => {
            return ParseResult::Failure;
        },
        ParseResult::Success(p2, e) => {
            let w2 = match sp.parse(s, p2) {
                ParseResult::Success(w2, _ws) => w2,
                ParseResult::Failure => {
                    proof {
                        assert(false);
                    }
                    return ParseResult::Failure;
                },
            };
            proof {
                lemma_space0_end(s@, p2 as int);
                lemma_ws_end(s@, p2 as int);
            }
            let rp = literal(")");
            match rp.parse(s, w2) {
                ParseResult::Success(p3, _u) => {
                    proof {
                        reveal_strlit(")");
                        assert(s@.subrange(w2 as int, w2 + 1) =~= seq![s@[w2 as int]]);
                        assert(seq![s@[w2 as int]][0] == s@[w2 as int]);
                        assert(s@[w2 as int] == ')');
                    }
                    ParseResult::Success(p3, e)
                },
                ParseResult::Failure => {
                    proof {
                        reveal_strlit(")");
                        if w2 < s@.len() && s@[w2 as int] == ')' {
                            assert(s@.subrange(w2 as int, w2 + 1) =~= ")"@);
                            assert(false);
                        }
                    }
                    ParseResult::Failure
                },
            }
        },
    }
}

/// Parses one multiplicative expression.
pub fn multiplicative(s: &Vec<char>, pos: usize) -> (r: ParseResult<Expr>)
    requires
        pos <= s@.len(),
    ensures
        (match r {
            ParseResult::Success(next, v) => {
                &&& pos <= next <= s@.len()
                &&& multiplicative_result(s@, pos as int) == Some((next as int, v.deep_view()))
            },
            ParseResult::Failure => multiplicative_result(s@, pos as int) is None,
        }),
    decreases s@.len() - pos, 1int,
{
    let (p1, leftv) = match atom(s, pos) {
        ParseResult::Success(p1, v) => (p1, v),
        ParseResult::Failure => {
            return ParseResult::Failure;
        },
    };
    let opp = wrap_space0(alter(opcode("*", OpCode::Mul), opcode("/", OpCode::Div)));
    proof {
        reveal_strlit("*");
        reveal_strlit("/");
        assert(opp.p.p1.lit.expected@ =~= seq!['*']);
        assert(opp.p.p2.lit.expected@ =~= seq!['/']);
        lemma_op2_bridge(opp, s@, p1 as int, '*', OpCode::Mul, '/', OpCode::Div);
    }
    match opp.parse(s, p1) {
        ParseResult::Failure => ParseResult::Success(p1, leftv),
        ParseResult::Success(p2, op) => {
            proof {
                lemma_ws_end(s@, p1 as int);
                lemma_ws_end(s@, ws_end(s@, p1 as int) + 1);
            }
            match multiplicative(s, p2) {
                ParseResult::Failure => ParseResult::Success(p1, leftv),
                ParseResult::Success(p3, rightv) => ParseResult::Success(
                    p3,
                    Expr::BinOp(Box::new(leftv), op, Box::new(rightv)),
                ),
            }
        },
    }
}

/// Parses one additive expression.
pub fn additive(s: &Vec<char>, pos: usize) -> (r: ParseResult<Expr>)
    requires
        pos <= s@.len(),
    ensures
        (match r {
            ParseResult::Success(next, v) => {
                &&& pos <= next <= s@.len()
                &&& additive_result(s@, pos as int) == Some((next as int, v.deep_view()))
            },
            ParseResult::Failure => additive_result(s@, pos as int) is None,
        }),
    decreases s@.len() - pos, 2int,
{
    let (p1, leftv) = match multiplicative(s, pos) {
        ParseResult::Success(p1, v) => (p1, v),
        ParseResult::Failure => {
            return ParseResult::Failure;
        },
    };
    let opp = wrap_space0(alter(opcode("+", OpCode::Add), opcode("-", OpCode::Sub)));
    proof {
        reveal_strlit("+");
        reveal_strlit("-");
        assert(opp.p.p1.lit.expected@ =~= seq!['+']);
        assert(opp.p.p2.lit.expected@ =~= seq!['-']);
        lemma_op2_bridge(opp, s@, p1 as int, '+', OpCode::Add, '-', OpCode::Sub);
    }
    match opp.parse(s, p1) {
        ParseResult::Failure => ParseResult::Success(p1, leftv),
        ParseResult::Success(p2, op) => {
            proof {
                lemma_ws_end(s@, p1 as int);
                lemma_ws_end(s@, ws_end(s@, p1 as int) + 1);
            }
            match additive(s, p2) {
                ParseResult::Failure => ParseResult::Success(p1, leftv),
                ParseResult::Success(p3, rightv) => ParseResult::Success(
                    p3,
                    Expr::BinOp(Box::new(leftv), op, Box::new(rightv)),
                ),
            }
        },
    }
}

/// Builds a binary node from the nested pair that sequencing an operand,
/// an operator and an operand yields.
pub struct ToBinOp;

impl MapFn for ToBinOp {
    type Arg = ((Expr, OpCode), Expr);

    type Out = Expr;

    open spec fn spec_apply(&self, v: ((Expr, OpCode), Expr)) -> Expr {
        Expr::BinOp(Box::new(v.0.0), v.0.1, Box::new(v.1))
    }

    fn apply(&self, v: ((Expr, OpCode), Expr)) -> (r: Expr) {
        let ((l, op), rhs) = v;
        Expr::BinOp(Box::new(l), op, Box::new(rhs))
    }
}

/// The atom rule as a parser value, for composition with the combinators.
pub struct Atom;

impl Parser for Atom {
    type Output = Expr;

    open spec fn wf(&self) -> bool {
        true
    }

    open spec fn result(&self, s: Seq<char>, pos: int) -> Option<(int, Expr)> {
        atom_result(s, pos)
    }

    fn parse(&self, s: &Vec<char>, pos: usize) -> (r: ParseResult<Expr>) {
        atom(s, pos)
    }
}

/// The multiplicative rule as a parser value, for composition with the
/// combinators.
pub struct Multiplicative;

impl Parser for Multiplicative {
    type Output = Expr;

    open spec fn wf(&self) -> bool {
        true
    }

    open spec fn result(&self, s: Seq<char>, pos: int) -> Option<(int, Expr)> {
        multiplicative_result(s, pos)
    }

    fn parse(&self, s: &Vec<char>, pos: usize) -> (r: ParseResult<Expr>) {
        multiplicative(s, pos)
    }
}

/// The additive rule as a parser value, for composition with the
/// combinators.
pub struct Additive;

impl Parser for Additive {
    type Output = Expr;

    open spec fn wf(&self) -> bool {
        true
    }

    open spec fn result(&self, s: Seq<char>, pos: int) -> Option<(int, Expr)> {
        additive_result(s, pos)
    }

    fn parse(&self, s: &Vec<char>, pos: usize) -> (r: ParseResult<Expr>) {
        additive(s, pos)
    }
}

/// Meaning of the entry point: the additive grammar must consume the whole
/// input.
pub open spec fn parse_result(s: Seq<char>) -> Option<Expr> {
    match additive_result(s, 0) {
        Option::Some((end, e)) => if end == s.len() {
            Some(e)
        } else {
            None
        },
        Option::None => None,
    }
}

/// Parses a complete arithmetic expression, requiring the entire input to
/// be consumed. Returns `None` when the grammar cannot consume the whole
/// input: the designed failure path, with no partial tree.
pub fn parse(text: &str) -> (r: Option<Expr>)
    ensures
        (match r {
            Option::Some(e) => parse_result(text@) == Some(e),
            Option::None => parse_result(text@) is None,
        }),
{
    let s = chars_vec(text);
    let p = all(Additive);
    match p.parse(&s, 0) {
        ParseResult::Success(_end, v) => Some(v),
        ParseResult::Failure => None,
    }
}

} // verus!
