//! Completeness of the grammar: every string generated by the grammar
//! parses successfully and is consumed in full.
//!
//! A derivation tree describes one way to generate a string: digit runs for
//! integer literals, explicit whitespace runs around operators and inside
//! parentheses, and an operator character at each binary node. The proof
//! shows, by mutual induction over the derivation, that the parser of each
//! tier consumes exactly the rendered text and yields the denoted
//! expression. Digit runs whose value exceeds the signed 64-bit range are
//! excluded: the parser rejects such literals by design.

use vstd::prelude::*;
use crate::ast::{Expr, OpCode};
use crate::simple::{is_ws_char, ws_end, lemma_ws_end, lemma_ws_end_of_run};
use crate::syntax::{
    is_digit, digit_val, digit_end, digits_val, int_result, op2_result, atom_result,
    multiplicative_result, additive_result, parse_result,
};

verus! {

/// A derivation of an atom: a digit run, or a parenthesised additive
/// derivation with whitespace runs inside the parentheses.
pub enum AtomTree {
    Num(Seq<char>),
    Paren(Seq<char>, Box<AddTree>, Seq<char>),
}

/// A derivation of a multiplicative expression: a single atom, or an atom,
/// whitespace, `*` or `/`, whitespace, and a right-recursive rest.
pub enum MulTree {
    Single(AtomTree),
    Bin(AtomTree, Seq<char>, char, Seq<char>, Box<MulTree>),
}

/// A derivation of an additive expression, built like [`MulTree`] over
/// multiplicative operands and `+` or `-`.
pub enum AddTree {
    Single(MulTree),
    Bin(MulTree, Seq<char>, char, Seq<char>, Box<AddTree>),
}

pub open spec fn all_ws(w: Seq<char>) -> bool {
    forall|i: int| 0 <= i < w.len() ==> is_ws_char(#[trigger] w[i])
}

/// The value of a standalone digit run, most significant digit first.
pub open spec fn val_of(ds: Seq<char>) -> int
    decreases ds.len(),
{
    if ds.len() == 0 {
        0
    } else {
        val_of(ds.drop_last()) * 10 + digit_val(ds.last())
    }
}

pub open spec fn atom_size(t: AtomTree) -> nat
    decreases t,
{
    match t {
        AtomTree::Num(_) => 1,
        AtomTree::Paren(_, inner, _) => add_size(*inner) + 1,
    }
}

pub open spec fn mul_size(t: MulTree) -> nat
    decreases t,
{
    match t {
        MulTree::Single(a) => atom_size(a) + 1,
        MulTree::Bin(a, _, _, _, rest) => atom_size(a) + mul_size(*rest) + 1,
    }
}

pub open spec fn add_size(t: AddTree) -> nat
    decreases t,
{
    match t {
        AddTree::Single(m) => mul_size(m) + 1,
        AddTree::Bin(m, _, _, _, rest) => mul_size(m) + add_size(*rest) + 1,
    }
}

pub open spec fn atom_wf(t: AtomTree) -> bool
    decreases t,
{
    match t {
        AtomTree::Num(ds) => {
            &&& ds.len() > 0
            &&& (forall|i: int| 0 <= i < ds.len() ==> is_digit(#[trigger] ds[i]))
            &&& val_of(ds) <= i64::MAX as int
        },
        AtomTree::Paren(w1, inner, w2) => all_ws(w1) && all_ws(w2) && add_wf(*inner),
    }
}

pub open spec fn mul_wf(t: MulTree) -> bool
    decreases t,
{
    match t {
        MulTree::Single(a) => atom_wf(a),
        MulTree::Bin(a, w1, c, w2, rest) => {
            &&& atom_wf(a)
            &&& all_ws(w1)
            &&& (c == '*' || c == '/')
            &&& all_ws(w2)
            &&& mul_wf(*rest)
        },
    }
}

pub open spec fn add_wf(t: AddTree) -> bool
    decreases t,
{
    match t {
        AddTree::Single(m) => mul_wf(m),
        AddTree::Bin(m, w1, c, w2, rest) => {
            &&& mul_wf(m)
            &&& all_ws(w1)
            &&& (c == '+' || c == '-')
            &&& all_ws(w2)
            &&& add_wf(*rest)
        },
    }
}

pub open spec fn atom_render(t: AtomTree) -> Seq<char>
    decreases t,
{
    match t {
        AtomTree::Num(ds) => ds,
        AtomTree::Paren(w1, inner, w2) => seq!['('] + w1 + add_render(*inner) + w2 + seq![')'],
    }
}

pub open spec fn mul_render(t: MulTree) -> Seq<char>
    decreases t,
{
    match t {
        MulTree::Single(a) => atom_render(a),
        MulTree::Bin(a, w1, c, w2, rest) => atom_render(a) + w1 + seq![c] + w2 + mul_render(*rest),
    }
}

pub open spec fn add_render(t: AddTree) -> Seq<char>
    decreases t,
{
    match t {
        AddTree::Single(m) => mul_render(m),
        AddTree::Bin(m, w1, c, w2, rest) => mul_render(m) + w1 + seq![c] + w2 + add_render(*rest),
    }
}

pub open spec fn mul_op_of(c: char) -> OpCode {
    if c == '*' {
        OpCode::Mul
    } else {
        OpCode::Div
    }
}

pub open spec fn add_op_of(c: char) -> OpCode {
    if c == '+' {
        OpCode::Add
    } else {
        OpCode::Sub
    }
}

pub open spec fn atom_value(t: AtomTree) -> Expr
    decreases t,
{
    match t {
        AtomTree::Num(ds) => Expr::Int(val_of(ds) as i64),
        AtomTree::Paren(_, inner, _) => add_value(*inner),
    }
}

pub open spec fn mul_value(t: MulTree) -> Expr
    decreases t,
{
    match t {
        MulTree::Single(a) => atom_value(a),
        MulTree::Bin(a, _, c, _, rest) => Expr::BinOp(
            Box::new(atom_value(a)),
            mul_op_of(c),
            Box::new(mul_value(*rest)),
        ),
    }
}

pub open spec fn add_value(t: AddTree) -> Expr
    decreases t,
{
    match t {
        AddTree::Single(m) => mul_value(m),
        AddTree::Bin(m, _, c, _, rest) => Expr::BinOp(
            Box::new(mul_value(m)),
            add_op_of(c),
            Box::new(add_value(*rest)),
        ),
    }
}

/// After position `q`, nothing that would extend a multiplicative parse:
/// no digit directly at `q`, and no `*` or `/` after the whitespace run.
pub open spec fn no_mul_follow(s: Seq<char>, q: int) -> bool {
    &&& (q == s.len() || !is_digit(s[q]))
    &&& (ws_end(s, q) == s.len() || (s[ws_end(s, q)] != '*' && s[ws_end(s, q)] != '/'))
}

/// After position `q`, nothing that would extend an additive parse either.
pub open spec fn no_add_follow(s: Seq<char>, q: int) -> bool {
    &&& no_mul_follow(s, q)
    &&& (ws_end(s, q) == s.len() || (s[ws_end(s, q)] != '+' && s[ws_end(s, q)] != '-'))
}

/// Characters of an embedded sequence, read through the enclosing one.
proof fn lemma_index_of_eq(s: Seq<char>, pos: int, r: Seq<char>)
    requires
        0 <= pos,
        pos + r.len() <= s.len(),
        s.subrange(pos, pos + r.len() as int) == r,
    ensures
        forall|j: int| 0 <= j < r.len() ==> s[pos + j] == #[trigger] r[j],
{
    assert forall|j: int| 0 <= j < r.len() implies s[pos + j] == #[trigger] r[j] by {
        assert(r[j] == s.subrange(pos, pos + r.len() as int)[j]);
    }
}

/// A digit run stops exactly at the first non-digit character.
proof fn lemma_digit_end_of_run(s: Seq<char>, pos: int, stop: int)
    requires
        0 <= pos <= stop <= s.len(),
        forall|i: int| pos <= i < stop ==> #[trigger] is_digit(s[i]),
        stop == s.len() || !is_digit(s[stop]),
    ensures
        digit_end(s, pos) == stop,
    decreases stop - pos,
{
    if pos < stop {
        assert(is_digit(s[pos]));
        lemma_digit_end_of_run(s, pos + 1, stop);
    }
}

/// The digit value of a region of `s` equals the value of the region read
/// on its own.
proof fn lemma_digits_val_eq(s: Seq<char>, pos: int, end: int)
    requires
        0 <= pos <= end <= s.len(),
    ensures
        digits_val(s, pos, end) == val_of(s.subrange(pos, end)),
    decreases end - pos,
{
    if pos < end {
        lemma_digits_val_eq(s, pos, end - 1);
        assert(s.subrange(pos, end).drop_last() =~= s.subrange(pos, end - 1));
        assert(s.subrange(pos, end).last() == s[end - 1]);
    }
}

/// A rendered atom is non-empty and starts with a digit or `(`; in
/// particular it does not start with whitespace.
proof fn lemma_atom_render_first(t: AtomTree)
    requires
        atom_wf(t),
    ensures
        atom_render(t).len() > 0,
        is_digit(atom_render(t)[0]) || atom_render(t)[0] == '(',
        !is_ws_char(atom_render(t)[0]),
{
    match t {
        AtomTree::Num(ds) => {
            assert(is_digit(ds[0]));
        },
        AtomTree::Paren(w1, inner, w2) => {
            assert(atom_render(t)[0] == '(');
        },
    }
}

proof fn lemma_mul_render_first(t: MulTree)
    requires
        mul_wf(t),
    ensures
        mul_render(t).len() > 0,
        is_digit(mul_render(t)[0]) || mul_render(t)[0] == '(',
        !is_ws_char(mul_render(t)[0]),
{
    match t {
        MulTree::Single(a) => {
            lemma_atom_render_first(a);
        },
        MulTree::Bin(a, w1, c, w2, rest) => {
            lemma_atom_render_first(a);
            assert(mul_render(t)[0] == atom_render(a)[0]);
        },
    }
}

proof fn lemma_add_render_first(t: AddTree)
    requires
        add_wf(t),
    ensures
        add_render(t).len() > 0,
        is_digit(add_render(t)[0]) || add_render(t)[0] == '(',
        !is_ws_char(add_render(t)[0]),
{
    match t {
        AddTree::Single(m) => {
            lemma_mul_render_first(m);
        },
        AddTree::Bin(m, w1, c, w2, rest) => {
            lemma_mul_render_first(m);
            assert(add_render(t)[0] == mul_render(m)[0]);
        },
    }
}

/// The atom parser consumes exactly a rendered atom and yields its value.
/// For a digit run the character after it, if any, must not be a digit:
/// the literal parser reads the maximal run.
proof fn lemma_atom_complete(t: AtomTree, s: Seq<char>, pos: int)
    requires
        atom_wf(t),
        0 <= pos,
        pos + atom_render(t).len() <= s.len(),
        s.subrange(pos, pos + atom_render(t).len() as int) == atom_render(t),
        t is Num ==> (pos + atom_render(t).len() == s.len() || !is_digit(
            s[pos + atom_render(t).len()],
        )),
    ensures
        atom_result(s, pos) == Some((pos + atom_render(t).len() as int, atom_value(t))),
    decreases atom_size(t),
{
    let r = atom_render(t);
    let end = pos + r.len() as int;
    lemma_index_of_eq(s, pos, r);
    match t {
        AtomTree::Num(ds) => {
            assert forall|i: int| pos <= i < end implies #[trigger] is_digit(s[i]) by {
                assert(s[i] == ds[i - pos]);
                assert(is_digit(ds[i - pos]));
            }
            lemma_digit_end_of_run(s, pos, end);
            lemma_digits_val_eq(s, pos, end);
            assert(s.subrange(pos, end) == ds);
            assert(is_digit(s[pos]));
            assert(int_result(s, pos) == Some((end, Expr::Int(val_of(ds) as i64))));
        },
        AtomTree::Paren(w1, inner, w2) => {
            let ir = add_render(*inner);
            let b1 = pos + 1;  // start of the opening whitespace run
            let b2 = b1 + w1.len() as int;  // start of the inner expression
            let b3 = b2 + ir.len() as int;  // start of the closing whitespace run
            let b4 = b3 + w2.len() as int;  // position of the closing parenthesis
            assert(r[0] == '(');
            assert(s[pos] == '(');
            assert(!is_digit('('));
            assert(int_result(s, pos) is None);
            lemma_add_render_first(*inner);
            // the opening whitespace run
            assert forall|i: int| b1 <= i < b2 implies #[trigger] is_ws_char(s[i]) by {
                assert(s[i] == r[i - pos]);
                assert(r[i - pos] == w1[i - b1]);
                assert(is_ws_char(w1[i - b1]));
            }
            assert(s[b2] == r[b2 - pos]);
            assert(r[b2 - pos] == ir[0]);
            lemma_ws_end_of_run(s, b1, b2);
            // the inner additive expression
            assert(s.subrange(b2, b3) =~= ir) by {
                assert forall|j: int| 0 <= j < ir.len() implies s.subrange(b2, b3)[j] == ir[j] by {
                    assert(s.subrange(b2, b3)[j] == s[b2 + j]);
                    assert(s[b2 + j] == r[b2 + j - pos]);
                    assert(r[b2 + j - pos] == ir[j]);
                }
            }
            // after the inner expression: whitespace, then the closing
            // parenthesis, so nothing extends the inner parse
            assert forall|i: int| b3 <= i < b4 implies #[trigger] is_ws_char(s[i]) by {
                assert(s[i] == r[i - pos]);
                assert(r[i - pos] == w2[i - b3]);
                assert(is_ws_char(w2[i - b3]));
            }
            assert(s[b4] == r[b4 - pos]);
            assert(r[b4 - pos] == ')');
            lemma_ws_end_of_run(s, b3, b4);
            assert(b3 == s.len() || !is_digit(s[b3])) by {
                if b3 < b4 {
                    assert(is_ws_char(s[b3]));
                } else {
                    assert(s[b3] == ')');
                }
            }
            assert(no_add_follow(s, b3));
            lemma_add_complete(*inner, s, b2);
            assert(atom_result(s, pos) == Some((b4 + 1, add_value(*inner))));
            assert(b4 + 1 == end);
        },
    }
}

/// The multiplicative parser consumes exactly a rendered multiplicative
/// derivation and yields its value, provided nothing after it would extend
/// the parse.
proof fn lemma_mul_complete(t: MulTree, s: Seq<char>, pos: int)
    requires
        mul_wf(t),
        0 <= pos,
        pos + mul_render(t).len() <= s.len(),
        s.subrange(pos, pos + mul_render(t).len() as int) == mul_render(t),
        no_mul_follow(s, pos + mul_render(t).len() as int),
    ensures
        multiplicative_result(s, pos) == Some((pos + mul_render(t).len() as int, mul_value(t))),
    decreases mul_size(t),
{
    let r = mul_render(t);
    let end = pos + r.len() as int;
    lemma_index_of_eq(s, pos, r);
    match t {
        MulTree::Single(a) => {
            lemma_atom_complete(a, s, pos);
            // after the atom no `*` or `/` follows, so the binary branch
            // fails and the tier falls back to the atom alone
            lemma_ws_end(s, end);
            assert(op2_result(s, end, '*', OpCode::Mul, '/', OpCode::Div) is None);
        },
        MulTree::Bin(a, w1, c, w2, rest) => {
            let ar = atom_render(a);
            let rr = mul_render(*rest);
            let b1 = pos + ar.len() as int;  // start of the whitespace before the operator
            let b2 = b1 + w1.len() as int;  // position of the operator
            let b3 = b2 + 1;  // start of the whitespace after the operator
            let b4 = b3 + w2.len() as int;  // start of the right operand
            assert(s.subrange(pos, b1) =~= ar) by {
                assert forall|j: int| 0 <= j < ar.len() implies s.subrange(pos, b1)[j] == ar[j] by {
                    assert(s.subrange(pos, b1)[j] == s[pos + j]);
                    assert(s[pos + j] == r[j]);
                    assert(r[j] == ar[j]);
                }
            }
            assert(s[b2] == r[b2 - pos]);
            assert(r[b2 - pos] == c);
            assert forall|i: int| b1 <= i < b2 implies #[trigger] is_ws_char(s[i]) by {
                assert(s[i] == r[i - pos]);
                assert(r[i - pos] == w1[i - b1]);
                assert(is_ws_char(w1[i - b1]));
            }
            assert(b1 == s.len() || !is_digit(s[b1])) by {
                if b1 < b2 {
                    assert(is_ws_char(s[b1]));
                } else {
                    assert(s[b1] == c);
                }
            }
            lemma_atom_complete(a, s, pos);
            lemma_ws_end_of_run(s, b1, b2);
            lemma_mul_render_first(*rest);
            assert forall|i: int| b3 <= i < b4 implies #[trigger] is_ws_char(s[i]) by {
                assert(s[i] == r[i - pos]);
                assert(r[i - pos] == w2[i - b3]);
                assert(is_ws_char(w2[i - b3]));
            }
            assert(s[b4] == r[b4 - pos]);
            assert(r[b4 - pos] == rr[0]);
            lemma_ws_end_of_run(s, b3, b4);
            assert(op2_result(s, b1, '*', OpCode::Mul, '/', OpCode::Div) == Some(
                (b4, mul_op_of(c)),
            ));
            assert(s.subrange(b4, end) =~= rr) by {
                assert forall|j: int| 0 <= j < rr.len() implies s.subrange(b4, end)[j] == rr[j] by {
                    assert(s.subrange(b4, end)[j] == s[b4 + j]);
                    assert(s[b4 + j] == r[b4 + j - pos]);
                    assert(r[b4 + j - pos] == rr[j]);
                }
            }
            lemma_mul_complete(*rest, s, b4);
            assert(multiplicative_result(s, pos) == Some((end, mul_value(t))));
        },
    }
}

/// The additive parser consumes exactly a rendered additive derivation and
/// yields its value, provided nothing after it would extend the parse.
proof fn lemma_add_complete(t: AddTree, s: Seq<char>, pos: int)
    requires
        add_wf(t),
        0 <= pos,
        pos + add_render(t).len() <= s.len(),
        s.subrange(pos, pos + add_render(t).len() as int) == add_render(t),
        no_add_follow(s, pos + add_render(t).len() as int),
    ensures
        additive_result(s, pos) == Some((pos + add_render(t).len() as int, add_value(t))),
    decreases add_size(t),
{
    let r = add_render(t);
    let end = pos + r.len() as int;
    lemma_index_of_eq(s, pos, r);
    match t {
        AddTree::Single(m) => {
            lemma_mul_complete(m, s, pos);
            lemma_ws_end(s, end);
            assert(op2_result(s, end, '+', OpCode::Add, '-', OpCode::Sub) is None);
        },
        AddTree::Bin(m, w1, c, w2, rest) => {
            let mr = mul_render(m);
            let rr = add_render(*rest);
            let b1 = pos + mr.len() as int;  // start of the whitespace before the operator
            let b2 = b1 + w1.len() as int;  // position of the operator
            let b3 = b2 + 1;  // start of the whitespace after the operator
            let b4 = b3 + w2.len() as int;  // start of the right operand
            assert(s.subrange(pos, b1) =~= mr) by {
                assert forall|j: int| 0 <= j < mr.len() implies s.subrange(pos, b1)[j] == mr[j] by {
                    assert(s.subrange(pos, b1)[j] == s[pos + j]);
                    assert(s[pos + j] == r[j]);
                    assert(r[j] == mr[j]);
                }
            }
            assert(s[b2] == r[b2 - pos]);
            assert(r[b2 - pos] == c);
            assert forall|i: int| b1 <= i < b2 implies #[trigger] is_ws_char(s[i]) by {
                assert(s[i] == r[i - pos]);
                assert(r[i - pos] == w1[i - b1]);
                assert(is_ws_char(w1[i - b1]));
            }
            lemma_ws_end_of_run(s, b1, b2);
            // the left operand may not be extended: after it comes
            // whitespace and then `+` or `-`, which the multiplicative
            // tier does not take
            assert(no_mul_follow(s, b1)) by {
                if b1 < b2 {
                    assert(is_ws_char(s[b1]));
                }
            }
            lemma_mul_complete(m, s, pos);
            lemma_add_render_first(*rest);
            assert forall|i: int| b3 <= i < b4 implies #[trigger] is_ws_char(s[i]) by {
                assert(s[i] == r[i - pos]);
                assert(r[i - pos] == w2[i - b3]);
                assert(is_ws_char(w2[i - b3]));
            }
            assert(s[b4] == r[b4 - pos]);
            assert(r[b4 - pos] == rr[0]);
            lemma_ws_end_of_run(s, b3, b4);
            assert(op2_result(s, b1, '+', OpCode::Add, '-', OpCode::Sub) == Some(
                (b4, add_op_of(c)),
            ));
            assert(s.subrange(b4, end) =~= rr) by {
                assert forall|j: int| 0 <= j < rr.len() implies s.subrange(b4, end)[j] == rr[j] by {
                    assert(s.subrange(b4, end)[j] == s[b4 + j]);
                    assert(s[b4 + j] == r[b4 + j - pos]);
                    assert(r[b4 + j - pos] == rr[j]);
                }
            }
            lemma_add_complete(*rest, s, b4);
            assert(additive_result(s, pos) == Some((end, add_value(t))));
        },
    }
}

/// Every string generated by the grammar parses in full, to the tree its
/// derivation denotes: the entry point succeeds and leaves no residue.
pub proof fn lemma_parse_complete(t: AddTree, s: Seq<char>)
    requires
        add_wf(t),
        s == add_render(t),
    ensures
        parse_result(s) == Some(add_value(t)),
{
    assert(s.subrange(0, s.len() as int) =~= s);
    lemma_ws_end(s, s.len() as int);
    lemma_add_complete(t, s, 0);
}

} // verus!
