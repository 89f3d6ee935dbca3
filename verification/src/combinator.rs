//! Generic, grammar-agnostic combinators: each takes one or more parsers and
//! returns a new parser, with a contract that pins down the result in terms
//! of the inner parsers' meanings.

use vstd::prelude::*;
use crate::parser::{Parser, ParseResult};

verus! {

/// Sequencing: runs the first parser, then the second on the remaining
/// input; fails if either fails, otherwise yields the pair of results.
pub struct Concat<P1, P2> {
    pub p1: P1,
    pub p2: P2,
}

impl<P1: Parser, P2: Parser> Parser for Concat<P1, P2> {
    type Output = (P1::Output, P2::Output);

    open spec fn wf(&self) -> bool {
        self.p1.wf() && self.p2.wf()
    }

    open spec fn result(&self, s: Seq<char>, pos: int) -> Option<
        (int, (<P1::Output as DeepView>::V, <P2::Output as DeepView>::V)),
    > {
        match self.p1.result(s, pos) {
            Option::None => None,
            Option::Some((mid, v1)) => match self.p2.result(s, mid) {
                Option::None => None,
                Option::Some((end, v2)) => Some((end, (v1, v2))),
            },
        }
    }

    fn parse(&self, s: &Vec<char>, pos: usize) -> (r: ParseResult<(P1::Output, P2::Output)>) {
        match self.p1.parse(s, pos) {
            ParseResult::Success(mid, v1) => match self.p2.parse(s, mid) {
                ParseResult::Success(end, v2) => ParseResult::Success(end, (v1, v2)),
                ParseResult::Failure => ParseResult::Failure,
            },
            ParseResult::Failure => ParseResult::Failure,
        }
    }
}

pub fn concat<P1: Parser, P2: Parser>(p1: P1, p2: P2) -> (r: Concat<P1, P2>)
    ensures
        r == (Concat { p1, p2 }),
{
    Concat { p1, p2 }
}

/// Ordered choice: tries the first parser; only if it fails, tries the
/// second on the same original input. The first success wins.
pub struct Alter<P1, P2> {
    pub p1: P1,
    pub p2: P2,
}

impl<R: DeepView, P1: Parser<Output = R>, P2: Parser<Output = R>> Parser for Alter<P1, P2> {
    type Output = R;

    open spec fn wf(&self) -> bool {
        self.p1.wf() && self.p2.wf()
    }

    open spec fn result(&self, s: Seq<char>, pos: int) -> Option<(int, <R as DeepView>::V)> {
        match self.p1.result(s, pos) {
            Option::Some(r) => Some(r),
            Option::None => self.p2.result(s, pos),
        }
    }

    fn parse(&self, s: &Vec<char>, pos: usize) -> (r: ParseResult<R>) {
        match self.p1.parse(s, pos) {
            ParseResult::Success(next, v) => ParseResult::Success(next, v),
            ParseResult::Failure => self.p2.parse(s, pos),
        }
    }
}

pub fn alter<R: DeepView, P1: Parser<Output = R>, P2: Parser<Output = R>>(p1: P1, p2: P2) -> (r:
    Alter<P1, P2>)
    ensures
        r == (Alter { p1, p2 }),
{
    Alter { p1, p2 }
}

/// Optional: tries the inner parser once; on failure succeeds with `None`
/// and the original, unconsumed input, so the inner failure never
/// propagates.
pub struct Opt<P> {
    pub p: P,
}

impl<P: Parser> Parser for Opt<P> {
    type Output = Option<P::Output>;

    open spec fn wf(&self) -> bool {
        self.p.wf()
    }

    open spec fn result(&self, s: Seq<char>, pos: int) -> Option<
        (int, Option<<P::Output as DeepView>::V>),
    > {
        match self.p.result(s, pos) {
            Option::Some((next, v)) => Some((next, Some(v))),
            Option::None => Some((pos, None)),
        }
    }

    fn parse(&self, s: &Vec<char>, pos: usize) -> (r: ParseResult<Option<P::Output>>) {
        match self.p.parse(s, pos) {
            ParseResult::Success(next, v) => ParseResult::Success(next, Some(v)),
            ParseResult::Failure => ParseResult::Success(pos, None),
        }
    }
}

pub fn opt<P: Parser>(p: P) -> (r: Opt<P>)
    ensures
        r == (Opt { p }),
{
    Opt { p }
}

/// A pure transformation applied to a parsed value, with a specification
/// form used in contracts.
pub trait MapFn where Self: Sized {
    type Arg: DeepView;

    type Out: DeepView;

    spec fn spec_apply(&self, v: <Self::Arg as DeepView>::V) -> <Self::Out as DeepView>::V;

    fn apply(&self, v: Self::Arg) -> (r: Self::Out)
        ensures
            r.deep_view() == self.spec_apply(v.deep_view()),
    ;
}

/// Mapping: transforms a successful value with a pure function; failures
/// pass through unchanged.
pub struct Mapped<P, F> {
    pub p: P,
    pub f: F,
}

impl<P: Parser, F: MapFn<Arg = P::Output>> Parser for Mapped<P, F> {
    type Output = F::Out;

    open spec fn wf(&self) -> bool {
        self.p.wf()
    }

    open spec fn result(&self, s: Seq<char>, pos: int) -> Option<(int, <F::Out as DeepView>::V)> {
        match self.p.result(s, pos) {
            Option::Some((next, v)) => Some((next, self.f.spec_apply(v))),
            Option::None => None,
        }
    }

    fn parse(&self, s: &Vec<char>, pos: usize) -> (r: ParseResult<F::Out>) {
        match self.p.parse(s, pos) {
            ParseResult::Success(next, v) => ParseResult::Success(next, self.f.apply(v)),
            ParseResult::Failure => ParseResult::Failure,
        }
    }
}

pub fn map<P: Parser, F: MapFn<Arg = P::Output>>(p: P, f: F) -> (r: Mapped<P, F>)
    ensures
        r == (Mapped { p, f }),
{
    Mapped { p, f }
}

/// Sequencing that keeps only the first component of the pair.
pub struct Left<P1, P2> {
    pub p1: P1,
    pub p2: P2,
}

impl<P1: Parser, P2: Parser> Parser for Left<P1, P2> {
    type Output = P1::Output;

    open spec fn wf(&self) -> bool {
        self.p1.wf() && self.p2.wf()
    }

    open spec fn result(&self, s: Seq<char>, pos: int) -> Option<
        (int, <P1::Output as DeepView>::V),
    > {
        match self.p1.result(s, pos) {
            Option::None => None,
            Option::Some((mid, v1)) => match self.p2.result(s, mid) {
                Option::None => None,
                Option::Some((end, _v2)) => Some((end, v1)),
            },
        }
    }

    fn parse(&self, s: &Vec<char>, pos: usize) -> (r: ParseResult<P1::Output>) {
        match self.p1.parse(s, pos) {
            ParseResult::Success(mid, v1) => match self.p2.parse(s, mid) {
                ParseResult::Success(end, _v2) => ParseResult::Success(end, v1),
                ParseResult::Failure => ParseResult::Failure,
            },
            ParseResult::Failure => ParseResult::Failure,
        }
    }
}

pub fn left<P1: Parser, P2: Parser>(p1: P1, p2: P2) -> (r: Left<P1, P2>)
    ensures
        r == (Left { p1, p2 }),
{
    Left { p1, p2 }
}

/// Sequencing that keeps only the second component of the pair.
pub struct Right<P1, P2> {
    pub p1: P1,
    pub p2: P2,
}

impl<P1: Parser, P2: Parser> Parser for Right<P1, P2> {
    type Output = P2::Output;

    open spec fn wf(&self) -> bool {
        self.p1.wf() && self.p2.wf()
    }

    open spec fn result(&self, s: Seq<char>, pos: int) -> Option<
        (int, <P2::Output as DeepView>::V),
    > {
        match self.p1.result(s, pos) {
            Option::None => None,
            Option::Some((mid, _v1)) => match self.p2.result(s, mid) {
                Option::None => None,
                Option::Some((end, v2)) => Some((end, v2)),
            },
        }
    }

    fn parse(&self, s: &Vec<char>, pos: usize) -> (r: ParseResult<P2::Output>) {
        match self.p1.parse(s, pos) {
            ParseResult::Success(mid, _v1) => match self.p2.parse(s, mid) {
                ParseResult::Success(end, v2) => ParseResult::Success(end, v2),
                ParseResult::Failure => ParseResult::Failure,
            },
            ParseResult::Failure => ParseResult::Failure,
        }
    }
}

pub fn right<P1: Parser, P2: Parser>(p1: P1, p2: P2) -> (r: Right<P1, P2>)
    ensures
        r == (Right { p1, p2 }),
{
    Right { p1, p2 }
}

/// Delimiters: parses `lp`, then `p`, then `rp`, keeping only `p`'s value.
/// Used for parenthesisation.
pub struct Wrap<LP, P, RP> {
    pub lp: LP,
    pub p: P,
    pub rp: RP,
}

impl<LP: Parser, P: Parser, RP: Parser> Parser for Wrap<LP, P, RP> {
    type Output = P::Output;

    open spec fn wf(&self) -> bool {
        self.lp.wf() && self.p.wf() && self.rp.wf()
    }

    open spec fn result(&self, s: Seq<char>, pos: int) -> Option<
        (int, <P::Output as DeepView>::V),
    > {
        match self.lp.result(s, pos) {
            Option::None => None,
            Option::Some((p1, _d1)) => match self.p.result(s, p1) {
                Option::None => None,
                Option::Some((p2, v)) => match self.rp.result(s, p2) {
                    Option::None => None,
                    Option::Some((end, _d2)) => Some((end, v)),
                },
            },
        }
    }

    fn parse(&self, s: &Vec<char>, pos: usize) -> (r: ParseResult<P::Output>) {
        match self.lp.parse(s, pos) {
            ParseResult::Success(p1, _d1) => match self.p.parse(s, p1) {
                ParseResult::Success(p2, v) => match self.rp.parse(s, p2) {
                    ParseResult::Success(end, _d2) => ParseResult::Success(end, v),
                    ParseResult::Failure => ParseResult::Failure,
                },
                ParseResult::Failure => ParseResult::Failure,
            },
            ParseResult::Failure => ParseResult::Failure,
        }
    }
}

pub fn wrap<LP: Parser, P: Parser, RP: Parser>(lp: LP, p: P, rp: RP) -> (r: Wrap<LP, P, RP>)
    ensures
        r == (Wrap { lp, p, rp }),
{
    Wrap { lp, p, rp }
}

/// A test on a parsed value, with a specification form used in contracts.
pub trait Predicate where Self: Sized {
    type Arg: DeepView;

    spec fn spec_test(&self, v: <Self::Arg as DeepView>::V) -> bool;

    fn test(&self, v: &Self::Arg) -> (b: bool)
        ensures
            b == self.spec_test(v.deep_view()),
    ;
}

/// Filtering: succeeds only when the inner parser's value satisfies the
/// predicate; otherwise fails as if the inner parser had not run, so no
/// partial consumption leaks through a predicate failure.
pub struct Pred<P, F> {
    pub p: P,
    pub f: F,
}

impl<P: Parser, F: Predicate<Arg = P::Output>> Parser for Pred<P, F> {
    type Output = P::Output;

    open spec fn wf(&self) -> bool {
        self.p.wf()
    }

    open spec fn result(&self, s: Seq<char>, pos: int) -> Option<
        (int, <P::Output as DeepView>::V),
    > {
        match self.p.result(s, pos) {
            Option::Some((next, v)) => if self.f.spec_test(v) {
                Some((next, v))
            } else {
                None
            },
            Option::None => None,
        }
    }

    fn parse(&self, s: &Vec<char>, pos: usize) -> (r: ParseResult<P::Output>) {
        match self.p.parse(s, pos) {
            ParseResult::Success(next, v) => {
                if self.f.test(&v) {
                    ParseResult::Success(next, v)
                } else {
                    ParseResult::Failure
                }
            },
            ParseResult::Failure => ParseResult::Failure,
        }
    }
}

pub fn pred<P: Parser, F: Predicate<Arg = P::Output>>(p: P, f: F) -> (r: Pred<P, F>)
    ensures
        r == (Pred { p, f }),
{
    Pred { p, f }
}

/// Full consumption: succeeds only if, after the inner parser succeeds, no
/// input remains; otherwise fails even though a prefix matched.
pub struct All<P> {
    pub p: P,
}

impl<P: Parser> Parser for All<P> {
    type Output = P::Output;

    open spec fn wf(&self) -> bool {
        self.p.wf()
    }

    open spec fn result(&self, s: Seq<char>, pos: int) -> Option<
        (int, <P::Output as DeepView>::V),
    > {
        match self.p.result(s, pos) {
            Option::Some((next, v)) => if next == s.len() {
                Some((next, v))
            } else {
                None
            },
            Option::None => None,
        }
    }

    fn parse(&self, s: &Vec<char>, pos: usize) -> (r: ParseResult<P::Output>) {
        match self.p.parse(s, pos) {
            ParseResult::Success(next, v) => {
                if next == s.len() {
                    ParseResult::Success(next, v)
                } else {
                    ParseResult::Failure
                }
            },
            ParseResult::Failure => ParseResult::Failure,
        }
    }
}

pub fn all<P: Parser>(p: P) -> (r: All<P>)
    ensures
        r == (All { p }),
{
    All { p }
}

/// Holds when the parser can only succeed by consuming at least one
/// character. Repetition requires this: an inner parser that succeeds while
/// consuming nothing would repeat forever.
pub open spec fn progressive<P: Parser>(p: P) -> bool {
    forall|s: Seq<char>, pos: int|
        0 <= pos <= s.len() ==> (match #[trigger] p.result(s, pos) {
            Option::Some(r) => pos < r.0 <= s.len(),
            Option::None => true,
        })
}

/// End position after repeating `p` from `pos` until it fails.
///
/// The bound check mirrors the contract of repetition: a success that does
/// not consume input stops the repetition here, while under [`progressive`]
/// that case never arises.
pub open spec fn many_end<P: Parser>(p: P, s: Seq<char>, pos: int) -> int
    decreases s.len() - pos,
{
    match p.result(s, pos) {
        Option::Some((next, _v)) => if pos < next <= s.len() {
            many_end(p, s, next)
        } else {
            pos
        },
        Option::None => pos,
    }
}

/// The values collected by repeating `p` from `pos` until it fails, in
/// order.
pub open spec fn many_values<P: Parser>(p: P, s: Seq<char>, pos: int) -> Seq<
    <P::Output as DeepView>::V,
>
    decreases s.len() - pos,
{
    match p.result(s, pos) {
        Option::Some((next, v)) => if pos < next <= s.len() {
            seq![v] + many_values(p, s, next)
        } else {
            Seq::empty()
        },
        Option::None => Seq::empty(),
    }
}

/// Repetition, zero or more times: repeats the inner parser until it fails
/// and collects the values in order; never fails itself.
pub struct Many<P> {
    pub p: P,
}

impl<P: Parser> Parser for Many<P> {
    type Output = Vec<P::Output>;

    open spec fn wf(&self) -> bool {
        self.p.wf() && progressive(self.p)
    }

    open spec fn result(&self, s: Seq<char>, pos: int) -> Option<
        (int, Seq<<P::Output as DeepView>::V>),
    > {
        Some((many_end(self.p, s, pos), many_values(self.p, s, pos)))
    }

    fn parse(&self, s: &Vec<char>, pos: usize) -> (r: ParseResult<Vec<P::Output>>) {
        let mut acc: Vec<P::Output> = Vec::new();
        let mut cur: usize = pos;
        loop
            invariant
                self.wf(),
                pos <= cur <= s@.len(),
                many_end(self.p, s@, pos as int) == many_end(self.p, s@, cur as int),
                many_values(self.p, s@, pos as int) == acc.deep_view() + many_values(
                    self.p,
                    s@,
                    cur as int,
                ),
            decreases s@.len() - cur,
        {
            match self.p.parse(s, cur) {
                ParseResult::Success(next, v) => {
                    proof {
                        assert(cur < next);  // from progressive
                        assert(many_values(self.p, s@, cur as int) == seq![v.deep_view()]
                            + many_values(self.p, s@, next as int));
                    }
                    let ghost prev = acc.deep_view();
                    let ghost vv = v.deep_view();
                    acc.push(v);
                    proof {
                        assert(acc.deep_view() =~= prev.push(vv));
                        assert(prev + (seq![vv] + many_values(self.p, s@, next as int))
                            =~= acc.deep_view() + many_values(self.p, s@, next as int));
                    }
                    cur = next;
                },
                ParseResult::Failure => {
                    proof {
                        assert(many_values(self.p, s@, cur as int) =~= Seq::empty());
                        assert(many_values(self.p, s@, pos as int) =~= acc.deep_view());
                    }
                    return ParseResult::Success(cur, acc);
                },
            }
        }
    }
}

pub fn many<P: Parser>(p: P) -> (r: Many<P>)
    ensures
        r == (Many { p }),
{
    Many { p }
}

/// Repetition, one or more times: like zero-or-more repetition but fails,
/// consuming nothing, when the very first attempt fails.
pub struct Many1<P> {
    pub p: P,
}

impl<P: Parser> Parser for Many1<P> {
    type Output = Vec<P::Output>;

    open spec fn wf(&self) -> bool {
        self.p.wf() && progressive(self.p)
    }

    open spec fn result(&self, s: Seq<char>, pos: int) -> Option<
        (int, Seq<<P::Output as DeepView>::V>),
    > {
        match self.p.result(s, pos) {
            Option::Some(_) => Some((many_end(self.p, s, pos), many_values(self.p, s, pos))),
            Option::None => None,
        }
    }

    fn parse(&self, s: &Vec<char>, pos: usize) -> (r: ParseResult<Vec<P::Output>>) {
        let first = match self.p.parse(s, pos) {
            ParseResult::Success(next, v) => (next, v),
            ParseResult::Failure => {
                return ParseResult::Failure;
            },
        };
        let (next0, v0) = first;
        proof {
            assert(pos < next0);  // from progressive
            assert(many_values(self.p, s@, pos as int) == seq![v0.deep_view()] + many_values(
                self.p,
                s@,
                next0 as int,
            ));
        }
        let ghost first_value = v0.deep_view();
        let mut acc: Vec<P::Output> = Vec::new();
        acc.push(v0);
        proof {
            assert(acc.deep_view() =~= seq![first_value]);
        }
        let mut cur: usize = next0;
        loop
            invariant
                self.wf(),
                pos <= cur <= s@.len(),
                many_end(self.p, s@, pos as int) == many_end(self.p, s@, cur as int),
                many_values(self.p, s@, pos as int) == acc.deep_view() + many_values(
                    self.p,
                    s@,
                    cur as int,
                ),
                self.p.result(s@, pos as int) is Some,
            decreases s@.len() - cur,
        {
            match self.p.parse(s, cur) {
                ParseResult::Success(next, v) => {
                    proof {
                        assert(cur < next);  // from progressive
                        assert(many_values(self.p, s@, cur as int) == seq![v.deep_view()]
                            + many_values(self.p, s@, next as int));
                    }
                    let ghost prev = acc.deep_view();
                    let ghost vv = v.deep_view();
                    acc.push(v);
                    proof {
                        assert(acc.deep_view() =~= prev.push(vv));
                        assert(prev + (seq![vv] + many_values(self.p, s@, next as int))
                            =~= acc.deep_view() + many_values(self.p, s@, next as int));
                    }
                    cur = next;
                },
                ParseResult::Failure => {
                    proof {
                        assert(many_values(self.p, s@, cur as int) =~= Seq::empty());
                        assert(many_values(self.p, s@, pos as int) =~= acc.deep_view());
                    }
                    return ParseResult::Success(cur, acc);
                },
            }
        }
    }
}

pub fn some<P: Parser>(p: P) -> (r: Many1<P>)
    ensures
        r == (Many1 { p }),
{
    Many1 { p }
}

} // verus!
