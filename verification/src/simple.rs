//! Grammar-agnostic leaf parsers: single character, whitespace, literal
//! string match, and block comment.

use vstd::prelude::*;
use vstd::string::*;
use crate::parser::{Parser, ParseResult};
use crate::combinator::{
    Pred, Predicate, Many, Many1, Wrap, pred, many, some, wrap, progressive, many_end,
};

verus! {

/// A character with the Unicode `White_Space` property, the set that the
/// standard library's whitespace test recognises.
pub open spec fn is_ws_char(c: char) -> bool {
    let u = c as u32;
    (9 <= u && u <= 13) || u == 32 || u == 0x85 || u == 0xa0 || u == 0x1680 || (0x2000 <= u && u
        <= 0x200a) || u == 0x2028 || u == 0x2029 || u == 0x202f || u == 0x205f || u == 0x3000
}

/// Consumes exactly one character; fails only when no input remains.
pub struct AnyChar;

impl Parser for AnyChar {
    type Output = char;

    open spec fn wf(&self) -> bool {
        true
    }

    open spec fn result(&self, s: Seq<char>, pos: int) -> Option<(int, char)> {
        if 0 <= pos < s.len() {
            Some((pos + 1, s[pos]))
        } else {
            None
        }
    }

    fn parse(&self, s: &Vec<char>, pos: usize) -> (r: ParseResult<char>) {
        if pos < s.len() {
            ParseResult::Success(pos + 1, s[pos])
        } else {
            ParseResult::Failure
        }
    }
}

pub fn any_char() -> (r: AnyChar)
    ensures
        r == AnyChar,
{
    AnyChar
}

/// The whitespace test, as a predicate for filtering.
pub struct IsWs;

impl Predicate for IsWs {
    type Arg = char;

    open spec fn spec_test(&self, c: char) -> bool {
        is_ws_char(c)
    }

    fn test(&self, c: &char) -> (b: bool) {
        let u = *c as u32;
        (9 <= u && u <= 13) || u == 32 || u == 0x85 || u == 0xa0 || u == 0x1680 || (0x2000 <= u && u
            <= 0x200a) || u == 0x2028 || u == 0x2029 || u == 0x202f || u == 0x205f || u == 0x3000
    }
}

/// Consumes exactly one whitespace character.
pub fn ws_char() -> (r: Pred<AnyChar, IsWs>)
    ensures
        r == (Pred { p: AnyChar, f: IsWs }),
        r.wf(),
{
    pred(any_char(), IsWs)
}

/// The whitespace parser consumes one character whenever it succeeds.
pub proof fn lemma_ws_char_progressive()
    ensures
        progressive(Pred { p: AnyChar, f: IsWs }),
{
    let w = Pred { p: AnyChar, f: IsWs };
    assert forall|s: Seq<char>, pos: int| 0 <= pos <= s.len() implies (match #[trigger] w.result(
        s,
        pos,
    ) {
        Option::Some(r) => pos < r.0 <= s.len(),
        Option::None => true,
    }) by {}
}

/// End of the whitespace run that starts at `pos`.
pub open spec fn ws_end(s: Seq<char>, pos: int) -> int
    decreases s.len() - pos,
{
    if 0 <= pos < s.len() && is_ws_char(s[pos]) {
        ws_end(s, pos + 1)
    } else {
        pos
    }
}

pub proof fn lemma_ws_end(s: Seq<char>, pos: int)
    requires
        0 <= pos <= s.len(),
    ensures
        pos <= ws_end(s, pos) <= s.len(),
        ws_end(s, pos) < s.len() ==> !is_ws_char(s[ws_end(s, pos)]),
        forall|i: int| pos <= i < ws_end(s, pos) ==> #[trigger] is_ws_char(s[i]),
    decreases s.len() - pos,
{
    if 0 <= pos < s.len() && is_ws_char(s[pos]) {
        lemma_ws_end(s, pos + 1);
    }
}

/// A whitespace run stops exactly at the first non-whitespace character.
pub proof fn lemma_ws_end_of_run(s: Seq<char>, pos: int, stop: int)
    requires
        0 <= pos <= stop <= s.len(),
        forall|i: int| pos <= i < stop ==> #[trigger] is_ws_char(s[i]),
        stop == s.len() || !is_ws_char(s[stop]),
    ensures
        ws_end(s, pos) == stop,
    decreases stop - pos,
{
    if pos < stop {
        assert(is_ws_char(s[pos]));
        lemma_ws_end_of_run(s, pos + 1, stop);
    }
}

/// Zero-or-more whitespace stops exactly at the end of the whitespace run.
pub proof fn lemma_space0_end(s: Seq<char>, pos: int)
    requires
        0 <= pos <= s.len(),
    ensures
        many_end(Pred { p: AnyChar, f: IsWs }, s, pos) == ws_end(s, pos),
    decreases s.len() - pos,
{
    let w = Pred { p: AnyChar, f: IsWs };
    if 0 <= pos < s.len() && is_ws_char(s[pos]) {
        assert(w.result(s, pos) == Some((pos + 1, s[pos])));
        lemma_space0_end(s, pos + 1);
    }
}

/// On input that does not begin with whitespace (the end of input
/// included), zero-or-more whitespace succeeds immediately with an empty
/// sequence and the position unchanged, while one-or-more whitespace
/// fails, leaving the input unchanged.
pub proof fn lemma_ws_repetition_on_non_ws(s: Seq<char>, pos: int)
    requires
        0 <= pos <= s.len(),
        pos == s.len() || !is_ws_char(s[pos]),
    ensures
        (Many { p: Pred { p: AnyChar, f: IsWs } }).result(s, pos) == Some(
            (pos, Seq::<char>::empty()),
        ),
        (Many1 { p: Pred { p: AnyChar, f: IsWs } }).result(s, pos) is None,
{
    let w = Pred { p: AnyChar, f: IsWs };
    assert(w.result(s, pos) is None);
}

/// Zero or more whitespace characters; never fails.
pub fn space0() -> (r: Many<Pred<AnyChar, IsWs>>)
    ensures
        r == (Many { p: Pred { p: AnyChar, f: IsWs } }),
        r.wf(),
{
    let r = many(ws_char());
    proof {
        lemma_ws_char_progressive();
    }
    r
}

/// One or more whitespace characters; fails, consuming nothing, when the
/// input does not begin with whitespace.
pub fn space1() -> (r: Many1<Pred<AnyChar, IsWs>>)
    ensures
        r == (Many1 { p: Pred { p: AnyChar, f: IsWs } }),
        r.wf(),
{
    let r = some(ws_char());
    proof {
        lemma_ws_char_progressive();
    }
    r
}

/// The inner parser surrounded by optional whitespace on both sides.
pub fn wrap_space0<P: Parser>(p: P) -> (r: Wrap<
    Many<Pred<AnyChar, IsWs>>,
    P,
    Many<Pred<AnyChar, IsWs>>,
>)
    ensures
        r == (Wrap {
            lp: Many { p: Pred { p: AnyChar, f: IsWs } },
            p,
            rp: Many { p: Pred { p: AnyChar, f: IsWs } },
        }),
        p.wf() ==> r.wf(),
{
    let r = wrap(space0(), p, space0());
    r
}

/// Copies the characters of a string into a vector, preserving order.
pub fn chars_vec(text: &str) -> (v: Vec<char>)
    ensures
        v@ == text@,
{
    let n = text.unicode_len();
    let mut v: Vec<char> = Vec::new();
    let mut i: usize = 0;
    while i < n
        invariant
            i <= n,
            n == text@.len(),
            v@ == text@.subrange(0, i as int),
        decreases n - i,
    {
        let c = text.get_char(i);
        v.push(c);
        proof {
            assert(v@ =~= text@.subrange(0, i + 1));
        }
        i += 1;
    }
    proof {
        assert(text@.subrange(0, n as int) =~= text@);
    }
    v
}

/// Matches exactly the expected character sequence, consuming its length.
pub struct Literal {
    pub expected: Vec<char>,
}

impl Parser for Literal {
    type Output = ();

    open spec fn wf(&self) -> bool {
        true
    }

    open spec fn result(&self, s: Seq<char>, pos: int) -> Option<(int, ())> {
        if 0 <= pos && pos + self.expected@.len() <= s.len() && s.subrange(
            pos,
            pos + self.expected@.len(),
        ) == self.expected@ {
            Some((pos + self.expected@.len() as int, ()))
        } else {
            None
        }
    }

    fn parse(&self, s: &Vec<char>, pos: usize) -> (r: ParseResult<()>) {
        let n = self.expected.len();
        if n > s.len() - pos {
            return ParseResult::Failure;
        }
        let mut j: usize = 0;
        while j < n
            invariant
                pos + n <= s@.len(),
                s@.len() <= usize::MAX,
                j <= n,
                n == self.expected@.len(),
                forall|k: int| 0 <= k < j ==> s@[pos + k] == self.expected@[k],
            decreases n - j,
        {
            if s[pos + j] != self.expected[j] {
                proof {
                    assert(s@.subrange(pos as int, pos + n as int)[j as int] == s@[pos + j]);
                    assert(s@.subrange(pos as int, pos + n as int) != self.expected@);
                }
                return ParseResult::Failure;
            }
            j += 1;
        }
        proof {
            assert(s@.subrange(pos as int, pos + n as int) =~= self.expected@);
        }
        ParseResult::Success(pos + n, ())
    }
}

/// Builds a literal matcher from the expected text.
pub fn literal(expected: &str) -> (r: Literal)
    ensures
        r.expected@ == expected@,
        r.wf(),
{
    Literal { expected: chars_vec(expected) }
}

/// First position after a closing marker `*/` found at or after `from`.
pub open spec fn comment_close(s: Seq<char>, from: int) -> Option<int>
    decreases s.len() - from,
{
    if from < 0 || from + 2 > s.len() {
        None
    } else if s[from] == '*' && s[from + 1] == '/' {
        Some(from + 2)
    } else {
        comment_close(s, from + 1)
    }
}

pub proof fn lemma_comment_close(s: Seq<char>, from: int)
    requires
        0 <= from <= s.len(),
    ensures
        (match comment_close(s, from) {
            Option::Some(end) => from + 2 <= end <= s.len(),
            Option::None => true,
        }),
    decreases s.len() - from,
{
    if 0 <= from && from + 2 <= s.len() && !(s[from] == '*' && s[from + 1] == '/') {
        lemma_comment_close(s, from + 1);
    }
}

/// A block comment delimited by `/*` and `*/`, matched non-greedily: the
/// body runs to the first closing marker.
pub struct Comment;

impl Parser for Comment {
    type Output = ();

    open spec fn wf(&self) -> bool {
        true
    }

    open spec fn result(&self, s: Seq<char>, pos: int) -> Option<(int, ())> {
        if 0 <= pos && pos + 2 <= s.len() && s[pos] == '/' && s[pos + 1] == '*' {
            match comment_close(s, pos + 2) {
                Option::Some(end) => Some((end, ())),
                Option::None => None,
            }
        } else {
            None
        }
    }

    fn parse(&self, s: &Vec<char>, pos: usize) -> (r: ParseResult<()>) {
        if s.len() - pos < 2 {
            return ParseResult::Failure;
        }
        if s[pos] != '/' || s[pos + 1] != '*' {
            return ParseResult::Failure;
        }
        let mut j: usize = pos + 2;
        proof {
            lemma_comment_close(s@, pos + 2);
        }
        while j <= s.len() - 2
            invariant
                pos + 2 <= j <= s@.len(),
                s@.len() <= usize::MAX,
                s@[pos as int] == '/',
                s@[pos + 1] == '*',
                comment_close(s@, pos + 2) == comment_close(s@, j as int),
            decreases s@.len() - j,
        {
            if s[j] == '*' && s[j + 1] == '/' {
                proof {
                    lemma_comment_close(s@, pos + 2);
                }
                return ParseResult::Success(j + 2, ());
            }
            j += 1;
        }
        ParseResult::Failure
    }
}

pub fn comment() -> (r: Comment)
    ensures
        r == Comment,
{
    Comment
}

} // verus!
