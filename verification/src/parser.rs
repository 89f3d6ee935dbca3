//! The parser capability: consume a prefix of the input, produce a value or
//! fail, with backtracking by position.
//!
//! The input is a sequence of characters together with a position; a parse
//! step never mutates the input, it only reports the position of the
//! remaining suffix. On failure the caller retries from the position it
//! started at, so no partial result leaks out of a failed branch.

use vstd::prelude::*;

verus! {

/// Outcome of running a parser at a position of the input.
///
/// `Success(next, v)` consumed the characters up to (excluding) `next` and
/// produced `v`; `Failure` consumed nothing, so the caller may retry another
/// alternative from the position it started at.
#[derive(Debug, PartialEq, Eq)]
pub enum ParseResult<V> {
    Success(usize, V),
    Failure,
}

/// A parser over a character sequence.
///
/// `result` is the mathematical meaning: the value and end position the
/// parser yields on a given input and start position, or `None` when it
/// fails. `parse` is the executable form, proved to agree with `result` on
/// every well-formed parser; on success the end position never moves
/// backwards and never passes the end of the input.
pub trait Parser where Self: Sized {
    type Output: DeepView;

    /// When the parser's contract holds (for example, repetition requires an
    /// inner parser that cannot succeed without consuming input).
    spec fn wf(&self) -> bool;

    /// The meaning of this parser: end position and value on success.
    spec fn result(&self, s: Seq<char>, pos: int) -> Option<(int, <Self::Output as DeepView>::V)>;

    fn parse(&self, s: &Vec<char>, pos: usize) -> (r: ParseResult<Self::Output>)
        requires
            self.wf(),
            pos <= s@.len(),
        ensures
            (match r {
                ParseResult::Success(next, v) => {
                    &&& pos <= next <= s@.len()
                    &&& self.result(s@, pos as int) == Some((next as int, v.deep_view()))
                },
                ParseResult::Failure => self.result(s@, pos as int) is None,
            }),
    ;
}

} // verus!
