//! What it means for a parser to have done what the grammar says.
//!
//! The grammar is a family of spec functions from a token list to either a
//! model of the construct together with the tokens left over, or an error.
//! A parser meets it when its result has that model, that remainder and that
//! error.

use crate::error::{ParseError, ParseErrorModel};
use crate::text::token_size;
use vstd::prelude::*;

verus! {

/// The result `r` of a parser is the result `want` that the grammar gives.
pub open spec fn parsed<T: View>(
    r: Result<(Box<T>, &[&str]), ParseError>,
    want: Result<(T::V, Seq<Seq<char>>), ParseErrorModel>,
) -> bool {
    match r {
        Ok((node, rest)) => match want {
            Ok((model, tokens)) => node@ == model && rest.deep_view() == tokens,
            Err(_) => false,
        },
        Err(e) => match want {
            Ok(_) => false,
            Err(model) => e@ == model,
        },
    }
}

/// A unit of the grammar: it tells whether a token is its leading token, and
/// it reads itself from the front of a token list, handing back what it
/// built and the tokens it left.
pub trait Parsable: View + Sized {
    /// The leading tokens of the unit.
    spec fn leading(value: Seq<char>) -> bool;

    /// What the grammar gives for a token list: the model of the unit and
    /// the tokens left over, or an error.
    spec fn grammar(tokens: Seq<Seq<char>>) -> Result<(Self::V, Seq<Seq<char>>), ParseErrorModel>;

    /// Looks at one token and takes none.
    fn matches(value: &str) -> (b: bool)
        ensures
            b == Self::leading(value@),
    ;

    /// Reads the unit from the front of `parts`.
    fn parse<'a>(parts: &'a [&'a str]) -> (r: Result<(Box<Self>, &'a [&'a str]), ParseError>)
        ensures
            parsed(r, Self::grammar(parts.deep_view())),
    ;
}

/// `rest` is what is left of `ts` after one token or more was taken from
/// its front: no token is skipped, repeated or lost.
pub open spec fn consumed_prefix(ts: Seq<Seq<char>>, rest: Seq<Seq<char>>) -> bool {
    &&& rest.len() < ts.len()
    &&& rest == ts.skip(ts.len() - rest.len())
}

/// Taking tokens from the front twice is taking tokens from the front.
pub proof fn lemma_consumed_transitive(a: Seq<Seq<char>>, b: Seq<Seq<char>>, c: Seq<Seq<char>>)
    requires
        consumed_prefix(a, b) || a == b,
        consumed_prefix(b, c),
    ensures
        consumed_prefix(a, c),
{
    if a != b {
        assert(c =~= a.skip(a.len() - c.len()));
    }
}

/// Dropping `k` tokens from the front, one at least, leaves a smaller list.
pub proof fn lemma_consumed_skip(ts: Seq<Seq<char>>, k: int)
    requires
        1 <= k <= ts.len(),
    ensures
        consumed_prefix(ts, ts.skip(k)),
        token_size(ts.skip(k)) < token_size(ts),
{
    assert(ts.skip(k) =~= ts.skip(ts.len() - ts.skip(k).len()));
    crate::text::lemma_token_size_split(ts, k);
    crate::text::lemma_token_size_split(ts.take(k), k - 1);
    assert(ts.take(k).skip(k - 1) =~= seq![ts[k - 1]]);
    crate::text::lemma_token_size_one(ts[k - 1]);
}

/// What is left after tokens were taken from the front is smaller.
pub proof fn lemma_consumed_smaller(ts: Seq<Seq<char>>, rest: Seq<Seq<char>>)
    requires
        consumed_prefix(ts, rest),
    ensures
        token_size(rest) < token_size(ts),
{
    lemma_consumed_skip(ts, ts.len() - rest.len());
}

} // verus!
