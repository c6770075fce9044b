use vstd::prelude::*;
use crate::error::TokenParseError;

verus! {

/// What a parser returns: the remaining input and an output, or an error.
pub type TokenParseResult<'a, T, O, W = T> = Result<(&'a [W], O), TokenParseError<T>>;

/// `rest` is a suffix of `tokens`.
pub open spec fn is_suffix<W>(rest: Seq<W>, tokens: Seq<W>) -> bool {
    rest.len() <= tokens.len() && rest == tokens.subrange(
        tokens.len() - rest.len(),
        tokens.len() as int,
    )
}

/// What holds of every result of every parser: a success leaves a suffix of
/// its input, and a failure never claims more tokens than it was given.
pub open spec fn well_formed_result<'a, T, O, W>(
    tokens: &'a [W],
    r: TokenParseResult<'a, T, O, W>,
) -> bool {
    match r {
        Ok((rest, _)) => is_suffix(rest@, tokens@),
        Err(e) => e.tokens_consumed <= tokens@.len(),
    }
}

/// A unit of parsing logic: from the remaining input to a remainder and an
/// output, or an error.
///
/// `parse_ensures(tokens, r)` says that `r` is a result this parser may give on
/// `tokens`; `wf` says that the parser may be called on any input. A call
/// takes the parser exclusively and leaves it as it was.
pub trait TokenParser<'a, T, O, W: 'a>: Sized {
    spec fn wf(&self) -> bool;

    spec fn parse_ensures(&self, tokens: &'a [W], r: TokenParseResult<'a, T, O, W>) -> bool;

    fn parse(&mut self, tokens: &'a [W]) -> (r: TokenParseResult<'a, T, O, W>)
        requires
            old(self).wf(),
        ensures
            *final(self) == *old(self),
            old(self).parse_ensures(tokens, r),
            well_formed_result(tokens, r),
    ;
}

/// Any function from the remaining input to a parse result is a parser.
///
/// Verified code cannot yet show `wf` of a closure or a function item through
/// this impl; it implements the trait on a type of its own instead.
impl<'a, T, O, W: 'a, F> TokenParser<'a, T, O, W> for F where
    F: Fn(&'a [W]) -> TokenParseResult<'a, T, O, W>,
 {
    open spec fn wf(&self) -> bool {
        &&& forall|s: &'a [W]| #[trigger] call_requires(*self, (s,))
        &&& forall|s: &'a [W], r: TokenParseResult<'a, T, O, W>|
            #[trigger] call_ensures(*self, (s,), r) ==> well_formed_result(s, r)
    }

    open spec fn parse_ensures(&self, tokens: &'a [W], r: TokenParseResult<'a, T, O, W>) -> bool {
        call_ensures(*self, (tokens,), r)
    }

    fn parse(&mut self, tokens: &'a [W]) -> (r: TokenParseResult<'a, T, O, W>) {
        (*self)(tokens)
    }
}

} // verus!

verus! {

/// A suffix of a suffix is a suffix.
pub proof fn lemma_suffix_trans<W>(a: Seq<W>, b: Seq<W>, c: Seq<W>)
    requires
        is_suffix(a, b),
        is_suffix(b, c),
    ensures
        is_suffix(a, c),
{
    assert(a =~= c.subrange(c.len() - a.len(), c.len() as int));
}

} // verus!
