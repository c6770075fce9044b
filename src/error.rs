use vstd::prelude::*;

verus! {

/// One reason why a parse attempt failed.
#[derive(Debug, PartialEq, Eq)]
pub enum TokenParseErrorKind<T> {
    /// A token of the described kind was required; `found` was present instead.
    Expects { expects: &'static str, found: T },
    /// The input ended before a required token.
    NotEnoughToken,
    /// A label naming the grammar rule that was being attempted.
    Context(&'static str),
}

/// A failed parse: the accumulated reasons, and how many tokens were consumed
/// before the fatal point.
#[derive(Debug, PartialEq, Eq)]
pub struct TokenParseError<T> {
    pub errors: Vec<TokenParseErrorKind<T>>,
    pub tokens_consumed: usize,
}

impl<T> TokenParseError<T> {
    /// The same reasons, with the consumption count replaced.
    pub fn with_tokens_consumed(self, tokens_consumed: usize) -> (r: Self)
        ensures
            r.errors == self.errors,
            r.tokens_consumed == tokens_consumed,
    {
        TokenParseError { errors: self.errors, tokens_consumed }
    }
}

} // verus!
