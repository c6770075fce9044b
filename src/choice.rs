use vstd::prelude::*;
use crate::error::TokenParseError;
use crate::parser::{TokenParseResult, TokenParser};

verus! {

/// Parser built by [`alt`]: a tuple of parsers tried in order.
pub struct Alt<PS> {
    pub parsers: PS,
}

/// Tries each parser of the tuple `parsers` in order and returns the first
/// success; when all fail, reports the failure that consumed the most tokens.
pub fn alt<PS>(parsers: PS) -> (r: Alt<PS>)
    ensures
        r.parsers == parsers,
{
    Alt { parsers }
}

/// Of two failures, the one that consumed more tokens; the first on a tie.
pub open spec fn furthest<T>(a: TokenParseError<T>, b: TokenParseError<T>) -> TokenParseError<T> {
    if b.tokens_consumed > a.tokens_consumed {
        b
    } else {
        a
    }
}

fn pick_furthest<T>(a: TokenParseError<T>, b: TokenParseError<T>) -> (r: TokenParseError<T>)
    ensures
        r == furthest(a, b),
{
    if b.tokens_consumed > a.tokens_consumed {
        b
    } else {
        a
    }
}

/// `p` may fail on `tokens`.
pub open spec fn fails<'a, T, O, W: 'a, P: TokenParser<'a, T, O, W>>(p: P, tokens: &'a [W]) -> bool {
    exists|e: TokenParseError<T>| p.parse_ensures(tokens, Err(e))
}

impl<'a, T, O, W: 'a, A, B> TokenParser<'a, T, O, W> for Alt<(A, B)> where
    A: TokenParser<'a, T, O, W>,
    B: TokenParser<'a, T, O, W>,
 {
    open spec fn wf(&self) -> bool {
        self.parsers.0.wf() && self.parsers.1.wf()
    }

    open spec fn parse_ensures(&self, tokens: &'a [W], r: TokenParseResult<'a, T, O, W>) -> bool {
        match r {
            Ok(step) => {
                ||| self.parsers.0.parse_ensures(tokens, Ok(step))
                ||| fails::<T, O, W, A>(self.parsers.0, tokens) && self.parsers.1.parse_ensures(
                    tokens,
                    Ok(step),
                )
            },
            Err(e) => exists|ea: TokenParseError<T>, eb: TokenParseError<T>|
                self.parsers.0.parse_ensures(tokens, Err(ea)) && self.parsers.1.parse_ensures(
                    tokens,
                    Err(eb),
                ) && e == furthest(ea, eb),
        }
    }

    fn parse(&mut self, tokens: &'a [W]) -> (r: TokenParseResult<'a, T, O, W>) {
        let ea = match self.parsers.0.parse(tokens) {
            Ok(step) => {
                return Ok(step);
            },
            Err(e) => e,
        };
        assert(fails::<T, O, W, A>(self.parsers.0, tokens));
        let eb = match self.parsers.1.parse(tokens) {
            Ok(step) => {
                return Ok(step);
            },
            Err(e) => e,
        };
        let ghost (ga, gb) = (ea, eb);
        let e = pick_furthest(ea, eb);
        assert(exists|xa: TokenParseError<T>, xb: TokenParseError<T>|
            self.parsers.0.parse_ensures(tokens, Err(xa)) && self.parsers.1.parse_ensures(tokens, Err(xb))
                && e == furthest(xa, xb)) by {
            assert(self.parsers.0.parse_ensures(tokens, Err(ga)) && self.parsers.1.parse_ensures(
                tokens,
                Err(gb),
            ) && e == furthest(ga, gb));
        }
        let r = Err(e);
        assert(r matches Err(x) && x == e);
        assert(self.parse_ensures(tokens, r));
        r
    }
}

impl<'a, T, O, W: 'a, A, B, C> TokenParser<'a, T, O, W> for Alt<(A, B, C)> where
    A: TokenParser<'a, T, O, W>,
    B: TokenParser<'a, T, O, W>,
    C: TokenParser<'a, T, O, W>,
 {
    open spec fn wf(&self) -> bool {
        self.parsers.0.wf() && self.parsers.1.wf() && self.parsers.2.wf()
    }

    open spec fn parse_ensures(&self, tokens: &'a [W], r: TokenParseResult<'a, T, O, W>) -> bool {
        match r {
            Ok(step) => {
                ||| self.parsers.0.parse_ensures(tokens, Ok(step))
                ||| fails::<T, O, W, A>(self.parsers.0, tokens) && self.parsers.1.parse_ensures(
                    tokens,
                    Ok(step),
                )
                ||| fails::<T, O, W, A>(self.parsers.0, tokens) && fails::<T, O, W, B>(
                    self.parsers.1,
                    tokens,
                ) && self.parsers.2.parse_ensures(tokens, Ok(step))
            },
            Err(e) => exists|ea: TokenParseError<T>, eb: TokenParseError<T>, ec: TokenParseError<T>|
                self.parsers.0.parse_ensures(tokens, Err(ea)) && self.parsers.1.parse_ensures(
                    tokens,
                    Err(eb),
                ) && self.parsers.2.parse_ensures(tokens, Err(ec)) && e == furthest(
                    furthest(ea, eb),
                    ec,
                ),
        }
    }

    fn parse(&mut self, tokens: &'a [W]) -> (r: TokenParseResult<'a, T, O, W>) {
        let ea = match self.parsers.0.parse(tokens) {
            Ok(step) => {
                return Ok(step);
            },
            Err(e) => e,
        };
        assert(fails::<T, O, W, A>(self.parsers.0, tokens));
        let eb = match self.parsers.1.parse(tokens) {
            Ok(step) => {
                return Ok(step);
            },
            Err(e) => e,
        };
        assert(fails::<T, O, W, B>(self.parsers.1, tokens));
        let ec = match self.parsers.2.parse(tokens) {
            Ok(step) => {
                return Ok(step);
            },
            Err(e) => e,
        };
        let ghost (ga, gb, gc) = (ea, eb, ec);
        let e = pick_furthest(pick_furthest(ea, eb), ec);
        assert(exists|xa: TokenParseError<T>, xb: TokenParseError<T>, xc: TokenParseError<T>|
            self.parsers.0.parse_ensures(tokens, Err(xa)) && self.parsers.1.parse_ensures(tokens, Err(xb))
                && self.parsers.2.parse_ensures(tokens, Err(xc)) && e == furthest(furthest(xa, xb), xc))
            by {
            assert(self.parsers.0.parse_ensures(tokens, Err(ga)) && self.parsers.1.parse_ensures(
                tokens,
                Err(gb),
            ) && self.parsers.2.parse_ensures(tokens, Err(gc)) && e == furthest(furthest(ga, gb), gc));
        }
        let r = Err(e);
        assert(r matches Err(x) && x == e);
        assert(self.parse_ensures(tokens, r));
        r
    }
}

} // verus!
