use vstd::prelude::*;
use core::marker::PhantomData;
use crate::error::TokenParseError;
use crate::parser::{lemma_suffix_trans, TokenParseResult, TokenParser};

verus! {

/// Parser built by [`map`].
pub struct MapParser<P, F, OP> {
    pub parser: P,
    pub mapper: F,
    pub input: PhantomData<OP>,
}

/// Parser built by [`delimited`].
pub struct Delimited<L, M, R, OL, OR> {
    pub left: L,
    pub main: M,
    pub right: R,
    pub outer: PhantomData<(OL, OR)>,
}

/// Parser built by [`tuple`]: a tuple of parsers applied in order.
pub struct Tuple<PS> {
    pub parsers: PS,
}

/// A pure transform of a parser's output, as used by [`map`].
///
/// `maps(x, y)` says that `y` is a result this transform may give on `x`;
/// `wf` says that it may be applied to any value.
pub trait TokenMapper<I, O>: Sized {
    spec fn wf(&self) -> bool;

    spec fn maps(&self, x: I, y: O) -> bool;

    fn apply(&self, x: I) -> (y: O)
        requires
            self.wf(),
        ensures
            self.maps(x, y),
    ;
}

/// Any function of the right shape is a transform. As with parsers, verified
/// code implements the trait on a type of its own to show `wf`.
impl<I, O, F: Fn(I) -> O> TokenMapper<I, O> for F {
    open spec fn wf(&self) -> bool {
        forall|x: I| #[trigger] call_requires(*self, (x,))
    }

    open spec fn maps(&self, x: I, y: O) -> bool {
        call_ensures(*self, (x,), y)
    }

    fn apply(&self, x: I) -> (y: O) {
        (*self)(x)
    }
}

/// Runs `parser` and transforms its output with `mapper`.
pub fn map<P, F, OP>(parser: P, mapper: F) -> (r: MapParser<P, F, OP>)
    ensures
        r.parser == parser,
        r.mapper == mapper,
{
    MapParser { parser, mapper, input: PhantomData }
}

/// Runs `l`, `main` and `r` in turn and keeps the output of `main`.
pub fn delimited<L, M, R, OL, OR>(l: L, main: M, r: R) -> (d: Delimited<L, M, R, OL, OR>)
    ensures
        d.left == l,
        d.main == main,
        d.right == r,
{
    Delimited { left: l, main, right: r, outer: PhantomData }
}

/// Runs each parser of the tuple `parsers` in turn and returns all outputs.
pub fn tuple<PS>(parsers: PS) -> (r: Tuple<PS>)
    ensures
        r.parsers == parsers,
{
    Tuple { parsers }
}

impl<'a, T, OP, O, W: 'a, P, F> TokenParser<'a, T, O, W> for MapParser<P, F, OP> where
    P: TokenParser<'a, T, OP, W>,
    F: TokenMapper<OP, O>,
 {
    open spec fn wf(&self) -> bool {
        &&& self.parser.wf()
        &&& self.mapper.wf()
    }

    open spec fn parse_ensures(&self, tokens: &'a [W], r: TokenParseResult<'a, T, O, W>) -> bool {
        match r {
            Ok((rest, o)) => exists|x: OP|
                self.parser.parse_ensures(tokens, Ok((rest, x))) && self.mapper.maps(x, o),
            Err(e) => self.parser.parse_ensures(tokens, Err(e)),
        }
    }

    fn parse(&mut self, tokens: &'a [W]) -> (r: TokenParseResult<'a, T, O, W>) {
        let (rest, x) = match self.parser.parse(tokens) {
            Ok(step) => step,
            Err(e) => {
                return Err(e);
            },
        };
        let ghost gx = x;
        let o = self.mapper.apply(x);
        assert(self.parser.parse_ensures(tokens, Ok((rest, gx))) && self.mapper.maps(gx, o));
        assert(exists|x: OP|
            self.parser.parse_ensures(tokens, Ok((rest, x))) && self.mapper.maps(x, o));
        let r = Ok((rest, o));
        assert(r matches Ok((x, y)) && x == rest && y == o);
        assert(self.parse_ensures(tokens, r));
        r
    }
}

/// `p` may succeed on `tokens`, leaving `rest`.
pub open spec fn reaches<'a, T, O, W: 'a, P: TokenParser<'a, T, O, W>>(
    p: P,
    tokens: &'a [W],
    rest: &'a [W],
) -> bool {
    exists|o: O| p.parse_ensures(tokens, Ok((rest, o)))
}

impl<'a, T, OL, O, OR, W: 'a, L, M, R> TokenParser<'a, T, O, W> for Delimited<L, M, R, OL, OR> where
    L: TokenParser<'a, T, OL, W>,
    M: TokenParser<'a, T, O, W>,
    R: TokenParser<'a, T, OR, W>,
 {
    open spec fn wf(&self) -> bool {
        self.left.wf() && self.main.wf() && self.right.wf()
    }

    open spec fn parse_ensures(&self, tokens: &'a [W], r: TokenParseResult<'a, T, O, W>) -> bool {
        match r {
            Ok((rest, o)) => exists|s1: &'a [W], s2: &'a [W]|
                reaches::<T, OL, W, L>(self.left, tokens, s1) && self.main.parse_ensures(
                    s1,
                    Ok((s2, o)),
                ) && reaches::<T, OR, W, R>(self.right, s2, rest),
            Err(e) => {
                ||| self.left.parse_ensures(tokens, Err(e))
                ||| exists|s1: &'a [W]|
                    reaches::<T, OL, W, L>(self.left, tokens, s1) && self.main.parse_ensures(
                        s1,
                        Err(e),
                    )
                ||| exists|s1: &'a [W], s2: &'a [W]|
                    reaches::<T, OL, W, L>(self.left, tokens, s1) && reaches::<T, O, W, M>(
                        self.main,
                        s1,
                        s2,
                    ) && self.right.parse_ensures(s2, Err(e))
            },
        }
    }

    fn parse(&mut self, tokens: &'a [W]) -> (r: TokenParseResult<'a, T, O, W>) {
        let (s1, o1) = match self.left.parse(tokens) {
            Ok(step) => step,
            Err(e) => {
                return Err(e);
            },
        };
        assert(reaches::<T, OL, W, L>(self.left, tokens, s1));
        let (s2, o) = match self.main.parse(s1) {
            Ok(step) => step,
            Err(e) => {
                assert(exists|t1: &'a [W]|
                    reaches::<T, OL, W, L>(self.left, tokens, t1) && self.main.parse_ensures(t1, Err(e)));
                return Err(e);
            },
        };
        assert(reaches::<T, O, W, M>(self.main, s1, s2));
        let (rest, o3) = match self.right.parse(s2) {
            Ok(step) => step,
            Err(e) => {
                assert(exists|t1: &'a [W], t2: &'a [W]|
                    reaches::<T, OL, W, L>(self.left, tokens, t1) && reaches::<T, O, W, M>(self.main, t1, t2)
                        && self.right.parse_ensures(t2, Err(e)));
                return Err(e);
            },
        };
        assert(reaches::<T, OR, W, R>(self.right, s2, rest));
        proof {
            lemma_suffix_trans(s2@, s1@, tokens@);
            lemma_suffix_trans(rest@, s2@, tokens@);
        }
        assert(exists|t1: &'a [W], t2: &'a [W]|
            reaches::<T, OL, W, L>(self.left, tokens, t1) && self.main.parse_ensures(t1, Ok((t2, o)))
                && reaches::<T, OR, W, R>(self.right, t2, rest));
        let r = Ok((rest, o));
        assert(r matches Ok((x, y)) && x == rest && y == o);
        assert(self.parse_ensures(tokens, r));
        r
    }
}

impl<'a, T, OA, OB, W: 'a, A, B> TokenParser<'a, T, (OA, OB), W> for Tuple<(A, B)> where
    A: TokenParser<'a, T, OA, W>,
    B: TokenParser<'a, T, OB, W>,
 {
    open spec fn wf(&self) -> bool {
        self.parsers.0.wf() && self.parsers.1.wf()
    }

    open spec fn parse_ensures(&self, tokens: &'a [W], r: TokenParseResult<'a, T, (OA, OB), W>) -> bool {
        match r {
            Ok((rest, (oa, ob))) => exists|s1: &'a [W]|
                self.parsers.0.parse_ensures(tokens, Ok((s1, oa))) && self.parsers.1.parse_ensures(
                    s1,
                    Ok((rest, ob)),
                ),
            Err(e) => {
                ||| self.parsers.0.parse_ensures(tokens, Err(e))
                ||| exists|s1: &'a [W]|
                    reaches::<T, OA, W, A>(self.parsers.0, tokens, s1)
                        && self.parsers.1.parse_ensures(s1, Err(e))
            },
        }
    }

    fn parse(&mut self, tokens: &'a [W]) -> (r: TokenParseResult<'a, T, (OA, OB), W>) {
        let (s1, oa) = match self.parsers.0.parse(tokens) {
            Ok(step) => step,
            Err(e) => {
                return Err(e);
            },
        };
        assert(reaches::<T, OA, W, A>(self.parsers.0, tokens, s1));
        let (rest, ob) = match self.parsers.1.parse(s1) {
            Ok(step) => step,
            Err(e) => {
                assert(exists|t1: &'a [W]|
                    reaches::<T, OA, W, A>(self.parsers.0, tokens, t1)
                        && self.parsers.1.parse_ensures(t1, Err(e)));
                return Err(e);
            },
        };
        proof {
            lemma_suffix_trans(rest@, s1@, tokens@);
        }
        assert(exists|t1: &'a [W]|
            self.parsers.0.parse_ensures(tokens, Ok((t1, oa))) && self.parsers.1.parse_ensures(
                t1,
                Ok((rest, ob)),
            ));
        let r = Ok((rest, (oa, ob)));
        assert(r matches Ok((x, y)) && x == rest && y == (oa, ob));
        assert(self.parse_ensures(tokens, r));
        r
    }
}

impl<'a, T, OA, OB, OC, W: 'a, A, B, C> TokenParser<'a, T, (OA, OB, OC), W> for Tuple<(A, B, C)> where
    A: TokenParser<'a, T, OA, W>,
    B: TokenParser<'a, T, OB, W>,
    C: TokenParser<'a, T, OC, W>,
 {
    open spec fn wf(&self) -> bool {
        self.parsers.0.wf() && self.parsers.1.wf() && self.parsers.2.wf()
    }

    open spec fn parse_ensures(
        &self,
        tokens: &'a [W],
        r: TokenParseResult<'a, T, (OA, OB, OC), W>,
    ) -> bool {
        match r {
            Ok((rest, (oa, ob, oc))) => exists|s1: &'a [W], s2: &'a [W]|
                self.parsers.0.parse_ensures(tokens, Ok((s1, oa)))
                    && self.parsers.1.parse_ensures(s1, Ok((s2, ob)))
                    && self.parsers.2.parse_ensures(s2, Ok((rest, oc))),
            Err(e) => {
                ||| self.parsers.0.parse_ensures(tokens, Err(e))
                ||| exists|s1: &'a [W]|
                    reaches::<T, OA, W, A>(self.parsers.0, tokens, s1)
                        && self.parsers.1.parse_ensures(s1, Err(e))
                ||| exists|s1: &'a [W], s2: &'a [W]|
                    reaches::<T, OA, W, A>(self.parsers.0, tokens, s1) && reaches::<T, OB, W, B>(
                        self.parsers.1,
                        s1,
                        s2,
                    ) && self.parsers.2.parse_ensures(s2, Err(e))
            },
        }
    }

    fn parse(&mut self, tokens: &'a [W]) -> (r: TokenParseResult<'a, T, (OA, OB, OC), W>) {
        let (s1, oa) = match self.parsers.0.parse(tokens) {
            Ok(step) => step,
            Err(e) => {
                return Err(e);
            },
        };
        assert(reaches::<T, OA, W, A>(self.parsers.0, tokens, s1));
        let (s2, ob) = match self.parsers.1.parse(s1) {
            Ok(step) => step,
            Err(e) => {
                assert(exists|t1: &'a [W]|
                    reaches::<T, OA, W, A>(self.parsers.0, tokens, t1)
                        && self.parsers.1.parse_ensures(t1, Err(e)));
                return Err(e);
            },
        };
        assert(reaches::<T, OB, W, B>(self.parsers.1, s1, s2));
        let (rest, oc) = match self.parsers.2.parse(s2) {
            Ok(step) => step,
            Err(e) => {
                assert(exists|t1: &'a [W], t2: &'a [W]|
                    reaches::<T, OA, W, A>(self.parsers.0, tokens, t1) && reaches::<T, OB, W, B>(
                        self.parsers.1,
                        t1,
                        t2,
                    ) && self.parsers.2.parse_ensures(t2, Err(e)));
                return Err(e);
            },
        };
        proof {
            lemma_suffix_trans(s2@, s1@, tokens@);
            lemma_suffix_trans(rest@, s2@, tokens@);
        }
        assert(exists|t1: &'a [W], t2: &'a [W]|
            self.parsers.0.parse_ensures(tokens, Ok((t1, oa)))
                && self.parsers.1.parse_ensures(t1, Ok((t2, ob)))
                && self.parsers.2.parse_ensures(t2, Ok((rest, oc))));
        let r = Ok((rest, (oa, ob, oc)));
        assert(r matches Ok((x, (ya, yb, yc))) && x == rest && ya == oa && yb == ob && yc == oc);
        assert(self.parse_ensures(tokens, r));
        r
    }
}

} // verus!
