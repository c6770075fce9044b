use vstd::prelude::*;
use crate::error::TokenParseError;
use crate::parser::{is_suffix, lemma_suffix_trans, TokenParseResult, TokenParser};

verus! {

/// Parser built by [`opt`].
pub struct Opt<P> {
    pub parser: P,
}

/// Parser built by [`many0`].
pub struct Many0<P> {
    pub parser: P,
}

/// Parser built by [`many1`].
pub struct Many1<P> {
    pub parser: P,
}

/// Makes a failure of `parser` a success with no output and no input consumed.
pub fn opt<P>(parser: P) -> (r: Opt<P>)
    ensures
        r.parser == parser,
{
    Opt { parser }
}

/// Repeats `parser` zero or more times.
pub fn many0<P>(parser: P) -> (r: Many0<P>)
    ensures
        r.parser == parser,
{
    Many0 { parser }
}

/// Repeats `parser` one or more times.
pub fn many1<P>(parser: P) -> (r: Many1<P>)
    ensures
        r.parser == parser,
{
    Many1 { parser }
}

impl<'a, T, O, W: 'a, P: TokenParser<'a, T, O, W>> TokenParser<'a, T, Option<O>, W> for Opt<P> {
    open spec fn wf(&self) -> bool {
        self.parser.wf()
    }

    open spec fn parse_ensures(&self, tokens: &'a [W], r: TokenParseResult<'a, T, Option<O>, W>) -> bool {
        match r {
            Ok((rest, Some(o))) => self.parser.parse_ensures(tokens, Ok((rest, o))),
            Ok((rest, None)) => rest == tokens && exists|e: TokenParseError<T>|
                self.parser.parse_ensures(tokens, Err(e)),
            Err(_) => false,
        }
    }

    fn parse(&mut self, tokens: &'a [W]) -> (r: TokenParseResult<'a, T, Option<O>, W>) {
        match self.parser.parse(tokens) {
            Ok((rest, output)) => {
                assert(self.parser == old(self).parser);
                assert(*self == *old(self));
                Ok((rest, Some(output)))
            },
            Err(e) => {
                assert(self.parser.parse_ensures(tokens, Err(e)));
                assert(tokens@ =~= tokens@.subrange(0, tokens@.len() as int));
                Ok((tokens, None))
            },
        }
    }
}

/// `rests[i]` is where the `i`-th attempt of `p` started; each attempt but the
/// last in `rests` succeeded with `items[i]` and left `rests[i + 1]`.
pub open spec fn is_run<'a, T, O, W: 'a, P: TokenParser<'a, T, O, W>>(
    p: P,
    rests: Seq<&'a [W]>,
    items: Seq<O>,
) -> bool {
    &&& rests.len() == items.len() + 1
    &&& forall|i: int|
        0 <= i < items.len() ==> #[trigger] p.parse_ensures(rests[i], Ok((rests[i + 1], items[i])))
}

/// Every step of the run but the last consumed at least one token, and each
/// step from `first_guarded` on started on a non-empty input.
pub open spec fn run_progresses<'a, W: 'a, O>(rests: Seq<&'a [W]>, items: Seq<O>, first_guarded: int) -> bool {
    &&& forall|i: int| first_guarded <= i < items.len() ==> (#[trigger] rests[i])@.len() > 0
    &&& forall|i: int|
        0 <= i < items.len() - 1 ==> (#[trigger] rests[i + 1])@.len() < rests[i]@.len()
}

/// The repetition stopped where it had to: the input is used up, `p` fails
/// there, or the last success consumed nothing.
pub open spec fn run_stopped<'a, T, O, W: 'a, P: TokenParser<'a, T, O, W>>(
    p: P,
    rests: Seq<&'a [W]>,
    items: Seq<O>,
) -> bool {
    let last = rests.last();
    ||| last@.len() == 0
    ||| exists|e: TokenParseError<T>| p.parse_ensures(last, Err(e))
    ||| (items.len() > 0 && last@.len() == rests[items.len() - 1]@.len())
}

/// A complete repetition of `p` from `tokens`, ending at `rest` with `items`.
pub open spec fn is_repetition<'a, T, O, W: 'a, P: TokenParser<'a, T, O, W>>(
    p: P,
    tokens: &'a [W],
    rests: Seq<&'a [W]>,
    items: Seq<O>,
    rest: &'a [W],
    first_guarded: int,
) -> bool {
    &&& is_run::<T, O, W, P>(p, rests, items)
    &&& rests[0] == tokens
    &&& rests.last() == rest
    &&& run_progresses(rests, items, first_guarded)
    &&& run_stopped::<T, O, W, P>(p, rests, items)
}

/// Some complete repetition of `p` from `tokens` ends at `rest` with `items`.
pub open spec fn repeats_to<'a, T, O, W: 'a, P: TokenParser<'a, T, O, W>>(
    p: P,
    tokens: &'a [W],
    items: Seq<O>,
    rest: &'a [W],
    first_guarded: int,
) -> bool {
    exists|rests: Seq<&'a [W]>| is_repetition::<T, O, W, P>(p, tokens, rests, items, rest, first_guarded)
}

impl<'a, T, O, W: 'a, P: TokenParser<'a, T, O, W>> TokenParser<'a, T, Vec<O>, W> for Many0<P> {
    open spec fn wf(&self) -> bool {
        self.parser.wf()
    }

    open spec fn parse_ensures(&self, tokens: &'a [W], r: TokenParseResult<'a, T, Vec<O>, W>) -> bool {
        match r {
            Ok((rest, items)) => repeats_to::<T, O, W, P>(self.parser, tokens, items@, rest, 0),
            Err(_) => false,
        }
    }

    fn parse(&mut self, tokens: &'a [W]) -> (r: TokenParseResult<'a, T, Vec<O>, W>) {
        assert(tokens@ =~= tokens@.subrange(0, tokens@.len() as int));
        let ghost rests: Seq<&'a [W]> = seq![tokens];
        let (rest, items) = continue_repetition(
            &mut self.parser,
            tokens,
            Vec::new(),
            tokens,
            Ghost(rests),
            Ghost(0int),
        );
        Ok((rest, items))
    }
}

impl<'a, T, O, W: 'a, P: TokenParser<'a, T, O, W>> TokenParser<'a, T, Vec<O>, W> for Many1<P> {
    open spec fn wf(&self) -> bool {
        self.parser.wf()
    }

    open spec fn parse_ensures(&self, tokens: &'a [W], r: TokenParseResult<'a, T, Vec<O>, W>) -> bool {
        match r {
            Ok((rest, items)) => items@.len() >= 1 && repeats_to::<T, O, W, P>(
                self.parser,
                tokens,
                items@,
                rest,
                1,
            ),
            Err(e) => self.parser.parse_ensures(tokens, Err(e)),
        }
    }

    fn parse(&mut self, tokens: &'a [W]) -> (r: TokenParseResult<'a, T, Vec<O>, W>) {
        let (next, item) = match self.parser.parse(tokens) {
            Ok(step) => step,
            Err(e) => {
                return Err(e);
            },
        };
        let mut items: Vec<O> = Vec::new();
        items.push(item);
        let ghost rests: Seq<&'a [W]> = seq![tokens, next];
        if next.len() == tokens.len() {
            assert(is_repetition::<T, O, W, P>(self.parser, tokens, rests, items@, next, 1));
            assert(repeats_to::<T, O, W, P>(self.parser, tokens, items@, next, 1));
            return Ok((next, items));
        }
        let (rest, items) = continue_repetition(
            &mut self.parser,
            tokens,
            items,
            next,
            Ghost(rests),
            Ghost(1int),
        );
        Ok((rest, items))
    }
}

/// Goes on with a repetition of `parser` whose steps so far are `rests` and
/// `items`, each of which consumed input, until it has to stop.
fn continue_repetition<'a, T, O, W: 'a, P: TokenParser<'a, T, O, W>>(
    parser: &mut P,
    tokens: &'a [W],
    items: Vec<O>,
    rest: &'a [W],
    rests: Ghost<Seq<&'a [W]>>,
    first_guarded: Ghost<int>,
) -> (r: (&'a [W], Vec<O>))
    requires
        old(parser).wf(),
        0 <= first_guarded@ <= 1,
        is_run::<T, O, W, P>(*old(parser), rests@, items@),
        rests@[0] == tokens,
        rests@.last() == rest,
        forall|i: int| first_guarded@ <= i < items@.len() ==> (#[trigger] rests@[i])@.len() > 0,
        forall|i: int| 0 <= i < items@.len() ==> (#[trigger] rests@[i + 1])@.len() < rests@[i]@.len(),
        is_suffix(rest@, tokens@),
    ensures
        *final(parser) == *old(parser),
        r.1@.len() >= items@.len(),
        repeats_to::<T, O, W, P>(*old(parser), tokens, r.1@, r.0, first_guarded@),
        is_suffix(r.0@, tokens@),
{
    let ghost start_len = items@.len();
    let mut items = items;
    let mut rest = rest;
    let ghost mut rests = rests@;
    let ghost fg = first_guarded@;
    loop
        invariant_except_break
            forall|i: int| 0 <= i < items@.len() ==> (#[trigger] rests[i + 1])@.len() < rests[i]@.len(),
        invariant
            *parser == *old(parser),
            parser.wf(),
            is_run::<T, O, W, P>(*parser, rests, items@),
            rests[0] == tokens,
            rests.last() == rest,
            run_progresses(rests, items@, fg),
            is_suffix(rest@, tokens@),
            items@.len() >= start_len,
            0 <= fg <= 1,
        ensures
            run_stopped::<T, O, W, P>(*parser, rests, items@),
        decreases rest@.len(),
    {
        if rest.len() == 0 {
            break;
        }
        let ghost prev = rest;
        match parser.parse(rest) {
            Ok((next, item)) => {
                let stalled = next.len() == rest.len();
                proof {
                    lemma_suffix_trans(next@, rest@, tokens@);
                    rests = rests.push(next);
                }
                items.push(item);
                rest = next;
                if stalled {
                    assert(rests[items@.len() - 1] == prev);
                    break;
                }
            },
            Err(e) => {
                assert(parser.parse_ensures(rest, Err(e)));
                break;
            },
        }
    }
    assert(is_repetition::<T, O, W, P>(*parser, tokens, rests, items@, rest, fg));
    assert(is_repetition::<T, O, W, P>(*old(parser), tokens, rests, items@, rest, first_guarded@));
    assert(repeats_to::<T, O, W, P>(*old(parser), tokens, items@, rest, first_guarded@));
    (rest, items)
}

} // verus!
