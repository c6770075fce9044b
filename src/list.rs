use vstd::prelude::*;
use core::marker::PhantomData;
use crate::choice::fails;
use crate::error::{TokenParseError, TokenParseErrorKind};
use crate::parser::{is_suffix, lemma_suffix_trans, TokenParseResult, TokenParser};
use crate::sequence::reaches;

verus! {

/// Parser built by [`separated_list0`].
pub struct SeparatedList0<S, P, OS> {
    pub separator: S,
    pub item: P,
    pub separator_output: PhantomData<OS>,
}

/// Parser built by [`separated_list1`].
pub struct SeparatedList1<S, P, OS> {
    pub separator: S,
    pub item: P,
    pub separator_output: PhantomData<OS>,
}

/// Parses zero or more items separated by `separator_parser`.
pub fn separated_list0<S, P, OS>(separator_parser: S, item_parser: P) -> (r: SeparatedList0<S, P, OS>)
    ensures
        r.separator == separator_parser,
        r.item == item_parser,
{
    SeparatedList0 { separator: separator_parser, item: item_parser, separator_output: PhantomData }
}

/// Parses one or more items separated by `separator_parser`.
pub fn separated_list1<S, P, OS>(separator_parser: S, item_parser: P) -> (r: SeparatedList1<S, P, OS>)
    ensures
        r.separator == separator_parser,
        r.item == item_parser,
{
    SeparatedList1 { separator: separator_parser, item: item_parser, separator_output: PhantomData }
}

/// Item `i` was parsed from `starts[i]` to `ends[i]`, and a separator led from
/// `ends[i]` to `starts[i + 1]`, each round consuming at least one token.
pub open spec fn is_list_run<'a, T, OS, O, W: 'a, S, P>(
    sep: S,
    item: P,
    starts: Seq<&'a [W]>,
    ends: Seq<&'a [W]>,
    items: Seq<O>,
) -> bool where S: TokenParser<'a, T, OS, W>, P: TokenParser<'a, T, O, W> {
    &&& starts.len() == items.len()
    &&& ends.len() == items.len()
    &&& forall|i: int|
        0 <= i < items.len() ==> #[trigger] item.parse_ensures(starts[i], Ok((ends[i], items[i])))
    &&& forall|i: int|
        0 <= i < items.len() - 1 ==> #[trigger] reaches::<T, OS, W, S>(sep, ends[i], starts[i + 1])
    &&& forall|i: int|
        0 <= i < items.len() - 1 ==> (#[trigger] starts[i + 1])@.len() < starts[i]@.len()
}

/// The list stopped at `rest` where it had to, after its last item: the input
/// is used up, the separator fails, or after a separator the next item fails
/// or the round made no progress.
pub open spec fn list_stopped<'a, T, OS, O, W: 'a, S, P>(
    sep: S,
    item: P,
    last_start: &'a [W],
    last_end: &'a [W],
    rest: &'a [W],
) -> bool where S: TokenParser<'a, T, OS, W>, P: TokenParser<'a, T, O, W> {
    ||| rest == last_end && last_end@.len() == 0
    ||| rest == last_end && last_end@.len() > 0 && fails::<T, OS, W, S>(sep, last_end)
    ||| last_end@.len() > 0 && reaches::<T, OS, W, S>(sep, last_end, rest) && (rest@.len()
        == last_start@.len() || (rest@.len() < last_start@.len() && fails::<T, O, W, P>(item, rest)))
}

/// A complete list of at least one item from `tokens` to `rest`.
pub open spec fn is_list<'a, T, OS, O, W: 'a, S, P>(
    sep: S,
    item: P,
    tokens: &'a [W],
    starts: Seq<&'a [W]>,
    ends: Seq<&'a [W]>,
    items: Seq<O>,
    rest: &'a [W],
) -> bool where S: TokenParser<'a, T, OS, W>, P: TokenParser<'a, T, O, W> {
    &&& items.len() >= 1
    &&& starts[0] == tokens
    &&& is_list_run::<T, OS, O, W, S, P>(sep, item, starts, ends, items)
    &&& list_stopped::<T, OS, O, W, S, P>(sep, item, starts.last(), ends.last(), rest)
}

/// Some complete list of at least one item leads from `tokens` to `rest`
/// with `items`.
pub open spec fn lists_to<'a, T, OS, O, W: 'a, S, P>(
    sep: S,
    item: P,
    tokens: &'a [W],
    items: Seq<O>,
    rest: &'a [W],
) -> bool where S: TokenParser<'a, T, OS, W>, P: TokenParser<'a, T, O, W> {
    exists|starts: Seq<&'a [W]>, ends: Seq<&'a [W]>|
        is_list::<T, OS, O, W, S, P>(sep, item, tokens, starts, ends, items, rest)
}

/// Goes on with a list whose first item has been parsed, until it has to stop.
fn continue_list<'a, T, OS, O, W: 'a, S, P>(
    sep: &mut S,
    item: &mut P,
    tokens: &'a [W],
    items: Vec<O>,
    start: &'a [W],
    end: &'a [W],
    starts: Ghost<Seq<&'a [W]>>,
    ends: Ghost<Seq<&'a [W]>>,
) -> (r: (&'a [W], Vec<O>)) where S: TokenParser<'a, T, OS, W>, P: TokenParser<'a, T, O, W>
    requires
        old(sep).wf(),
        old(item).wf(),
        items@.len() >= 1,
        starts@[0] == tokens,
        starts@.last() == start,
        ends@.last() == end,
        is_list_run::<T, OS, O, W, S, P>(*old(sep), *old(item), starts@, ends@, items@),
        is_suffix(start@, tokens@),
        is_suffix(end@, start@),
    ensures
        *final(sep) == *old(sep),
        *final(item) == *old(item),
        lists_to::<T, OS, O, W, S, P>(*old(sep), *old(item), tokens, r.1@, r.0),
        is_suffix(r.0@, tokens@),
{
    let mut items = items;
    let mut start = start;
    let mut end = end;
    let ghost mut starts = starts@;
    let ghost mut ends = ends@;
    let mut rest: &'a [W];
    loop
        invariant
            *sep == *old(sep),
            *item == *old(item),
            sep.wf(),
            item.wf(),
            items@.len() >= 1,
            starts[0] == tokens,
            starts.last() == start,
            ends.last() == end,
            is_list_run::<T, OS, O, W, S, P>(*sep, *item, starts, ends, items@),
            is_suffix(start@, tokens@),
            is_suffix(end@, start@),
        ensures
            list_stopped::<T, OS, O, W, S, P>(*sep, *item, start, end, rest),
            is_suffix(rest@, tokens@),
        decreases start@.len(),
    {
        proof {
            lemma_suffix_trans(end@, start@, tokens@);
        }
        if end.len() == 0 {
            rest = end;
            break;
        }
        let (next, separator_output) = match sep.parse(end) {
            Ok(step) => step,
            Err(e) => {
                assert(sep.parse_ensures(end, Err(e)));
                rest = end;
                break;
            },
        };
        assert(sep.parse_ensures(end, Ok((next, separator_output))));
        assert(reaches::<T, OS, W, S>(*sep, end, next));
        proof {
            lemma_suffix_trans(next@, end@, start@);
            lemma_suffix_trans(next@, start@, tokens@);
        }
        if next.len() == start.len() {
            rest = next;
            break;
        }
        match item.parse(next) {
            Ok((next_end, it)) => {
                proof {
                    starts = starts.push(next);
                    ends = ends.push(next_end);
                }
                items.push(it);
                start = next;
                end = next_end;
            },
            Err(e) => {
                assert(item.parse_ensures(next, Err(e)));
                rest = next;
                break;
            },
        }
    }
    assert(is_list::<T, OS, O, W, S, P>(*sep, *item, tokens, starts, ends, items@, rest));
    assert(lists_to::<T, OS, O, W, S, P>(*sep, *item, tokens, items@, rest));
    (rest, items)
}

impl<'a, T, OS, O, W: 'a, S, P> TokenParser<'a, T, Vec<O>, W> for SeparatedList0<S, P, OS> where
    S: TokenParser<'a, T, OS, W>,
    P: TokenParser<'a, T, O, W>,
 {
    open spec fn wf(&self) -> bool {
        self.separator.wf() && self.item.wf()
    }

    open spec fn parse_ensures(&self, tokens: &'a [W], r: TokenParseResult<'a, T, Vec<O>, W>) -> bool {
        match r {
            Ok((rest, items)) => if items@.len() == 0 {
                rest == tokens && (tokens@.len() == 0 || fails::<T, O, W, P>(self.item, tokens))
            } else {
                tokens@.len() > 0 && lists_to::<T, OS, O, W, S, P>(
                    self.separator,
                    self.item,
                    tokens,
                    items@,
                    rest,
                )
            },
            Err(_) => false,
        }
    }

    fn parse(&mut self, tokens: &'a [W]) -> (r: TokenParseResult<'a, T, Vec<O>, W>) {
        assert(tokens@ =~= tokens@.subrange(0, tokens@.len() as int));
        if tokens.len() == 0 {
            return Ok((tokens, Vec::new()));
        }
        let (end, first) = match self.item.parse(tokens) {
            Ok(step) => step,
            Err(e) => {
                assert(self.item.parse_ensures(tokens, Err(e)));
                return Ok((tokens, Vec::new()));
            },
        };
        let mut items: Vec<O> = Vec::new();
        items.push(first);
        let ghost starts: Seq<&'a [W]> = seq![tokens];
        let ghost ends: Seq<&'a [W]> = seq![end];
        let (rest, items) = continue_list(
            &mut self.separator,
            &mut self.item,
            tokens,
            items,
            tokens,
            end,
            Ghost(starts),
            Ghost(ends),
        );
        Ok((rest, items))
    }
}

impl<'a, T, OS, O, W: 'a, S, P> TokenParser<'a, T, Vec<O>, W> for SeparatedList1<S, P, OS> where
    S: TokenParser<'a, T, OS, W>,
    P: TokenParser<'a, T, O, W>,
 {
    open spec fn wf(&self) -> bool {
        self.separator.wf() && self.item.wf()
    }

    open spec fn parse_ensures(&self, tokens: &'a [W], r: TokenParseResult<'a, T, Vec<O>, W>) -> bool {
        match r {
            Ok((rest, items)) => tokens@.len() > 0 && lists_to::<T, OS, O, W, S, P>(
                self.separator,
                self.item,
                tokens,
                items@,
                rest,
            ),
            Err(e) => if tokens@.len() == 0 {
                e.errors@ == seq![TokenParseErrorKind::<T>::NotEnoughToken] && e.tokens_consumed == 0
            } else {
                exists|first: TokenParseError<T>|
                    self.item.parse_ensures(tokens, Err(first)) && e.errors == first.errors
                        && e.tokens_consumed == 0
            },
        }
    }

    fn parse(&mut self, tokens: &'a [W]) -> (r: TokenParseResult<'a, T, Vec<O>, W>) {
        assert(tokens@ =~= tokens@.subrange(0, tokens@.len() as int));
        if tokens.len() == 0 {
            let mut errors: Vec<TokenParseErrorKind<T>> = Vec::new();
            errors.push(TokenParseErrorKind::NotEnoughToken);
            assert(errors@ =~= seq![TokenParseErrorKind::<T>::NotEnoughToken]);
            return Err(TokenParseError { errors, tokens_consumed: 0 });
        }
        let (end, first) = match self.item.parse(tokens) {
            Ok(step) => step,
            Err(e) => {
                let ghost first_error = e;
                // The first item fails where the input starts: nothing was consumed.
                let e = e.with_tokens_consumed(0);
                assert(self.item.parse_ensures(tokens, Err(first_error)) && e.errors == first_error.errors
                    && e.tokens_consumed == 0);
                let r = Err(e);
                assert(r matches Err(x) && x == e);
                assert(self.parse_ensures(tokens, r));
                return r;
            },
        };
        let mut items: Vec<O> = Vec::new();
        items.push(first);
        let ghost starts: Seq<&'a [W]> = seq![tokens];
        let ghost ends: Seq<&'a [W]> = seq![end];
        let (rest, items) = continue_list(
            &mut self.separator,
            &mut self.item,
            tokens,
            items,
            tokens,
            end,
            Ghost(starts),
            Ghost(ends),
        );
        Ok((rest, items))
    }
}

} // verus!
