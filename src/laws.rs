use vstd::prelude::*;
use crate::choice::{furthest, Alt};
use crate::error::{TokenParseError, TokenParseErrorKind};
use crate::list::{SeparatedList0, SeparatedList1};
use crate::parser::{TokenParseResult, TokenParser};
use crate::repeat::{Many0, Many1, Opt};
use crate::sequence::{reaches, Delimited, MapParser, TokenMapper};

verus! {

/// `many0` never fails, and on an empty input it collects nothing and leaves
/// the input as it was.
pub proof fn lemma_many0_total<'a, T, O, W: 'a, P: TokenParser<'a, T, O, W>>(
    p: Many0<P>,
    tokens: &'a [W],
    r: TokenParseResult<'a, T, Vec<O>, W>,
)
    requires
        p.parse_ensures(tokens, r),
    ensures
        r is Ok,
        tokens@.len() == 0 ==> (r matches Ok((rest, items)) && items@.len() == 0 && rest == tokens),
{
    if tokens@.len() == 0 {
        if let Ok((rest, items)) = r {
            let rests = choose|rests: Seq<&'a [W]>|
                crate::repeat::is_repetition::<T, O, W, P>(p.parser, tokens, rests, items@, rest, 0);
            if items@.len() > 0 {
                assert(rests[0]@.len() > 0);
            }
        }
    }
}

/// `separated_list0` never fails, and on an empty input it collects nothing
/// and leaves the input as it was.
pub proof fn lemma_separated_list0_total<'a, T, OS, O, W: 'a, S, P>(
    p: SeparatedList0<S, P, OS>,
    tokens: &'a [W],
    r: TokenParseResult<'a, T, Vec<O>, W>,
) where S: TokenParser<'a, T, OS, W>, P: TokenParser<'a, T, O, W>
    requires
        p.parse_ensures(tokens, r),
    ensures
        r is Ok,
        tokens@.len() == 0 ==> (r matches Ok((rest, items)) && items@.len() == 0 && rest == tokens),
{
}

/// `many1` fails exactly when the repeated parser fails on its first attempt,
/// with that very error; a success holds at least one item.
pub proof fn lemma_many1_fails_iff_first_fails<'a, T, O, W: 'a, P: TokenParser<'a, T, O, W>>(
    p: Many1<P>,
    tokens: &'a [W],
    r: TokenParseResult<'a, T, Vec<O>, W>,
    e: TokenParseError<T>,
)
    ensures
        p.parse_ensures(tokens, Err(e)) <==> p.parser.parse_ensures(tokens, Err(e)),
        p.parse_ensures(tokens, r) && r is Ok ==> r->Ok_0.1@.len() >= 1,
{
}

/// `opt` never fails, and when it yields nothing it consumed nothing.
pub proof fn lemma_opt_backtracks<'a, T, O, W: 'a, P: TokenParser<'a, T, O, W>>(
    p: Opt<P>,
    tokens: &'a [W],
    r: TokenParseResult<'a, T, Option<O>, W>,
)
    requires
        p.parse_ensures(tokens, r),
    ensures
        r is Ok,
        r matches Ok((rest, None)) ==> rest == tokens,
{
}

/// A success of `delimited(l, m, r)` is a success of `l`, then of `m`, then of
/// `r`, each starting where the one before stopped; its output is `m`'s.
pub proof fn lemma_delimited_in_order<'a, T, OL, O, OR, W: 'a, L, M, R>(
    d: Delimited<L, M, R, OL, OR>,
    tokens: &'a [W],
    rest: &'a [W],
    o: O,
) where L: TokenParser<'a, T, OL, W>, M: TokenParser<'a, T, O, W>, R: TokenParser<'a, T, OR, W>
    requires
        d.parse_ensures(tokens, Ok((rest, o))),
    ensures
        exists|s1: &'a [W], s2: &'a [W]|
            reaches::<T, OL, W, L>(d.left, tokens, s1) && d.main.parse_ensures(s1, Ok((s2, o)))
                && reaches::<T, OR, W, R>(d.right, s2, rest),
{
}

/// On an empty input `separated_list1` fails with `NotEnoughToken` alone,
/// having consumed nothing.
pub proof fn lemma_separated_list1_empty_input<'a, T, OS, O, W: 'a, S, P>(
    p: SeparatedList1<S, P, OS>,
    tokens: &'a [W],
    r: TokenParseResult<'a, T, Vec<O>, W>,
) where S: TokenParser<'a, T, OS, W>, P: TokenParser<'a, T, O, W>
    requires
        tokens@.len() == 0,
        p.parse_ensures(tokens, r),
    ensures
        r matches Err(e) && e.tokens_consumed == 0 && e.errors@ == seq![
            TokenParseErrorKind::<T>::NotEnoughToken,
        ],
{
}

/// Mapping with the identity gives exactly what the inner parser gives.
pub proof fn lemma_map_identity<'a, T, O, W: 'a, P, F>(
    m: MapParser<P, F, O>,
    tokens: &'a [W],
    r: TokenParseResult<'a, T, O, W>,
) where P: TokenParser<'a, T, O, W>, F: TokenMapper<O, O>
    requires
        forall|x: O, y: O| m.mapper.maps(x, y) ==> y == x,
    ensures
        m.parse_ensures(tokens, r) ==> m.parser.parse_ensures(tokens, r),
        r is Err ==> (m.parse_ensures(tokens, r) <==> m.parser.parse_ensures(tokens, r)),
{
}

/// When both alternatives fail, each in one way only, `alt` reports the
/// failure that consumed more tokens (the first on a tie).
pub proof fn lemma_alt_reports_furthest<'a, T, O, W: 'a, A, B>(
    p: Alt<(A, B)>,
    tokens: &'a [W],
    ea: TokenParseError<T>,
    eb: TokenParseError<T>,
    e: TokenParseError<T>,
) where A: TokenParser<'a, T, O, W>, B: TokenParser<'a, T, O, W>
    requires
        forall|x: TokenParseError<T>| p.parsers.0.parse_ensures(tokens, Err(x)) ==> x == ea,
        forall|x: TokenParseError<T>| p.parsers.1.parse_ensures(tokens, Err(x)) ==> x == eb,
        p.parse_ensures(tokens, Err(e)),
    ensures
        e == furthest(ea, eb),
        eb.tokens_consumed <= ea.tokens_consumed ==> e == ea,
        eb.tokens_consumed > ea.tokens_consumed ==> e == eb,
{
}

} // verus!
