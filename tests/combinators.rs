use token_combinator::{
    alt, delimited, many0, many1, opt, separated_list0, separated_list1, tuple, TokenParseError,
    TokenParseErrorKind, TokenParser,
};

#[derive(Debug, Clone, Copy, PartialEq, Eq)]
enum Tok {
    Digit(u8),
    Comma,
    LParen,
    RParen,
}

type Res<'a, O> = Result<(&'a [Tok], O), TokenParseError<Tok>>;

fn expected(expects: &'static str, found: Tok) -> TokenParseError<Tok> {
    TokenParseError { errors: vec![TokenParseErrorKind::Expects { expects, found }], tokens_consumed: 0 }
}

fn not_enough() -> TokenParseError<Tok> {
    TokenParseError { errors: vec![TokenParseErrorKind::NotEnoughToken], tokens_consumed: 0 }
}

fn digit(t: &[Tok]) -> Res<'_, u8> {
    match t.first() {
        None => Err(not_enough()),
        Some(Tok::Digit(d)) => Ok((&t[1..], *d)),
        Some(other) => Err(expected("digit", *other)),
    }
}

fn unit_leaf<'a>(t: &'a [Tok], want: Tok, name: &'static str) -> Res<'a, ()> {
    match t.first() {
        None => Err(not_enough()),
        Some(x) if *x == want => Ok((&t[1..], ())),
        Some(other) => Err(expected(name, *other)),
    }
}

fn comma(t: &[Tok]) -> Res<'_, ()> {
    unit_leaf(t, Tok::Comma, "comma")
}

fn lparen(t: &[Tok]) -> Res<'_, ()> {
    unit_leaf(t, Tok::LParen, "lparen")
}

fn rparen(t: &[Tok]) -> Res<'_, ()> {
    unit_leaf(t, Tok::RParen, "rparen")
}

/// Reads two digits, then fails, reporting both as consumed.
fn two_digits_then_fail(t: &[Tok]) -> Res<'_, u8> {
    let (rest, _) = digit(t)?;
    let (rest, _) = digit(rest)?;
    let found = rest.first().copied().unwrap_or(Tok::Comma);
    Err(TokenParseError {
        errors: vec![TokenParseErrorKind::Expects { expects: "rparen", found }],
        tokens_consumed: 2,
    })
}

const EMPTY: [Tok; 0] = [];

#[test]
fn separated_list1_three_digits() {
    let toks = [Tok::Digit(1), Tok::Comma, Tok::Digit(2), Tok::Comma, Tok::Digit(3)];
    let mut p = separated_list1(comma, digit);
    let (rest, items) = p.parse(&toks).unwrap();
    assert_eq!(items, vec![1, 2, 3]);
    assert!(rest.is_empty());
}

#[test]
fn separated_list0_trailing_comma_consumed() {
    let toks = [Tok::Digit(1), Tok::Comma];
    let mut p = separated_list0(comma, digit);
    let (rest, items) = p.parse(&toks).unwrap();
    assert_eq!(items, vec![1]);
    assert!(rest.is_empty());
}

#[test]
fn tuple_of_three_leaves() {
    let toks = [Tok::LParen, Tok::Digit(5), Tok::RParen];
    let mut p = tuple((lparen, digit, rparen));
    let (rest, out) = p.parse(&toks).unwrap();
    assert_eq!(out, ((), 5, ()));
    assert!(rest.is_empty());
}

#[test]
fn tuple_fails_with_inner_leaf_error() {
    let toks = [Tok::LParen, Tok::RParen];
    let mut p = tuple((lparen, digit, rparen));
    let err = p.parse(&toks).unwrap_err();
    assert_eq!(err, expected("digit", Tok::RParen));
    assert_eq!(err.tokens_consumed, 0);
}

#[test]
fn tuple_of_two() {
    let toks = [Tok::Digit(4), Tok::Comma, Tok::Digit(9)];
    let mut p = tuple((digit, comma));
    let (rest, out) = p.parse(&toks).unwrap();
    assert_eq!(out, (4, ()));
    assert_eq!(rest, &[Tok::Digit(9)]);
}

#[test]
fn separated_lists_absorb_trailing_separator() {
    let toks = [Tok::Digit(1), Tok::Comma, Tok::Digit(2), Tok::Comma];
    let (rest, items) = separated_list0(comma, digit).parse(&toks).unwrap();
    assert_eq!(items, vec![1, 2]);
    assert!(rest.is_empty());
    let (rest, items) = separated_list1(comma, digit).parse(&toks).unwrap();
    assert_eq!(items, vec![1, 2]);
    assert!(rest.is_empty());
}

#[test]
fn separated_list_stops_at_missing_separator() {
    let toks = [Tok::Digit(1), Tok::Comma, Tok::Digit(2), Tok::Digit(3)];
    let (rest, items) = separated_list0(comma, digit).parse(&toks).unwrap();
    assert_eq!(items, vec![1, 2]);
    assert_eq!(rest, &[Tok::Digit(3)]);
}

#[test]
fn separated_list0_empty_and_no_item() {
    let (rest, items) = separated_list0(comma, digit).parse(&EMPTY).unwrap();
    assert!(items.is_empty());
    assert!(rest.is_empty());
    let toks = [Tok::Comma, Tok::Digit(1)];
    let (rest, items) = separated_list0(comma, digit).parse(&toks).unwrap();
    assert!(items.is_empty());
    assert_eq!(rest, &toks[..]);
}

#[test]
fn separated_list1_empty_input_is_not_enough_token() {
    let err = separated_list1(comma, digit).parse(&EMPTY).unwrap_err();
    assert_eq!(err.errors, vec![TokenParseErrorKind::NotEnoughToken]);
    assert_eq!(err.tokens_consumed, 0);
}

#[test]
fn separated_list1_first_item_fails() {
    let toks = [Tok::Comma, Tok::Digit(1)];
    let err = separated_list1(comma, digit).parse(&toks).unwrap_err();
    assert_eq!(err, expected("digit", Tok::Comma));
}

#[test]
fn many0_collects_until_failure() {
    let toks = [Tok::Digit(1), Tok::Digit(2), Tok::Comma];
    let (rest, items) = many0(digit).parse(&toks).unwrap();
    assert_eq!(items, vec![1, 2]);
    assert_eq!(rest, &[Tok::Comma]);
}

#[test]
fn many0_empty_input() {
    let (rest, items) = many0(digit).parse(&EMPTY).unwrap();
    assert!(items.is_empty());
    assert!(rest.is_empty());
    let toks = [Tok::Comma];
    let (rest, items) = many0(digit).parse(&toks).unwrap();
    assert!(items.is_empty());
    assert_eq!(rest, &toks[..]);
}

#[test]
fn many0_stops_when_no_progress() {
    let toks = [Tok::Comma];
    let (rest, items) = many0(opt(digit)).parse(&toks).unwrap();
    assert_eq!(items, vec![None]);
    assert_eq!(rest, &toks[..]);
}

#[test]
fn many1_collects_all() {
    let toks = [Tok::Digit(1), Tok::Digit(2)];
    let (rest, items) = many1(digit).parse(&toks).unwrap();
    assert_eq!(items, vec![1, 2]);
    assert!(rest.is_empty());
}

#[test]
fn many1_first_failure_is_propagated() {
    let toks = [Tok::Comma, Tok::Digit(2)];
    let err = many1(digit).parse(&toks).unwrap_err();
    assert_eq!(err, digit(&toks).unwrap_err());
    let err = many1(digit).parse(&EMPTY).unwrap_err();
    assert_eq!(err, not_enough());
}

#[test]
fn opt_backtracks_on_failure() {
    let toks = [Tok::Comma];
    let (rest, out) = opt(digit).parse(&toks).unwrap();
    assert_eq!(out, None);
    assert_eq!(rest, &toks[..]);
    let toks = [Tok::Digit(4), Tok::Comma];
    let (rest, out) = opt(digit).parse(&toks).unwrap();
    assert_eq!(out, Some(4));
    assert_eq!(rest, &[Tok::Comma]);
}

#[test]
fn delimited_keeps_main_output() {
    let toks = [Tok::LParen, Tok::Digit(7), Tok::RParen, Tok::Comma];
    let (rest, out) = delimited(lparen, digit, rparen).parse(&toks).unwrap();
    assert_eq!(out, 7);
    assert_eq!(rest, &[Tok::Comma]);
}

#[test]
fn delimited_propagates_right_failure() {
    let toks = [Tok::LParen, Tok::Digit(7), Tok::Comma];
    let err = delimited(lparen, digit, rparen).parse(&toks).unwrap_err();
    assert_eq!(err, expected("rparen", Tok::Comma));
}

#[test]
fn map_identity_matches_inner() {
    let inputs: [&[Tok]; 3] = [&[Tok::Digit(3), Tok::Comma], &[Tok::Comma], &[]];
    for toks in inputs {
        let mapped = token_combinator::sequence::map(digit, |x: u8| x).parse(toks);
        assert_eq!(mapped, digit(toks));
    }
}

#[test]
fn map_transforms_output() {
    let toks = [Tok::Digit(3), Tok::Comma];
    let (rest, out) = token_combinator::sequence::map(digit, |x: u8| u32::from(x) * 10).parse(&toks).unwrap();
    assert_eq!(out, 30);
    assert_eq!(rest, &[Tok::Comma]);
}

#[test]
fn alt_reports_furthest_failure() {
    let toks = [Tok::Digit(1), Tok::Digit(2), Tok::Comma];
    let err = alt((two_digits_then_fail, token_combinator::sequence::map(comma, |_u: ()| 0u8))).parse(&toks).unwrap_err();
    assert_eq!(err.tokens_consumed, 2);
    assert_eq!(err.errors, vec![TokenParseErrorKind::Expects { expects: "rparen", found: Tok::Comma }]);
    let err = alt((token_combinator::sequence::map(comma, |_u: ()| 0u8), two_digits_then_fail)).parse(&toks).unwrap_err();
    assert_eq!(err.tokens_consumed, 2);
}

#[test]
fn alt_returns_first_success() {
    let toks = [Tok::Comma, Tok::Digit(1)];
    let (rest, out) = alt((digit, token_combinator::sequence::map(comma, |_u: ()| 99u8))).parse(&toks).unwrap();
    assert_eq!(out, 99);
    assert_eq!(rest, &[Tok::Digit(1)]);
    let toks = [Tok::RParen];
    let (rest, out) = alt((digit, token_combinator::sequence::map(comma, |_u: ()| 99u8), token_combinator::sequence::map(rparen, |_u: ()| 7u8))).parse(&toks).unwrap();
    assert_eq!(out, 7);
    assert!(rest.is_empty());
}

#[test]
fn alt_of_three_all_failing_keeps_first_on_tie() {
    let toks = [Tok::LParen];
    let err = alt((digit, token_combinator::sequence::map(comma, |_u: ()| 0u8), token_combinator::sequence::map(rparen, |_u: ()| 0u8))).parse(&toks).unwrap_err();
    assert_eq!(err, expected("digit", Tok::LParen));
}

#[test]
fn with_tokens_consumed_replaces_count() {
    let err = expected("digit", Tok::Comma).with_tokens_consumed(3);
    assert_eq!(err.tokens_consumed, 3);
    assert_eq!(err.errors, vec![TokenParseErrorKind::Expects { expects: "digit", found: Tok::Comma }]);
}
