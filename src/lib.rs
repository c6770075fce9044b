//! Combinators for recursive-descent parsers over pre-tokenized input.
//!
//! A parser takes the remaining tokens and returns the tokens it left
//! together with an output, or an error saying what was expected and how far
//! it got. Every parser of this crate implements [`TokenParser`], whose
//! contract says which results it may give; any function of the right shape
//! is a parser too, so leaf parsers that match one token are plain functions.

pub mod choice;
pub mod error;
pub mod laws;
pub mod list;
pub mod parser;
pub mod repeat;
pub mod sequence;

pub use choice::{alt, Alt};
pub use error::{TokenParseError, TokenParseErrorKind};
pub use list::{separated_list0, separated_list1, SeparatedList0, SeparatedList1};
pub use parser::{is_suffix, well_formed_result, TokenParseResult, TokenParser};
pub use repeat::{many0, many1, opt, Many0, Many1, Opt};
pub use sequence::{delimited, tuple, Delimited, MapParser, TokenMapper, Tuple};
