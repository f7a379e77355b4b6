//! A small parser-combinator library over `&str`.
//!
//! A parser takes a prefix off its input and gives a value for it, or fails
//! and hands the input back untouched. Every parser states, as relations over
//! sequences of characters, which outcomes it can have; the combinators state
//! theirs in terms of those of the parsers they are built from.

pub mod combinators;
pub mod element;
pub mod laws;
pub mod parser;
pub mod primitives;
pub mod repetition;

pub use combinators::{left, pair, right, Left, Mapped, Pair, Right};
pub use element::Element;
pub use parser::{ParseResult, Parser};
pub use primitives::{identifier, match_literal, the_letter_a, Literal};
pub use repetition::{one_or_more, repetition, zero_or_more, Repetition};
