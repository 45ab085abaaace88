//! Lexical-analysis front end for the Rune scripting language: turns raw
//! source text into an ordered sequence of typed tokens, with verified
//! position bookkeeping and literal sub-scanning.

pub mod error;
pub mod model;
pub mod props;
pub mod scanner;
pub mod token;
