//! A lossless parser for the lfr language: source text is cut into tokens,
//! the tokens are parsed into a flat list of events, and the events are built
//! into a green tree that keeps every byte of the input.

pub mod green;
pub mod hir;
pub mod lexer;
pub mod parser;
pub mod round_trip;
pub mod span;
pub mod stdx;
pub mod syntax_kind;
