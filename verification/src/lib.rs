//! A list-of-successes parser-combinator library.
//!
//! A [`value::Value`] is what a parser produces; a [`parser::Parser`] is a
//! composable matching rule over slices of characters. Applying a parser to an
//! input slice yields every way the rule can match a prefix of that input,
//! each paired with the unconsumed suffix. The combinators in [`parser`]
//! build parsers without touching any input; [`grammar`] composes them into
//! character-level parsers and a small turtle-graphics command language.
//!
//! What the combinators yield — under mapping, pure parsers, ordered choice,
//! repetition, literal strings, and on canonically rendered command
//! sequences — is proved once and for all in [`laws`].

pub mod grammar;
pub mod laws;
pub mod maybe;
pub mod ops;
pub mod parser;
pub mod value;
