//! A minimal monadic parser-combinator core.
//!
//! A [`Parser`] is a rule for consuming a prefix of a string and producing a
//! value, possibly in more than one way. Three primitives ([`result`],
//! [`zero`], [`item`]) and two combinators ([`Parser::seq`],
//! [`Parser::bind`]) build every parser; [`Parser::parse`] runs one.
//!
//! Running a parser gives every way of parsing, in order, each with the input
//! it left over; the empty vector is failure.
//!
//! - [`model`] says what each primitive and combinator means, as a function
//!   from an input to its outcomes.
//! - [`parser`] holds [`Parser`] and the functions that build and run one,
//!   each with a contract over [`model`].
//! - [`function`] names what an executable function means, for the parsers
//!   that are built from one.
//! - [`laws`] proves the algebra of the combinators.
//! - [`runs`] states, law by law, what running a parser returns.
//! - [`text`] takes the first character off an input.

pub mod function;
pub mod laws;
pub mod model;
pub mod parser;
mod rule;
pub mod runs;
pub mod text;

pub use parser::{item, result, zero, Parser};
