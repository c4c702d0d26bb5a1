//! A parser for a small expression-and-statement language.
//!
//! Source text is turned into a tree of [`Node`] values by a grammar of
//! ordered alternatives: of several rules that could apply, the first that
//! matches wins. There is no separate lexer; the rules read characters.
//!
//! * [`grammar`] defines every rule as a mathematical function on sequences
//!   of characters.
//! * [`parser`] holds the executable parsers, one for each rule, each proved
//!   to compute its rule. [`parse`] reads a whole text.
//! * [`laws`] proves what holds on every text: matches step forward and
//!   yield well-formed trees, a whole text is accepted exactly when a program
//!   covers it, and equal texts have equal results.
//! * [`ast`] and [`error`] hold the tree and the failures, [`chars`] the
//!   character classes, and [`scan`] the scanning steps, which rest on the
//!   recognisers of `nom`.

pub mod ast;
pub mod chars;
pub mod error;
pub mod grammar;
pub mod laws;
pub mod parser;
pub mod scan;

pub use ast::Node;
pub use error::{Delimiter, Expected, ParseError, Token};
pub use parser::{
    arguments, boolean, comment, expression, function_call, function_definition, function_return,
    identifier, l1, l1_infix, l2, l2_infix, l3, l3_infix, l4, math_expression, number, parse,
    parenthetical_expression, program, statement, string, variable_define,
};
