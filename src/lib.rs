//! A small interpreter for an untyped lambda calculus with list literals and
//! three list primitives: a parser from text to expression trees and a
//! substitution-based reducer.
pub mod grammar;
pub mod laws;
pub mod parser;
pub mod reduce;
pub mod shape;
pub mod syntax;

pub use parser::{parse, parse_result, ParseError, ParseErrorKind};
pub use reduce::{eval, eval_bounded, evaluate, subst, EVAL_DEPTH};
pub use syntax::{Builtin, Exp, Term};
