//! A small Lisp-family language kernel: a parser from s-expression text to
//! values, and an evaluator over a stack of lexical scopes with a table of
//! named operations.
pub mod builtins;
pub mod depth;
pub mod environment;
pub mod error;
pub mod eval;
pub mod laws;
pub mod parser;
pub mod semantics;
mod text;
pub mod value;

pub use builtins::configure;
pub use environment::{Closure, Defun, Environment, Function};
pub use error::{EvalError, Mismatch, ParserError};
pub use eval::EvalResult;
pub use parser::{
    parse, BracketParser, IntegerParser, Parser, ParserCheckResult, ParserResult, SpecialParser,
    StringParser, SymbolParser,
};
pub use semantics::Builtin;
pub use value::{Integer, Quote, Symbol, Value};
