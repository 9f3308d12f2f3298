//! An interpreter for a small Lisp: tokenizer, parser, lexically scoped
//! environments and evaluator, with contracts proved by Verus.
//!
//! A line of text goes through `tokenize`, `read_numbers` and `parse` to an
//! expression, and through `eval` to a value; `parse_eval` does all of it.
//! Numbers are double-precision floats held as bit patterns. Which tokens
//! are numbers is decided here; the arithmetic on numbers, their decimal
//! notation and the native procedures of the program around the interpreter
//! come from its `Host`.

pub mod display;
pub mod env;
pub mod eval;
pub mod host;
pub mod http;
pub mod interp;
pub mod jsontypes;
pub mod laws;
pub mod lexer;
pub mod lists;
pub mod math;
pub mod numeral;
pub mod parser;
pub mod registry;
pub mod text;
pub mod types;

pub use env::RispEnv;
pub use eval::eval;
pub use host::Host;
pub use interp::{parse_eval, DEFAULT_DEPTH};
pub use lexer::tokenize;
pub use parser::{parse, read_numbers, Token};
pub use registry::default_env;
pub use types::{RispErr, RispExp, RispFunc, RispLambda, Relation};
