//! A small concatenative stack language: a parser that turns source text into
//! resolved expressions, and a stack-based evaluator with call-by-name bindings.

mod text;
pub mod value;
pub mod error;
pub mod machine;
pub mod eval;
pub mod builtins;
pub mod parser;
pub mod laws;

pub use error::{Error, ErrorKind};
pub use eval::Evaluator;
pub use machine::RealOp;
pub use parser::Parser;
pub use value::{Builtin, Expr, ExprT, Kind, Value};
