//! A minimal interpreter for a bracketed, Lisp-like expression language:
//! symbols, strings, integers, parenthesized calls and bracketed literal
//! lists, with a fixed set of built-in operators and a `fun`/`let`
//! mechanism for user-defined procedures and bindings.

pub mod ast;
pub mod env;
pub mod eval;
pub mod laws;
pub mod parser;
pub mod print;
pub mod semantics;

pub use ast::Atom;
pub use ast::Elem;
pub use env::Env;
pub use semantics::EvalError;
