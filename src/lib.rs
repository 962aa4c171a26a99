//! A small expression language: untyped lambda terms with arithmetic, booleans,
//! conditionals and top-level bindings, with its parser, its type checker and
//! its evaluator.
//!
//! - `ast`: the syntax tree and its mathematical model.
//! - `grammar`: the grammar, as spec functions; `parse`: the parser, proved
//!   to compute them.
//! - `type_check`: static types and the checker; `value` and `eval`: runtime
//!   values and the evaluator. Each is proved against a spec semantics.
//! - `program`: threading environments across the statements of a program.
pub mod ast;
pub mod grammar;
pub mod parse;
pub mod type_check;
pub mod value;
pub mod eval;
pub mod program;
