//! Sequence: a small interpreted language in which every variable is an
//! append-only history of every value it has ever held.
//!
//! The crate holds the language front end and the execution engine: the
//! lexer, the recursive-descent parser, the history-based memory model, the
//! expression evaluator and the statement executor.  Expressions can reach
//! back into a variable's history (`prev`, indexed accessors, length), and
//! `run` invokes a sub-program with histories shared by reference.
//!
//! Floating-point values travel through the engine as IEEE 754 bit
//! patterns; the floating-point operations themselves are supplied by the
//! embedding application through [`float_ops::FloatOps`].  Every contract
//! here pins integer, boolean and string results exactly and states what
//! holds for any float the host hands back.

pub mod arith;
pub mod decimal;
pub mod executor;
pub mod expr;
pub mod float_ops;
pub mod grammar;
pub mod interpreter;
pub mod laws;
pub mod lexer;
pub mod parse;
pub mod parsing_types;
pub mod runtime_types;
pub mod statement;
pub mod user_options;
pub mod variable_type;
