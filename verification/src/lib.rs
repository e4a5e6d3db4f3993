//! A small scripting language in three stages: a scanner that turns source
//! text into tokens, a recursive-descent parser that turns tokens into
//! statements, and a tree-walking evaluator that runs them.
//!
//! Every stage is specified by a mathematical model over sequences of
//! characters and tokens, and the executable code is proved to agree with it.

pub mod text;
pub mod token_type;
pub mod scanner;
pub mod expr;
pub mod stmt;
pub mod value;
pub mod environment;
pub mod parser;
pub mod interpreter;
pub mod pipeline;
pub mod determinism;
