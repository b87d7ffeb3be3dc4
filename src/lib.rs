//! A register machine whose programs are written in corporate-jargon phrases.
//!
//! Source lines are decoded into instructions against fixed tables of names
//! (`names`, `text`, `operand`, `operations`), collected into a `program` with its
//! label table, and carried out by one of two backends: the `interpreter`, which
//! runs lines on live registers, or `codegen`, which lowers the program into a
//! control-flow graph of basic blocks. `equivalence` proves that both print the same.

pub mod codegen;
pub mod equivalence;
pub mod error;
pub mod interpreter;
pub mod machine;
pub mod names;
pub mod operand;
pub mod operations;
pub mod program;
pub mod support;
pub mod text;
