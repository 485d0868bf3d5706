//! An interpreter for a small rewriting language: a parser from source
//! text to expressions and statements, an arena that holds expressions as
//! reference-counted nodes, an evaluator over the arena, and the evaluation
//! of statements with modules and imports.

pub mod text;
pub mod strmap;
pub mod syntax;
pub mod lexer;
pub mod parse;
pub mod shunt;
pub mod grammar;
pub mod arena;
pub mod eval;
pub mod stmt_eval;
pub mod plat;
