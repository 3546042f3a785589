//! An interpreter core for PPL, a small dynamically typed calculator
//! language: lexer, parser, runtime containers, type rules and the numeric
//! formatter, each with a machine-checked contract.

pub mod text;
pub mod utility;
pub mod symbols;
pub mod execution;
pub mod lexical;
pub mod parser;
pub mod workspace;
pub mod sequencer;
pub mod graphics;
