//! A small formula language: a tokenizer, a shunting-yard parser with
//! pluggable node-building strategies, and a tree-walking evaluator over
//! exact decimal numbers, with variable references resolved through a
//! caller-supplied context.
pub mod applicators;
pub mod calc;
pub mod ctx;
pub mod kipac;
pub mod laws;
pub mod lexer;
pub mod lisp;
pub mod num;
pub mod parser;
