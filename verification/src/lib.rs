//! An arithmetic expression calculator: tokenizer, precedence parser that
//! compiles to a stack program, and the state of a keypad front end.
pub mod calculator;
pub mod grammar;
pub mod keypad;
pub mod lexer;
pub mod parser;
pub mod program;
pub mod repl;
pub mod text;
