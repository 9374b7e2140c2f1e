//! Front end of a small imperative "While" language: a tokenizer, a
//! recursive-descent parser and a compiler to a structured stack-machine code.

pub mod ast;
pub mod lexer;
pub mod names;
