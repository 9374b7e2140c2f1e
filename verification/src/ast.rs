//! From a statement tree to stack-machine code.

pub mod compiler;
pub mod syntax;
