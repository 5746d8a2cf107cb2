//! Translation of the stack-based VM language into Hack assembly.
pub mod code;
pub mod ir;
pub mod parser;
pub mod peephole;
pub mod templates;
pub mod token;
