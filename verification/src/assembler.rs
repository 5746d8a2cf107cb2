//! The two-pass assembler: from Hack assembly text to machine words.
pub mod token;
pub mod parser;
pub mod code;
pub mod encoding;
