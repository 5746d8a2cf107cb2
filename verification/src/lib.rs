//! A toolchain for the Hack computer: a two-pass assembler, a translator from
//! the stack-based VM language to Hack assembly, and the core of a CPU
//! emulator. Every function is verified against a contract stated over
//! mathematical models of its data.
pub mod assembler;
pub mod emulator;
pub mod text;
pub mod vm_translator;
