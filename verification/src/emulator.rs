//! The core of the Hack CPU emulator: instruction decoding, the ALU, the
//! single-cycle executor, the memory, and the screen pipeline.
pub mod alu;
pub mod chipset;
pub mod computer;
pub mod cpu;
pub mod events;
pub mod instruction;
pub mod keyboard;
pub mod loader;
pub mod ram;
pub mod cpu_thread;
pub mod screen;
