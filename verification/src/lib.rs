//! A stack-based bytecode virtual machine over a flat 4 KiB memory.
//!
//! A program image is a magic header followed by up to 4096 bytes that become
//! the machine's memory. Instructions are 32-bit words fetched little-endian
//! at the program counter; data words are pushed, popped and peeked
//! big-endian at the stack pointer, which starts one past the last byte and
//! grows downwards.
//!
//! The machine performs no I/O of its own: lines of input are handed to it
//! with [`VirtualMachine::feed_line`] and what the program prints collects in
//! a buffer that [`VirtualMachine::take_output`] drains.

pub mod arith;
pub mod chunks;
pub mod decode;
pub mod error;
pub mod instructions;
pub mod laws;
pub mod machine;
pub mod parse;
pub mod report;
pub mod state;
pub mod text;
pub mod word;

pub use error::VmError;
pub use machine::VirtualMachine;
pub use state::State;
