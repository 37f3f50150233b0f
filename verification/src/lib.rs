//! A MIPS-I instruction-set emulator core: sparse little-endian memory, an
//! instruction decoder, the instruction semantics and the processor state
//! machine with its branch-delay slot and breakpoints.
//!
//! The engine performs no input or output itself.  Whenever the guest program
//! asks for a service of the host, or execution has to stop for any other
//! reason, the processor returns a [`cpu::Signal`] to its caller.  A trap
//! does not stop a run: the run records it for the caller and goes on.

pub mod cpu;
pub mod decoder;
pub mod executer;
pub mod instruction;
pub mod loader;
pub mod memory;
pub mod syscall;
pub mod text;
pub mod utils;
