//! Ferrite: the verified core of a small capability microkernel for RV64.
//!
//! Machine words and addresses are `u64`, the width of the machine. The kernel
//! is one value, the `Kernel`, and every entry point is a function on it.
//! What the kernel wants done to the hardware (bytes to transmit, interrupt
//! sources to unmask, a TLB flush) is left in that value for the caller to act on.
pub mod arch;
pub mod boot;
pub mod bytes;
pub mod cap;
pub mod console;
pub mod decimal;
pub mod elf;
pub mod fs;
pub mod image;
pub mod kernel;
pub mod keystrokes;
pub mod linux_compat;
pub mod mm;
pub mod objects;
pub mod path;
pub mod proc;
pub mod sched;
pub mod startup;
pub mod syscall;
pub mod thread;
pub mod user;
