pub mod mmu;
pub mod plic;
pub mod resume;
pub mod smp;
pub mod space;
pub mod timer;
pub mod trap;
pub mod uart;
pub mod vspace;
pub mod walk;
