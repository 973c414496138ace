pub mod riscv64;
