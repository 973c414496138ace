# Ferrite

A capability-based microkernel for RISC-V (Sv48), with its rules written as
contracts and proved by Verus.

The library in `src/` is the kernel's logic. Physical memory is modelled as one
table per kind of object, keyed by address (`objects`), and the whole machine
state as one value (`kernel::State`). Each function says how it changes that
state.

| module | what it holds |
|---|---|
| `mm` | device tree memory, buddy allocator, slab cells |
| `cap` | rights, capabilities, CNodes, untyped memory, endpoints, notifications, interrupts |
| `thread`, `sched` | thread control blocks, the multi-level feedback queue |
| `arch::riscv64` | page tables, address spaces, traps, timer, PLIC, UART, SBI |
| `fs` | the RAM filesystem and its file descriptors |
| `syscall` | the native system calls |
| `linux_compat` | the Linux system calls |
| `elf`, `image`, `proc` | program images, and what loading them leaves in memory |
| `boot` | the boot stages |
| `user` | the programs, as machines that ask for system calls: the shell, the demos, the Linux self-test |

Functions named `law_*` state what holds across several operations: a page that
was mapped is found, bytes that were written are read back, a derived capability
never has more rights, freed memory coalesces, and so on.

`app/` runs the kernel: it reads the images, drives the trap loop and talks to
the devices. `tests/` runs the library.
