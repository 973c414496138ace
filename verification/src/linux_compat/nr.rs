//! Linux RISC-V system call numbers.
use vstd::prelude::*;

verus! {

pub const SYS_GETCWD: u64 = 17;

pub const SYS_DUP: u64 = 23;

pub const SYS_DUP3: u64 = 24;

pub const SYS_FCNTL: u64 = 25;

pub const SYS_IOCTL: u64 = 29;

pub const SYS_MKDIRAT: u64 = 34;

pub const SYS_UNLINKAT: u64 = 35;

pub const SYS_FACCESSAT: u64 = 48;

pub const SYS_CHDIR: u64 = 49;

pub const SYS_OPENAT: u64 = 56;

pub const SYS_CLOSE: u64 = 57;

pub const SYS_PIPE2: u64 = 59;

pub const SYS_GETDENTS64: u64 = 61;

pub const SYS_LSEEK: u64 = 62;

pub const SYS_READ: u64 = 63;

pub const SYS_WRITE: u64 = 64;

pub const SYS_WRITEV: u64 = 66;

pub const SYS_PPOLL: u64 = 73;

pub const SYS_READLINKAT: u64 = 78;

pub const SYS_NEWFSTATAT: u64 = 79;

pub const SYS_FSTAT: u64 = 80;

pub const SYS_EXIT: u64 = 93;

pub const SYS_EXIT_GROUP: u64 = 94;

pub const SYS_SET_TID_ADDR: u64 = 96;

pub const SYS_FUTEX: u64 = 98;

pub const SYS_SET_ROBUST_LIST: u64 = 99;

pub const SYS_CLOCK_GETTIME: u64 = 113;

pub const SYS_SCHED_YIELD: u64 = 124;

pub const SYS_KILL: u64 = 129;

pub const SYS_TKILL: u64 = 130;

pub const SYS_TGKILL: u64 = 131;

pub const SYS_RT_SIGACTION: u64 = 134;

pub const SYS_RT_SIGPROCMASK: u64 = 135;

pub const SYS_UNAME: u64 = 160;

pub const SYS_UMASK: u64 = 166;

pub const SYS_GETPID: u64 = 172;

pub const SYS_GETPPID: u64 = 173;

pub const SYS_GETUID: u64 = 174;

pub const SYS_GETEUID: u64 = 175;

pub const SYS_GETGID: u64 = 176;

pub const SYS_GETEGID: u64 = 177;

pub const SYS_GETTID: u64 = 178;

pub const SYS_BRK: u64 = 214;

pub const SYS_MUNMAP: u64 = 215;

pub const SYS_CLONE: u64 = 220;

pub const SYS_EXECVE: u64 = 221;

pub const SYS_MMAP: u64 = 222;

pub const SYS_MPROTECT: u64 = 226;

pub const SYS_WAIT4: u64 = 260;

pub const SYS_PRLIMIT64: u64 = 261;

} // verus!
