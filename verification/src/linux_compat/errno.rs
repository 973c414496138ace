//! Linux error numbers and constants.
use vstd::prelude::*;

verus! {

pub const ENOENT: i64 = -2;

pub const EBADF: i64 = -9;

pub const ECHILD: i64 = -10;

pub const ENOMEM: i64 = -12;

pub const EFAULT: i64 = -14;

pub const EEXIST: i64 = -17;

pub const ENOTDIR: i64 = -20;

pub const EINVAL: i64 = -22;

pub const ERANGE: i64 = -34;

pub const ENAMETOOLONG: i64 = -36;

pub const ENOSYS: i64 = -38;

/// Create the file if it does not exist.
pub const O_CREAT: u64 = 0o100;

/// Truncate an existing file.
pub const O_TRUNC: u64 = 0o1000;

/// Write at the end of the file.
pub const O_APPEND: u32 = 0o2000;

/// Paths are relative to the working directory.
pub const AT_FDCWD: i64 = -100;

/// The child shares the address space.
pub const CLONE_VM: u64 = 0x100;

/// Directory entry types.
pub const DT_DIR: u8 = 4;

pub const DT_REG: u8 = 8;

/// Modes of a directory, a file and the console.
pub const MODE_DIR: u64 = 0o040755;

pub const MODE_FILE: u64 = 0o100644;

pub const MODE_CONSOLE: u64 = 0o020600;

pub const MAX_PATH: usize = 256;

pub const MAX_ARGS: usize = 8;

pub const MAX_ARG_LEN: u64 = 64;

} // verus!
