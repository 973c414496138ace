//! Error codes that a system call returns in a0.
use vstd::prelude::*;

verus! {

pub const OK: u64 = 0;

pub const INVALID_CAPABILITY: u64 = 1;

pub const ILLEGAL_OPERATION: u64 = 2;

pub const INVALID_ARGUMENT: u64 = 3;

pub const FAILED_LOOKUP: u64 = 4;

pub const NOT_ENOUGH_MEMORY: u64 = 5;

} // verus!
