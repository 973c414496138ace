//! Invocation labels, passed in a1.
use vstd::prelude::*;

verus! {

pub const UNTYPED_RETYPE: u64 = 1;

pub const CAP_IDENTIFY: u64 = 9;

pub const CNODE_COPY: u64 = 10;

pub const CNODE_MOVE: u64 = 11;

pub const CNODE_MINT: u64 = 12;

pub const CNODE_DELETE: u64 = 13;

pub const CNODE_REVOKE: u64 = 14;

pub const THREAD_RESUME: u64 = 20;

pub const THREAD_SUSPEND: u64 = 21;

pub const THREAD_CONFIGURE: u64 = 22;

/// Terminate the calling thread.
pub const THREAD_EXIT: u64 = 30;

pub const ENDPOINT_SEND: u64 = 40;

pub const ENDPOINT_RECV: u64 = 41;

pub const ENDPOINT_CALL: u64 = 42;

/// Reply to a Call; needs no capability slot.
pub const ENDPOINT_REPLY: u64 = 43;

/// Reply and receive in one step.
pub const ENDPOINT_REPLY_RECV: u64 = 44;

pub const NOTIF_SIGNAL: u64 = 50;

pub const NOTIF_WAIT: u64 = 51;

/// Mint an interrupt-handler capability.
pub const IRQ_ISSUE_HANDLER: u64 = 60;

/// Re-enable an interrupt source.
pub const IRQ_ACK: u64 = 61;

/// Map a frame into the caller's address space.
pub const FRAME_MAP: u64 = 70;

/// a2 = path, a3 = its length; returns a1 = descriptor.
pub const FS_OPEN: u64 = 200;

/// a2 = descriptor.
pub const FS_CLOSE: u64 = 201;

/// a2 = descriptor, a3 = buffer, a4 = its length; returns a1 = bytes read.
pub const FS_READ: u64 = 202;

/// a2 = descriptor, a3 = buffer, a4 = its length; returns a1 = bytes written.
pub const FS_WRITE: u64 = 203;

/// a2 = path, a3 = its length.
pub const FS_MKDIR: u64 = 204;

/// a2 = descriptor, a3 = buffer, a4 = its length; returns a1 = name length, 0
/// at the end.
pub const FS_READDIR: u64 = 205;

/// a2 = path, a3 = its length; returns a1 = kind, a2 = size.
pub const FS_STAT: u64 = 206;

/// a2 = path, a3 = its length; returns a1 = descriptor.
pub const FS_CREATE: u64 = 208;

/// a2 = path, a3 = its length.
pub const FS_UNLINK: u64 = 209;

/// a2 = path, a3 = its length, a4 = new path, a5 = its length.
pub const FS_RENAME: u64 = 210;

/// a2 = name, a3 = its length, a4 = slot for the thread capability.
pub const PROC_SPAWN: u64 = 300;

/// a0 = thread capability; returns a1 = exit code.
pub const PROC_WAIT: u64 = 301;

/// As `PROC_SPAWN`, for a program that follows the Linux ABI.
pub const PROC_LINUX_SPAWN: u64 = 310;

pub const DEBUG_PUTCHAR: u64 = 10_000;

/// Blocking single-byte read.
pub const CONSOLE_GETCHAR: u64 = 10_001;

} // verus!
