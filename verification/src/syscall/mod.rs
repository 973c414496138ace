//! The system-call dispatcher.
//!
//! Register convention: a0 = capability slot, a1 = invocation label, a2 to a7 =
//! message words; the reply goes to a0 to a7. For blocking IPC the frame may be
//! replaced by the context of another thread.
pub mod error;
pub mod invocations;
pub mod invoke;
pub mod label;
pub mod launches;
pub mod refusals;
pub mod removals;
pub mod spawn;
pub mod transfers;

use crate::arch::riscv64::trap::{self, TrapFrame};
use crate::arch::riscv64::vspace;
use crate::bytes;
use crate::cap::cnode;
use crate::cap::endpoint;
use crate::cap::Cap;
use crate::console;
use crate::fs::ramfs::{self, FsError};
use crate::kernel::{self, fresh_page, Kernel, State};
use crate::objects;
use crate::sched;
use crate::thread::Tcb;
use vstd::prelude::*;

verus! {

/// A reply that carries an error code only.
pub open spec fn coded(code: u64) -> [u64; 8] {
    [code, 0, 0, 0, 0, 0, 0, 0]
}

/// A successful reply with one value.
pub open spec fn answered(v: u64) -> [u64; 8] {
    [error::OK, v, 0, 0, 0, 0, 0, 0]
}

pub(crate) fn err(code: u64) -> (r: [u64; 8])
    ensures
        r == coded(code),
{
    [code, 0, 0, 0, 0, 0, 0, 0]
}

pub(crate) fn ok(v: u64) -> (r: [u64; 8])
    ensures
        r == answered(v),
{
    [error::OK, v, 0, 0, 0, 0, 0, 0]
}

/// Error code of a filesystem error.
pub open spec fn fs_code(e: FsError) -> u64 {
    match e {
        FsError::NotFound => error::INVALID_CAPABILITY,
        FsError::InvalidPath => error::INVALID_CAPABILITY,
        FsError::Exists => error::ILLEGAL_OPERATION,
        FsError::NoMemory => error::NOT_ENOUGH_MEMORY,
        _ => error::INVALID_ARGUMENT,
    }
}

fn fs_err(e: FsError) -> (r: u64)
    ensures
        r == fs_code(e),
{
    match e {
        FsError::NotFound => error::INVALID_CAPABILITY,
        FsError::InvalidPath => error::INVALID_CAPABILITY,
        FsError::Exists => error::ILLEGAL_OPERATION,
        FsError::NoMemory => error::NOT_ENOUGH_MEMORY,
        _ => error::INVALID_ARGUMENT,
    }
}

/// Root of the caller's address space.
pub open spec fn caller_pgd(s: State) -> u64 {
    let cur = sched::current(s);
    vspace::pgd_of(
        if cur != 0 {
            kernel::tcb(s, cur).satp
        } else {
            s.boot_satp
        },
    )
}

/// Physical address of the caller's address `va`.
pub open spec fn caller_pa(s: State, va: u64) -> Option<u64> {
    vspace::translated(s.ptes, caller_pgd(s), va)
}

/// The `len` bytes at the caller's address `va`.
pub open spec fn caller_bytes(s: State, va: u64, len: u64) -> Option<Seq<u8>> {
    match caller_pa(s, va) {
        None => None,
        Some(pa) => Some(kernel::loaded(s.bytes, pa, len as nat)),
    }
}

/// The caller's CSpace.
pub open spec fn caller_cspace(s: State) -> (u64, u64) {
    let cur = sched::current(s);
    if cur != 0 {
        endpoint::cspace_for(s, kernel::tcb(s, cur))
    } else {
        (s.root_pa, s.root_sb)
    }
}

/// Getting the caller's descriptor table, which is created on first use.
pub open spec fn fd_table_got(s: State) -> (State, Option<u64>) {
    let cur = sched::current(s);
    if cur == 0 {
        (s, None)
    } else {
        let t = kernel::tcb(s, cur);
        if t.fd_table_pa != 0 {
            (s, Some(t.fd_table_pa))
        } else {
            let (s1, page) = kernel::page_made(s);
            match page {
                None => (s1, None),
                Some(pa) => (
                    kernel::with_tcb(
                        s1,
                        cur,
                        Tcb { fd_table_pa: pa, ..kernel::tcb(s1, cur) },
                    ),
                    Some(pa),
                ),
            }
        }
    }
}

pub(crate) fn user_pa(k: &Kernel, va: u64) -> (r: Option<u64>)
    requires
        k.wf(),
    ensures
        r == caller_pa(k@, va),
{
    let cur: u64 = sched::current_pa(k);
    let satp: u64 = if cur != 0 {
        k.tcb(cur).satp
    } else {
        k.boot_satp
    };
    vspace::va_to_pa(k, vspace::satp_to_pgd_pa(satp), va)
}

pub(crate) fn user_slice(k: &Kernel, va: u64, len: u64) -> (r: Option<Vec<u8>>)
    requires
        k.wf(),
    ensures
        match caller_bytes(k@, va, len) {
            None => r is None,
            Some(b) => r is Some && r->0@ == b,
        },
{
    match user_pa(k, va) {
        None => None,
        Some(pa) => Some(k.read_bytes(pa, len)),
    }
}

pub(crate) fn current_cspace(k: &Kernel) -> (r: (u64, u64))
    requires
        k.wf(),
    ensures
        r == caller_cspace(k@),
        r.1 < 64,
{
    let cur: u64 = sched::current_pa(k);
    if cur != 0 {
        let t: Tcb = k.tcb(cur);
        endpoint::cspace_of(k, &t)
    } else {
        (k.root_pa, k.root_sb)
    }
}

fn get_fd_table(k: &mut Kernel) -> (r: Option<u64>)
    requires
        old(k).wf(),
    ensures
        final(k).wf(),
        (final(k)@, r) == fd_table_got(old(k)@),
{
    let cur: u64 = sched::current_pa(k);
    if cur == 0 {
        return None;
    }
    let fd_table_pa: u64 = k.tcb(cur).fd_table_pa;
    if fd_table_pa != 0 {
        return Some(fd_table_pa);
    }
    match fresh_page(k) {
        None => None,
        Some(pa) => {
            let mut t: Tcb = k.tcb(cur);
            t.fd_table_pa = pa;
            k.set_tcb(cur, t);
            Some(pa)
        },
    }
}

/// Giving an inode a descriptor of the caller.
pub open spec fn opened(s: State, inode_pa: u64) -> (State, [u64; 8]) {
    let (s1, table) = fd_table_got(s);
    match table {
        None => (s1, coded(error::NOT_ENOUGH_MEMORY)),
        Some(t) => {
            let (s2, fd) = ramfs::fd_allocated(s1, t, inode_pa, 0);
            match fd {
                None => (s2, coded(error::ILLEGAL_OPERATION)),
                Some(fd) => (s2, answered(fd as u64)),
            }
        },
    }
}

fn open_inode(k: &mut Kernel, inode_pa: u64) -> (r: [u64; 8])
    requires
        old(k).wf(),
    ensures
        final(k).wf(),
        (final(k)@, r) == opened(old(k)@, inode_pa),
{
    match get_fd_table(k) {
        None => err(error::NOT_ENOUGH_MEMORY),
        Some(t) => match ramfs::fd_alloc(k, t, inode_pa, 0) {
            None => err(error::ILLEGAL_OPERATION),
            Some(fd) => ok(fd as u64),
        },
    }
}

/// FS_OPEN.
pub open spec fn open_served(s: State, va: u64, len: u64) -> (State, [u64; 8]) {
    match caller_bytes(s, va, len) {
        None => (s, coded(error::FAILED_LOOKUP)),
        Some(p) => match ramfs::found(s, p) {
            None => (s, coded(error::INVALID_CAPABILITY)),
            Some(pa) => opened(s, pa),
        },
    }
}

fn serve_open(k: &mut Kernel, va: u64, len: u64) -> (r: [u64; 8])
    requires
        old(k).wf(),
    ensures
        final(k).wf(),
        (final(k)@, r) == open_served(old(k)@, va, len),
{
    match user_slice(k, va, len) {
        None => err(error::FAILED_LOOKUP),
        Some(p) => match ramfs::fs_open(k, &p) {
            None => err(error::INVALID_CAPABILITY),
            Some(pa) => open_inode(k, pa),
        },
    }
}

/// FS_CREATE.
pub open spec fn create_served(s: State, va: u64, len: u64) -> (State, [u64; 8]) {
    match caller_bytes(s, va, len) {
        None => (s, coded(error::FAILED_LOOKUP)),
        Some(p) => {
            let (s1, r) = ramfs::file_made(s, p);
            match r {
                Err(e) => (s1, coded(fs_code(e))),
                Ok(pa) => opened(s1, pa),
            }
        },
    }
}

fn serve_create(k: &mut Kernel, va: u64, len: u64) -> (r: [u64; 8])
    requires
        old(k).wf(),
    ensures
        final(k).wf(),
        (final(k)@, r) == create_served(old(k)@, va, len),
{
    match user_slice(k, va, len) {
        None => err(error::FAILED_LOOKUP),
        Some(p) => match ramfs::fs_create(k, &p) {
            Err(e) => err(fs_err(e)),
            Ok(pa) => open_inode(k, pa),
        },
    }
}

/// FS_CLOSE.
pub open spec fn close_served(s: State, fd: u64) -> (State, [u64; 8]) {
    let (s1, table) = fd_table_got(s);
    match table {
        None => (s1, coded(error::OK)),
        Some(t) => (ramfs::fd_closed(s1, t, fd), coded(error::OK)),
    }
}

fn serve_close(k: &mut Kernel, fd: u64) -> (r: [u64; 8])
    requires
        old(k).wf(),
    ensures
        final(k).wf(),
        (final(k)@, r) == close_served(old(k)@, fd),
{
    if let Some(t) = get_fd_table(k) {
        ramfs::fd_close(k, t, fd);
    }
    err(error::OK)
}

/// What reading a descriptor does: the bytes go to the buffer and the position
/// moves past them.
pub open spec fn read_done(s: State, t: u64, fd: u64, e: ramfs::FdEntry, pa: u64, len: u64) -> (
    State,
    u64,
) {
    let data = ramfs::file_bytes(s, e.inode_pa, e.offset, len as int);
    let s1 = kernel::with_bytes(s, pa, data);
    (ramfs::fd_advanced(s1, t, fd, data.len() as u64), data.len() as u64)
}

/// FS_READ.
pub open spec fn read_served(s: State, fd: u64, va: u64, len: u64) -> (State, [u64; 8]) {
    let (s1, table) = fd_table_got(s);
    match table {
        None => (s1, coded(error::INVALID_ARGUMENT)),
        Some(t) => match ramfs::fd_entry(s1, t, fd) {
            None => (s1, coded(error::INVALID_ARGUMENT)),
            Some(e) => match caller_pa(s1, va) {
                None => (s1, coded(error::FAILED_LOOKUP)),
                Some(pa) => {
                    let (s2, n) = read_done(s1, t, fd, e, pa, len);
                    (s2, answered(n))
                },
            },
        },
    }
}

/// Read up to `len` bytes of a file at `offset`.
pub(crate) fn read_file(k: &Kernel, inode_pa: u64, offset: u64, len: u64) -> (r: Vec<u8>)
    ensures
        r@ == ramfs::file_bytes(k@, inode_pa, offset, len as int),
{
    let size: u64 = ramfs::inode_size(k, inode_pa);
    let most: u64 = if len < size {
        len
    } else {
        size
    };
    let mut buf: Vec<u8> = Vec::new();
    let mut i: u64 = 0;
    while i < most
        invariant
            i <= most,
            buf@.len() == i,
        decreases most - i,
    {
        buf.push(0);
        i += 1;
    }
    let n: usize = ramfs::fs_read(k, inode_pa, offset, &mut buf);
    let r = bytes::copied(&buf, 0, n);
    assert(r@ =~= ramfs::file_bytes(k@, inode_pa, offset, len as int));
    r
}

fn serve_read(k: &mut Kernel, fd: u64, va: u64, len: u64) -> (r: [u64; 8])
    requires
        old(k).wf(),
    ensures
        final(k).wf(),
        (final(k)@, r) == read_served(old(k)@, fd, va, len),
{
    let t: u64 = match get_fd_table(k) {
        Some(t) => t,
        None => {
            return err(error::INVALID_ARGUMENT);
        },
    };
    let e: ramfs::FdEntry = match ramfs::fd_get(k, t, fd) {
        Some(e) => e,
        None => {
            return err(error::INVALID_ARGUMENT);
        },
    };
    match user_pa(k, va) {
        None => err(error::FAILED_LOOKUP),
        Some(pa) => {
            let data: Vec<u8> = read_file(k, e.inode_pa, e.offset, len);
            let n: u64 = data.len() as u64;
            k.write_bytes(pa, &data);
            ramfs::fd_advance(k, t, fd, n);
            ok(n)
        },
    }
}

/// FS_WRITE.
pub open spec fn write_served(s: State, fd: u64, va: u64, len: u64) -> (State, [u64; 8]) {
    let (s1, table) = fd_table_got(s);
    match table {
        None => (s1, coded(error::INVALID_ARGUMENT)),
        Some(t) => match ramfs::fd_entry(s1, t, fd) {
            None => (s1, coded(error::INVALID_ARGUMENT)),
            Some(e) => match caller_bytes(s1, va, len) {
                None => (s1, coded(error::FAILED_LOOKUP)),
                Some(data) => {
                    let (s2, r) = ramfs::file_written(s1, e.inode_pa, e.offset, data);
                    match r {
                        Err(_) => (s2, coded(error::ILLEGAL_OPERATION)),
                        Ok(n) => (ramfs::fd_advanced(s2, t, fd, n), answered(n)),
                    }
                },
            },
        },
    }
}

fn write_file(k: &mut Kernel, inode_pa: u64, offset: u64, pa: u64, len: u64) -> (r: Result<
    u64,
    FsError,
>)
    requires
        old(k).wf(),
    ensures
        final(k).wf(),
        ({
            let data = kernel::loaded(old(k)@.bytes, pa, len as nat);
            (final(k)@, r) == ramfs::file_written(old(k)@, inode_pa, offset, data)
        }),
{
    // A file takes at most a page, so no more than a page is looked at.
    let most: u64 = if len < 4096 {
        len
    } else {
        4096
    };
    let data: Vec<u8> = k.read_bytes(pa, most);
    proof {
        let full = kernel::loaded(k@.bytes, pa, len as nat);
        assert forall|n: int| 0 <= n <= most implies #[trigger] data@.take(n) == full.take(n) by {
            assert(data@.take(n) =~= full.take(n));
        }
    }
    ramfs::fs_write(k, inode_pa, offset, &data)
}

fn serve_write(k: &mut Kernel, fd: u64, va: u64, len: u64) -> (r: [u64; 8])
    requires
        old(k).wf(),
    ensures
        final(k).wf(),
        (final(k)@, r) == write_served(old(k)@, fd, va, len),
{
    let t: u64 = match get_fd_table(k) {
        Some(t) => t,
        None => {
            return err(error::INVALID_ARGUMENT);
        },
    };
    let e: ramfs::FdEntry = match ramfs::fd_get(k, t, fd) {
        Some(e) => e,
        None => {
            return err(error::INVALID_ARGUMENT);
        },
    };
    match user_pa(k, va) {
        None => err(error::FAILED_LOOKUP),
        Some(pa) => match write_file(k, e.inode_pa, e.offset, pa, len) {
            Err(_) => err(error::ILLEGAL_OPERATION),
            Ok(n) => {
                ramfs::fd_advance(k, t, fd, n);
                ok(n)
            },
        },
    }
}

/// FS_MKDIR.
pub open spec fn mkdir_served(s: State, va: u64, len: u64) -> (State, [u64; 8]) {
    match caller_bytes(s, va, len) {
        None => (s, coded(error::FAILED_LOOKUP)),
        Some(p) => {
            let (s1, r) = ramfs::dir_made(s, p);
            match r {
                Err(e) => (s1, coded(fs_code(e))),
                Ok(_) => (s1, coded(error::OK)),
            }
        },
    }
}

fn serve_mkdir(k: &mut Kernel, va: u64, len: u64) -> (r: [u64; 8])
    requires
        old(k).wf(),
    ensures
        final(k).wf(),
        (final(k)@, r) == mkdir_served(old(k)@, va, len),
{
    match user_slice(k, va, len) {
        None => err(error::FAILED_LOOKUP),
        Some(p) => match ramfs::fs_mkdir(k, &p) {
            Err(e) => err(fs_err(e)),
            Ok(_) => err(error::OK),
        },
    }
}

/// FS_READDIR: the name of the next entry goes to the buffer, and the position
/// moves to the one after it.
pub open spec fn readdir_served(s: State, fd: u64, va: u64, len: u64) -> (State, [u64; 8]) {
    let (s1, table) = fd_table_got(s);
    match table {
        None => (s1, coded(error::INVALID_ARGUMENT)),
        Some(t) => match ramfs::fd_entry(s1, t, fd) {
            None => (s1, coded(error::INVALID_ARGUMENT)),
            Some(e) => match caller_pa(s1, va) {
                None => (s1, coded(error::FAILED_LOOKUP)),
                Some(pa) => match ramfs::listed_entry(s1, e.inode_pa, e.offset) {
                    None => (s1, answered(0)),
                    Some(d) => {
                        let n = ramfs::listing_len(d, len as int);
                        let s2 = kernel::with_bytes(s1, pa, ramfs::listing(d, len as int));
                        (
                            if n > 0 {
                                ramfs::fd_advanced(s2, t, fd, 1)
                            } else {
                                s2
                            },
                            answered(n as u64),
                        )
                    },
                },
            },
        },
    }
}

fn serve_readdir(k: &mut Kernel, fd: u64, va: u64, len: u64) -> (r: [u64; 8])
    requires
        old(k).wf(),
    ensures
        final(k).wf(),
        (final(k)@, r) == readdir_served(old(k)@, fd, va, len),
{
    let t: u64 = match get_fd_table(k) {
        Some(t) => t,
        None => {
            return err(error::INVALID_ARGUMENT);
        },
    };
    let e: ramfs::FdEntry = match ramfs::fd_get(k, t, fd) {
        Some(e) => e,
        None => {
            return err(error::INVALID_ARGUMENT);
        },
    };
    let pa: u64 = match user_pa(k, va) {
        None => {
            return err(error::FAILED_LOOKUP);
        },
        Some(pa) => pa,
    };
    let room: usize = if len < 54 {
        len as usize
    } else {
        54
    };
    match ramfs::list_entry(k, e.inode_pa, e.offset, room) {
        None => ok(0),
        Some((name, n)) => {
            proof {
                let d = ramfs::listed_entry(k@, e.inode_pa, e.offset)->0;
                if len >= 54 {
                    ramfs::lemma_listing_room(d, len as int);
                }
            }
            k.write_bytes(pa, &name);
            if n > 0 {
                ramfs::fd_advance(k, t, fd, 1);
            }
            ok(n as u64)
        },
    }
}

/// FS_STAT.
pub open spec fn stat_served(s: State, va: u64, len: u64) -> [u64; 8] {
    match caller_bytes(s, va, len) {
        None => coded(error::FAILED_LOOKUP),
        Some(p) => match ramfs::found(s, p) {
            None => coded(error::INVALID_CAPABILITY),
            Some(pa) => {
                let n = ramfs::inode(s, pa);
                [error::OK, n.kind.code() as u64, n.size, 0, 0, 0, 0, 0]
            },
        },
    }
}

fn serve_stat(k: &Kernel, va: u64, len: u64) -> (r: [u64; 8])
    requires
        k.wf(),
    ensures
        r == stat_served(k@, va, len),
{
    match user_slice(k, va, len) {
        None => err(error::FAILED_LOOKUP),
        Some(p) => match ramfs::lookup_path(k, &p) {
            None => err(error::INVALID_CAPABILITY),
            Some(pa) => {
                let kind: u8 = ramfs::inode_kind(k, pa).to_u8();
                [error::OK, kind as u64, ramfs::inode_size(k, pa), 0, 0, 0, 0, 0]
            },
        },
    }
}

/// The error code of a removal that failed: a directory with entries is not a
/// thing to remove.
pub open spec fn unlink_code(e: FsError) -> u64 {
    match e {
        FsError::NotEmpty => error::ILLEGAL_OPERATION,
        _ => fs_code(e),
    }
}

/// FS_UNLINK.
pub open spec fn unlink_served(s: State, va: u64, len: u64) -> (State, [u64; 8]) {
    match caller_bytes(s, va, len) {
        None => (s, coded(error::FAILED_LOOKUP)),
        Some(p) => {
            let (s1, r) = ramfs::unlinked(s, p);
            match r {
                Err(e) => (s1, coded(unlink_code(e))),
                Ok(_) => (s1, coded(error::OK)),
            }
        },
    }
}

fn serve_unlink(k: &mut Kernel, va: u64, len: u64) -> (r: [u64; 8])
    requires
        old(k).wf(),
    ensures
        final(k).wf(),
        (final(k)@, r) == unlink_served(old(k)@, va, len),
{
    match user_slice(k, va, len) {
        None => err(error::FAILED_LOOKUP),
        Some(p) => match ramfs::fs_unlink(k, &p) {
            Err(FsError::NotEmpty) => err(error::ILLEGAL_OPERATION),
            Err(e) => err(fs_err(e)),
            Ok(_) => err(error::OK),
        },
    }
}

/// FS_RENAME.
pub open spec fn rename_served(s: State, va: u64, len: u64, to_va: u64, to_len: u64) -> (
    State,
    [u64; 8],
) {
    match (caller_bytes(s, va, len), caller_bytes(s, to_va, to_len)) {
        (Some(from), Some(to)) => {
            let (s1, r) = ramfs::renamed(s, from, to);
            match r {
                Err(e) => (s1, coded(fs_code(e))),
                Ok(_) => (s1, coded(error::OK)),
            }
        },
        _ => (s, coded(error::FAILED_LOOKUP)),
    }
}

fn serve_rename(k: &mut Kernel, va: u64, len: u64, to_va: u64, to_len: u64) -> (r: [u64; 8])
    requires
        old(k).wf(),
    ensures
        final(k).wf(),
        (final(k)@, r) == rename_served(old(k)@, va, len, to_va, to_len),
{
    let from: Vec<u8> = match user_slice(k, va, len) {
        None => {
            return err(error::FAILED_LOOKUP);
        },
        Some(p) => p,
    };
    match user_slice(k, to_va, to_len) {
        None => err(error::FAILED_LOOKUP),
        Some(to) => match ramfs::fs_rename(k, &from, &to) {
            Err(e) => err(fs_err(e)),
            Ok(_) => err(error::OK),
        },
    }
}

/// The filesystem calls.
pub open spec fn fs_served(s: State, label: u64, a2: u64, a3: u64, a4: u64, a5: u64) -> (
    State,
    [u64; 8],
) {
    if label == label::FS_OPEN {
        open_served(s, a2, a3)
    } else if label == label::FS_CLOSE {
        close_served(s, a2)
    } else if label == label::FS_READ {
        read_served(s, a2, a3, a4)
    } else if label == label::FS_WRITE {
        write_served(s, a2, a3, a4)
    } else if label == label::FS_MKDIR {
        mkdir_served(s, a2, a3)
    } else if label == label::FS_READDIR {
        readdir_served(s, a2, a3, a4)
    } else if label == label::FS_STAT {
        (s, stat_served(s, a2, a3))
    } else if label == label::FS_CREATE {
        create_served(s, a2, a3)
    } else if label == label::FS_UNLINK {
        unlink_served(s, a2, a3)
    } else if label == label::FS_RENAME {
        rename_served(s, a2, a3, a4, a5)
    } else {
        (s, coded(error::ILLEGAL_OPERATION))
    }
}

/// Serve a filesystem call. Returns the reply.
pub fn dispatch_fs(k: &mut Kernel, label: u64, a2: u64, a3: u64, a4: u64, a5: u64) -> (r: [u64; 8])
    requires
        old(k).wf(),
    ensures
        final(k).wf(),
        (final(k)@, r) == fs_served(old(k)@, label, a2, a3, a4, a5),
{
    if label == label::FS_OPEN {
        serve_open(k, a2, a3)
    } else if label == label::FS_CLOSE {
        serve_close(k, a2)
    } else if label == label::FS_READ {
        serve_read(k, a2, a3, a4)
    } else if label == label::FS_WRITE {
        serve_write(k, a2, a3, a4)
    } else if label == label::FS_MKDIR {
        serve_mkdir(k, a2, a3)
    } else if label == label::FS_READDIR {
        serve_readdir(k, a2, a3, a4)
    } else if label == label::FS_STAT {
        serve_stat(k, a2, a3)
    } else if label == label::FS_CREATE {
        serve_create(k, a2, a3)
    } else if label == label::FS_UNLINK {
        serve_unlink(k, a2, a3)
    } else if label == label::FS_RENAME {
        serve_rename(k, a2, a3, a4, a5)
    } else {
        err(error::ILLEGAL_OPERATION)
    }
}

/// The labels of the filesystem calls.
pub open spec fn is_fs_label(l: u64) -> bool {
    200 <= l <= 210
}

/// What a system call with the context `f` does: calls that need no capability
/// first, then those on the capability in the slot that a0 names.
pub open spec fn dispatched(s: State, f: TrapFrame) -> (State, TrapFrame) {
    let l = f.x[11];
    if l == label::CONSOLE_GETCHAR {
        console::char_got(s, f)
    } else if is_fs_label(l) {
        let (s1, reply) = fs_served(s, l, f.x[12], f.x[13], f.x[14], f.x[15]);
        (s1, trap::replied(f, reply))
    } else if l == label::PROC_SPAWN {
        let (s1, code) = spawn::program_spawned(s, f.x[12], f.x[13], f.x[14]);
        (s1, trap::replied(f, coded(code)))
    } else if l == label::PROC_LINUX_SPAWN {
        let (s1, code) = spawn::linux_program_spawned(s, f.x[12], f.x[13], f.x[14]);
        (s1, trap::replied(f, coded(code)))
    } else if l == label::THREAD_EXIT {
        sched::exited(s, f)
    } else if l == label::ENDPOINT_REPLY {
        (
            endpoint::reply_delivered(
                s,
                [error::OK, 0, f.x[12], f.x[13], f.x[14], f.x[15], f.x[16], 0],
            ),
            trap::replied(f, coded(error::OK)),
        )
    } else {
        let cs = caller_cspace(s);
        let c = cnode::slot(s.caps, cs.0, f.x[10]);
        if cs.0 == 0 {
            (s, trap::replied(f, coded(error::FAILED_LOOKUP)))
        } else if f.x[10] >= cnode::slot_count(cs.1) || c.cap_type is Null {
            (s, trap::replied(f, coded(error::INVALID_CAPABILITY)))
        } else {
            invoke::invoked(s, f, c, cs)
        }
    }
}

/// Dispatch a system call: read the arguments from `frame`, write the reply to
/// it. For blocking calls the frame may be replaced by the context of another
/// thread.
pub fn dispatch(k: &mut Kernel, frame: &mut TrapFrame)
    requires
        old(k).wf(),
    ensures
        final(k).wf(),
        (final(k)@, *final(frame)) == dispatched(old(k)@, *old(frame)),
{
    let l: u64 = frame.a1();
    let a2: u64 = frame.a2();
    let a3: u64 = frame.a3();
    let a4: u64 = frame.a4();
    if l == label::CONSOLE_GETCHAR {
        console::getchar(k, frame);
        return ;
    }
    if l >= 200 && l <= 210 {
        let reply: [u64; 8] = dispatch_fs(k, l, a2, a3, a4, frame.a5());
        frame.set_reply(reply);
        return ;
    }
    if l == label::PROC_SPAWN {
        let code: u64 = spawn::dispatch_proc_spawn(k, a2, a3, a4);
        frame.set_reply(err(code));
        return ;
    }
    if l == label::PROC_LINUX_SPAWN {
        let code: u64 = spawn::dispatch_proc_linux_spawn(k, a2, a3, a4);
        frame.set_reply(err(code));
        return ;
    }
    if l == label::THREAD_EXIT {
        sched::exit_current(k, frame);
        return ;
    }
    if l == label::ENDPOINT_REPLY {
        endpoint::deliver_reply(k, [error::OK, 0, a2, a3, a4, frame.a5(), frame.a6(), 0]);
        frame.set_reply(err(error::OK));
        return ;
    }
    let (root_pa, root_sb): (u64, u64) = current_cspace(k);
    if root_pa == 0 {
        frame.set_reply(err(error::FAILED_LOOKUP));
        return ;
    }
    let c: Cap = match cnode::lookup(&k.caps, root_pa, root_sb, frame.a0()) {
        Ok(c) => c,
        Err(_) => {
            frame.set_reply(err(error::INVALID_CAPABILITY));
            return ;
        },
    };
    if c.is_null() {
        frame.set_reply(err(error::INVALID_CAPABILITY));
        return ;
    }
    proof {
        assert(cnode::cap_ok(objects::at(k@.caps, cnode::slot_addr(root_pa, frame.x[10]))));
    }
    invoke::invoke(k, frame, c, root_pa, root_sb);
}

} // verus!
