//! File I/O on the in-memory filesystem.
use crate::bytes::{self, to_le_bytes};
use crate::fs::ramfs::{self, FdEntry, FsError, InodeKind};
use crate::kernel::{self, Kernel, State};
use crate::linux_compat::errno;
use crate::linux_compat::user::{self, copy_in, copy_out, read_cstr, PageFault};
use crate::path::{self, SLASH};
use crate::sched;
use crate::syscall::read_file;
use crate::thread::Tcb;
use vstd::prelude::*;

verus! {

/// A descriptor of the caller that an inode backs: its table and its entry.
pub open spec fn open_fd(s: State, fd: u64) -> Option<(u64, FdEntry)> {
    let cur = sched::current(s);
    let t = kernel::tcb(s, cur).fd_table_pa;
    if cur == 0 || t == 0 {
        None
    } else {
        match ramfs::fd_entry(s, t, fd) {
            None => None,
            Some(e) => if e.inode_pa == ramfs::FD_STDIO_SENTINEL {
                None
            } else {
                Some((t, e))
            },
        }
    }
}

pub(crate) fn get_fd(k: &Kernel, fd: u64) -> (r: Option<(u64, FdEntry)>)
    requires
        k.wf(),
    ensures
        r == open_fd(k@, fd),
{
    let cur: u64 = sched::current_pa(k);
    if cur == 0 {
        return None;
    }
    let t: u64 = k.tcb(cur).fd_table_pa;
    if t == 0 {
        return None;
    }
    match ramfs::fd_get(k, t, fd) {
        None => None,
        Some(e) => {
            if e.inode_pa == ramfs::FD_STDIO_SENTINEL {
                None
            } else {
                Some((t, e))
            }
        },
    }
}

/// Writing the caller's bytes at `ptr` to a file: they are looked at only once
/// the file is known to take them.
pub open spec fn fd_written(s: State, fd: u64, t: u64, e: FdEntry, ptr: u64, len: u64) -> (
    State,
    Result<i64, PageFault>,
) {
    let offset = if e.flags & errno::O_APPEND != 0 {
        ramfs::inode(s, e.inode_pa).size
    } else {
        e.offset
    };
    let (s1, ready) = ramfs::write_prepared(s, e.inode_pa, offset, len as int);
    match ready {
        Err(_) => (s1, Ok(errno::EBADF)),
        Ok((d, n)) => match user::peeked(s1, ptr, n as nat) {
            Err(f) => (s1, Err(f)),
            Ok(data) => {
                let s2 = ramfs::write_filled(s1, e.inode_pa, d, offset, data);
                (ramfs::fd_sought(s2, t, fd, (offset + n) as u64).0, Ok(n as i64))
            },
        },
    }
}

/// write(fd, ptr, len): descriptors 1 and 2 are the console.
pub open spec fn write_called(s: State, fd: u64, ptr: u64, len: u64) -> (
    State,
    Result<i64, PageFault>,
) {
    if fd == 1 || fd == 2 {
        match user::peeked(s, ptr, len as nat) {
            Err(f) => (s, Err(f)),
            Ok(b) => (State { tx: s.tx + b, ..s }, Ok(len as i64)),
        }
    } else {
        match open_fd(s, fd) {
            None => (s, Ok(errno::EBADF)),
            Some((t, e)) => fd_written(s, fd, t, e, ptr, len),
        }
    }
}

fn write_fd(k: &mut Kernel, fd: u64, t: u64, e: FdEntry, ptr: u64, len: u64) -> (r: Result<
    i64,
    PageFault,
>)
    requires
        old(k).wf(),
    ensures
        final(k).wf(),
        (final(k)@, r) == fd_written(old(k)@, fd, t, e, ptr, len),
{
    let offset: u64 = if e.flags & errno::O_APPEND != 0 {
        ramfs::inode_size(k, e.inode_pa)
    } else {
        e.offset
    };
    match ramfs::prepare_write(k, e.inode_pa, offset, len) {
        Err(_) => Ok(errno::EBADF),
        Ok((d, n)) => match copy_in(k, ptr, n) {
            Err(f) => Err(f),
            Ok(data) => {
                ramfs::fill_write(k, e.inode_pa, d, offset, &data);
                let _ = ramfs::fd_seek(k, t, fd, offset + n);
                Ok(n as i64)
            },
        },
    }
}

pub fn sys_write(k: &mut Kernel, fd: u64, ptr: u64, len: u64) -> (r: Result<i64, PageFault>)
    requires
        old(k).wf(),
    ensures
        final(k).wf(),
        (final(k)@, r) == write_called(old(k)@, fd, ptr, len),
{
    if fd == 1 || fd == 2 {
        return match copy_in(k, ptr, len) {
            Err(f) => Err(f),
            Ok(mut b) => {
                k.tx.append(&mut b);
                Ok(len as i64)
            },
        };
    }
    match get_fd(k, fd) {
        None => Ok(errno::EBADF),
        Some((t, e)) => write_fd(k, fd, t, e, ptr, len),
    }
}

/// read(fd, ptr, len): descriptor 0 takes `input`, one byte from the console.
pub open spec fn read_called(s: State, fd: u64, ptr: u64, len: u64, input: u8) -> (
    State,
    Result<i64, PageFault>,
) {
    if fd == 0 {
        if len == 0 {
            (s, Ok(0))
        } else {
            let (s1, r) = user::poked(s, ptr, seq![input]);
            match r {
                Err(f) => (s1, Err(f)),
                Ok(_) => (s1, Ok(1)),
            }
        }
    } else {
        match open_fd(s, fd) {
            None => (s, Ok(errno::EBADF)),
            Some((t, e)) => {
                let data = ramfs::file_bytes(s, e.inode_pa, e.offset, len as int);
                let (s1, r) = user::poked(s, ptr, data);
                match r {
                    Err(f) => (s1, Err(f)),
                    Ok(_) => (
                        ramfs::fd_advanced(s1, t, fd, data.len() as u64),
                        Ok(data.len() as i64),
                    ),
                }
            },
        }
    }
}

/// A system call reads one byte from the console: read on descriptor 0 with
/// room for it.
pub open spec fn wants_input(fd: u64, len: u64) -> bool {
    fd == 0 && len != 0
}

pub fn sys_read(k: &mut Kernel, fd: u64, ptr: u64, len: u64, input: u8) -> (r: Result<
    i64,
    PageFault,
>)
    requires
        old(k).wf(),
    ensures
        final(k).wf(),
        (final(k)@, r) == read_called(old(k)@, fd, ptr, len, input),
{
    if fd == 0 {
        if len == 0 {
            return Ok(0);
        }
        let b: [u8; 1] = [input];
        assert(b@ =~= seq![input]);
        return match copy_out(k, ptr, &b) {
            Err(f) => Err(f),
            Ok(_) => Ok(1),
        };
    }
    match get_fd(k, fd) {
        None => Ok(errno::EBADF),
        Some((t, e)) => {
            let data: Vec<u8> = read_file(k, e.inode_pa, e.offset, len);
            let n: u64 = data.len() as u64;
            match copy_out(k, ptr, &data) {
                Err(f) => Err(f),
                Ok(_) => {
                    ramfs::fd_advance(k, t, fd, n);
                    Ok(n as i64)
                },
            }
        },
    }
}

/// Writing the buffers `i` up to `cnt` of a vector; their results add up.
pub open spec fn writev_from(
    s: State,
    fd: u64,
    iov: u64,
    i: nat,
    cnt: nat,
    total: i64,
) -> (State, Result<i64, PageFault>)
    decreases cnt - i,
{
    if i >= cnt {
        (s, Ok(total))
    } else {
        match user::peeked(s, iov.wrapping_add((i as u64).wrapping_mul(16)), 16) {
            Err(f) => (s, Err(f)),
            Ok(v) => {
                let (s1, r) = write_called(s, fd, bytes::le64(v, 0), bytes::le64(v, 8));
                match r {
                    Err(f) => (s1, Err(f)),
                    Ok(n) => writev_from(s1, fd, iov, i + 1, cnt, total.wrapping_add(n)),
                }
            },
        }
    }
}

pub fn sys_writev(k: &mut Kernel, fd: u64, iov_ptr: u64, iov_cnt: u64) -> (r: Result<
    i64,
    PageFault,
>)
    requires
        old(k).wf(),
    ensures
        final(k).wf(),
        (final(k)@, r) == writev_from(old(k)@, fd, iov_ptr, 0, iov_cnt as nat, 0),
{
    let mut total: i64 = 0;
    let mut i: u64 = 0;
    while i < iov_cnt
        invariant
            k.wf(),
            i <= iov_cnt,
            writev_from(k@, fd, iov_ptr, i as nat, iov_cnt as nat, total) == writev_from(
                old(k)@,
                fd,
                iov_ptr,
                0,
                iov_cnt as nat,
                0,
            ),
        decreases iov_cnt - i,
    {
        match copy_in(k, iov_ptr.wrapping_add(i.wrapping_mul(16)), 16) {
            Err(f) => {
                return Err(f);
            },
            Ok(v) => {
                let base: u64 = bytes::read_u64(&v, 0);
                let len: u64 = bytes::read_u64(&v, 8);
                match sys_write(k, fd, base, len) {
                    Err(f) => {
                        return Err(f);
                    },
                    Ok(n) => {
                        total = total.wrapping_add(n);
                    },
                }
            },
        }
        i += 1;
    }
    Ok(total)
}

/// The working directory that relative paths start from.
pub open spec fn base_dir(s: State) -> Seq<u8> {
    let cur = sched::current(s);
    let t = kernel::tcb(s, cur).fd_table_pa;
    if cur == 0 || t == 0 {
        seq![SLASH]
    } else {
        ramfs::cwd_of(ramfs::fd_table(s, t))
    }
}

/// The absolute path that `raw` stands for in the directory `base`.
pub open spec fn absolute(base: Seq<u8>, raw: Seq<u8>) -> Seq<u8> {
    if raw.len() > 0 && raw[0] == SLASH {
        raw
    } else if base.last() == SLASH {
        base + raw
    } else {
        base.push(SLASH) + raw
    }
}

/// The normal form of the path `raw` of the caller, if it is not too long.
pub open spec fn resolved(s: State, raw: Seq<u8>) -> Result<Seq<u8>, i64> {
    let full = absolute(base_dir(s), raw);
    if full.len() > errno::MAX_PATH || path::canonical(full).len() > errno::MAX_PATH {
        Err(errno::ENOENT)
    } else {
        Ok(path::canonical(full))
    }
}

/// The normal form of the path at the caller's address `va`.
pub open spec fn path_at(s: State, va: u64) -> Result<Result<Seq<u8>, i64>, PageFault> {
    match user::string_at(s, va, errno::MAX_PATH as nat) {
        Err(f) => Err(f),
        Ok(None) => Ok(Err(errno::ENOENT)),
        Ok(Some(raw)) => Ok(resolved(s, raw)),
    }
}

pub(crate) fn base_of(k: &Kernel) -> (r: Vec<u8>)
    requires
        k.wf(),
    ensures
        r@ == base_dir(k@),
        0 < r@.len() <= 128,
{
    let cur: u64 = sched::current_pa(k);
    let t: u64 = if cur != 0 {
        k.tcb(cur).fd_table_pa
    } else {
        0
    };
    if t == 0 {
        let mut root: Vec<u8> = Vec::new();
        root.push(SLASH);
        assert(root@ =~= seq![SLASH]);
        return root;
    }
    let mut cwd: [u8; 128] = [0;128];
    let n: usize = ramfs::fd_cwd(k, t, &mut cwd);
    let r = bytes::copied(&cwd, 0, n);
    proof {
        let table = ramfs::fd_table(k@, t);
        path::lemma_find_byte(table.cwd@, 0, 0);
        assert(ramfs::fitted(ramfs::cwd_of(table), 128) == ramfs::cwd_of(table));
        assert(r@ =~= ramfs::cwd_of(table));
    }
    r
}

/// Resolve the path `raw` against the working directory of the caller.
pub fn resolve(k: &Kernel, raw: &[u8]) -> (r: Result<Vec<u8>, i64>)
    requires
        k.wf(),
    ensures
        match resolved(k@, raw@) {
            Ok(p) => r matches Ok(v) && v@ == p,
            Err(e) => r == Err::<Vec<u8>, i64>(e),
        },
{
    let mut full: Vec<u8> = Vec::new();
    if !(raw.len() > 0 && raw[0] == SLASH) {
        full = base_of(k);
        if full[full.len() - 1] != SLASH {
            full.push(SLASH);
        }
    }
    let ghost start = full@;
    let mut i: usize = 0;
    while i < raw.len()
        invariant
            i <= raw@.len(),
            full@ =~= start + raw@.take(i as int),
        decreases raw@.len() - i,
    {
        full.push(raw[i]);
        i += 1;
    }
    assert(full@ =~= absolute(base_dir(k@), raw@));
    if full.len() > errno::MAX_PATH {
        return Err(errno::ENOENT);
    }
    let out: Vec<u8> = path::canonicalize(&full);
    if out.len() > errno::MAX_PATH {
        return Err(errno::ENOENT);
    }
    Ok(out)
}

/// Read a path from the caller's memory and resolve it against the working
/// directory into a normalized absolute path.
pub fn resolve_path(k: &Kernel, path_va: u64) -> (r: Result<Result<Vec<u8>, i64>, PageFault>)
    requires
        k.wf(),
    ensures
        match path_at(k@, path_va) {
            Err(f) => r == Err::<Result<Vec<u8>, i64>, PageFault>(f),
            Ok(Err(e)) => r matches Ok(Err(x)) && x == e,
            Ok(Ok(p)) => r matches Ok(Ok(v)) && v@ == p,
        },
{
    match read_cstr(k, path_va, errno::MAX_PATH as u64) {
        Err(f) => Err(f),
        Ok(None) => Ok(Err(errno::ENOENT)),
        Ok(Some(raw)) => Ok(resolve(k, &raw)),
    }
}

/// Giving the caller a descriptor table with 0 to 2 reserved if it has none.
pub open spec fn table_ensured(s: State) -> (State, Option<u64>) {
    let cur = sched::current(s);
    let t = kernel::tcb(s, cur);
    if t.fd_table_pa != 0 {
        (s, Some(t.fd_table_pa))
    } else {
        let (s1, table) = ramfs::stdio_table_made(s);
        match table {
            None => (s1, None),
            Some(pa) => (
                kernel::with_tcb(s1, cur, Tcb { fd_table_pa: pa, ..kernel::tcb(s1, cur) }),
                Some(pa),
            ),
        }
    }
}

pub(crate) fn ensure_table(k: &mut Kernel) -> (r: Option<u64>)
    requires
        old(k).wf(),
    ensures
        final(k).wf(),
        (final(k)@, r) == table_ensured(old(k)@),
{
    let cur: u64 = sched::current_pa(k);
    let t: u64 = k.tcb(cur).fd_table_pa;
    if t != 0 {
        return Some(t);
    }
    match ramfs::alloc_fd_table_stdio(k) {
        None => None,
        Some(pa) => {
            let mut t: Tcb = k.tcb(cur);
            t.fd_table_pa = pa;
            k.set_tcb(cur, t);
            Some(pa)
        },
    }
}

/// Finding or creating the file that openat opens.
pub open spec fn open_target(s: State, p: Seq<u8>, flags: u64) -> (State, Result<u64, i64>) {
    match ramfs::found(s, p) {
        Some(pa) => (
            if flags & errno::O_TRUNC != 0 {
                ramfs::truncated(s, pa).0
            } else {
                s
            },
            Ok(pa),
        ),
        None => if flags & errno::O_CREAT == 0 {
            (s, Err(errno::ENOENT))
        } else {
            let (s1, r) = ramfs::file_made(s, p);
            match r {
                Ok(pa) => (s1, Ok(pa)),
                Err(FsError::Exists) => (s1, Err(errno::EEXIST)),
                Err(_) => (s1, Err(errno::ENOENT)),
            }
        },
    }
}

fn find_or_create(k: &mut Kernel, p: &[u8], flags: u64) -> (r: Result<u64, i64>)
    requires
        old(k).wf(),
    ensures
        final(k).wf(),
        (final(k)@, r) == open_target(old(k)@, p@, flags),
{
    match ramfs::fs_open(k, p) {
        Some(pa) => {
            if flags & errno::O_TRUNC != 0 {
                let _ = ramfs::fs_truncate(k, pa);
            }
            Ok(pa)
        },
        None => {
            if flags & errno::O_CREAT == 0 {
                return Err(errno::ENOENT);
            }
            match ramfs::fs_create(k, p) {
                Ok(pa) => Ok(pa),
                Err(FsError::Exists) => Err(errno::EEXIST),
                Err(_) => Err(errno::ENOENT),
            }
        },
    }
}

/// Opening the path `p`.
pub open spec fn path_opened(s: State, p: Seq<u8>, flags: u64) -> (State, i64) {
    let (s1, target) = open_target(s, p, flags);
    match target {
        Err(e) => (s1, e),
        Ok(pa) => if sched::current(s1) == 0 {
            (s1, errno::ENOENT)
        } else {
            let (s2, table) = table_ensured(s1);
            match table {
                None => (s2, errno::ENOMEM),
                Some(t) => {
                    let (s3, fd) = ramfs::fd_allocated(s2, t, pa, flags as u32);
                    match fd {
                        None => (s3, errno::ENOMEM),
                        Some(fd) => (s3, fd as i64),
                    }
                },
            }
        },
    }
}

/// openat(dirfd, path, flags).
pub open spec fn openat_called(s: State, dirfd: u64, va: u64, flags: u64) -> (
    State,
    Result<i64, PageFault>,
) {
    if dirfd as i64 != errno::AT_FDCWD {
        (s, Ok(errno::ENOTDIR))
    } else {
        match path_at(s, va) {
            Err(f) => (s, Err(f)),
            Ok(Err(e)) => (s, Ok(e)),
            Ok(Ok(p)) => {
                let (s1, r) = path_opened(s, p, flags);
                (s1, Ok(r))
            },
        }
    }
}

fn open_path(k: &mut Kernel, p: &[u8], flags: u64) -> (r: i64)
    requires
        old(k).wf(),
    ensures
        final(k).wf(),
        (final(k)@, r) == path_opened(old(k)@, p@, flags),
{
    let pa: u64 = match find_or_create(k, p, flags) {
        Ok(pa) => pa,
        Err(e) => {
            return e;
        },
    };
    if sched::current_pa(k) == 0 {
        return errno::ENOENT;
    }
    match ensure_table(k) {
        None => errno::ENOMEM,
        Some(t) => match ramfs::fd_alloc(k, t, pa, flags as u32) {
            None => errno::ENOMEM,
            Some(fd) => fd as i64,
        },
    }
}

pub fn sys_openat(k: &mut Kernel, dirfd: u64, path_va: u64, flags: u64) -> (r: Result<
    i64,
    PageFault,
>)
    requires
        old(k).wf(),
    ensures
        final(k).wf(),
        (final(k)@, r) == openat_called(old(k)@, dirfd, path_va, flags),
{
    if dirfd as i64 != errno::AT_FDCWD {
        return Ok(errno::ENOTDIR);
    }
    match resolve_path(k, path_va) {
        Err(f) => Err(f),
        Ok(Err(e)) => Ok(e),
        Ok(Ok(p)) => Ok(open_path(k, &p, flags)),
    }
}

/// The caller's descriptor table, if it has one.
pub open spec fn own_table(s: State) -> Option<u64> {
    let cur = sched::current(s);
    let t = kernel::tcb(s, cur).fd_table_pa;
    if cur == 0 || t == 0 {
        None
    } else {
        Some(t)
    }
}

fn get_table(k: &Kernel) -> (r: Option<u64>)
    requires
        k.wf(),
    ensures
        r == own_table(k@),
{
    let cur: u64 = sched::current_pa(k);
    if cur == 0 {
        return None;
    }
    let t: u64 = k.tcb(cur).fd_table_pa;
    if t == 0 {
        None
    } else {
        Some(t)
    }
}

/// close(fd).
pub open spec fn close_called(s: State, fd: u64) -> (State, i64) {
    match own_table(s) {
        None => (s, errno::EBADF),
        Some(t) => (ramfs::fd_closed(s, t, fd), 0),
    }
}

pub fn sys_close(k: &mut Kernel, fd: u64) -> (r: i64)
    requires
        old(k).wf(),
    ensures
        final(k).wf(),
        (final(k)@, r) == close_called(old(k)@, fd),
{
    match get_table(k) {
        None => errno::EBADF,
        Some(t) => {
            ramfs::fd_close(k, t, fd);
            0
        },
    }
}

/// lseek(fd, offset, whence): from the start, the position or the end.
pub open spec fn lseek_called(s: State, fd: u64, offset: i64, whence: u64) -> (State, i64) {
    match open_fd(s, fd) {
        None => (s, errno::EBADF),
        Some((t, e)) => if whence > 2 {
            (s, errno::EINVAL)
        } else {
            let base = if whence == 0 {
                0u64
            } else if whence == 1 {
                e.offset
            } else {
                ramfs::inode(s, e.inode_pa).size
            };
            let new = (base as i64).wrapping_add(offset);
            if new < 0 {
                (s, errno::EINVAL)
            } else {
                let (s1, r) = ramfs::fd_sought(s, t, fd, new as u64);
                match r {
                    None => (s1, errno::EBADF),
                    Some(v) => (s1, v as i64),
                }
            }
        },
    }
}

pub fn sys_lseek(k: &mut Kernel, fd: u64, offset: i64, whence: u64) -> (r: i64)
    requires
        old(k).wf(),
    ensures
        final(k).wf(),
        (final(k)@, r) == lseek_called(old(k)@, fd, offset, whence),
{
    let (t, e): (u64, FdEntry) = match get_fd(k, fd) {
        Some(p) => p,
        None => {
            return errno::EBADF;
        },
    };
    if whence > 2 {
        return errno::EINVAL;
    }
    let base: u64 = if whence == 0 {
        0
    } else if whence == 1 {
        e.offset
    } else {
        ramfs::inode_size(k, e.inode_pa)
    };
    let new: i64 = (base as i64).wrapping_add(offset);
    if new < 0 {
        return errno::EINVAL;
    }
    match ramfs::fd_seek(k, t, fd, new as u64) {
        None => errno::EBADF,
        Some(v) => v as i64,
    }
}

/// dup(old_fd), or dup3(old_fd, new_fd).
pub open spec fn dup_called(s: State, old_fd: u64, new_fd: Option<u64>) -> (State, i64) {
    match own_table(s) {
        None => (s, errno::EBADF),
        Some(t) => match new_fd {
            Some(dst) => if dst >= ramfs::MAX_FDS {
                (s, errno::EBADF)
            } else {
                let (s1, ok) = ramfs::fd_duplicated(ramfs::fd_closed(s, t, dst), t, old_fd, dst);
                (
                    s1,
                    if ok {
                        dst as i64
                    } else {
                        errno::EBADF
                    },
                )
            },
            None => match ramfs::fd_entry(s, t, old_fd) {
                None => (s, errno::EBADF),
                Some(e) => {
                    let (s1, fd) = ramfs::fd_allocated(s, t, e.inode_pa, e.flags);
                    match fd {
                        None => (s1, errno::ENOMEM),
                        Some(fd) => (
                            ramfs::fd_sought(s1, t, fd as u64, e.offset).0,
                            fd as i64,
                        ),
                    }
                },
            },
        },
    }
}

pub fn sys_dup(k: &mut Kernel, old_fd: u64, new_fd: Option<u64>) -> (r: i64)
    requires
        old(k).wf(),
    ensures
        final(k).wf(),
        (final(k)@, r) == dup_called(old(k)@, old_fd, new_fd),
{
    let t: u64 = match get_table(k) {
        Some(t) => t,
        None => {
            return errno::EBADF;
        },
    };
    match new_fd {
        Some(dst) => {
            if dst >= ramfs::MAX_FDS as u64 {
                return errno::EBADF;
            }
            ramfs::fd_close(k, t, dst);
            match ramfs::fd_dup(k, t, old_fd, dst) {
                Some(_) => dst as i64,
                None => errno::EBADF,
            }
        },
        None => {
            let e: FdEntry = match ramfs::fd_get(k, t, old_fd) {
                Some(e) => e,
                None => {
                    return errno::EBADF;
                },
            };
            match ramfs::fd_alloc(k, t, e.inode_pa, e.flags) {
                None => errno::ENOMEM,
                Some(fd) => {
                    let _ = ramfs::fd_seek(k, t, fd as u64, e.offset);
                    fd as i64
                },
            }
        },
    }
}

pub open spec fn zeros(n: nat) -> Seq<u8> {
    Seq::new(n, |i: int| 0u8)
}

/// struct stat of an inode, 128 bytes: inode number at 8, mode at 16, links at
/// 20, size at 48, block size at 56, blocks at 64.
pub open spec fn stat_bytes(ino: nat, mode: nat, size: nat, blocks: nat) -> Seq<u8> {
    zeros(8) + bytes::le_bytes(ino, 8) + bytes::le_bytes(mode, 4) + bytes::le_bytes(1, 4) + zeros(
        24,
    ) + bytes::le_bytes(size, 8) + bytes::le_bytes(4096, 4) + zeros(4) + bytes::le_bytes(
        blocks,
        8,
    ) + zeros(56)
}

/// struct stat of the console: the mode only.
pub open spec fn console_stat_bytes() -> Seq<u8> {
    zeros(16) + bytes::le_bytes(errno::MODE_CONSOLE as nat, 4) + zeros(108)
}

pub(crate) fn push_zeros(v: &mut Vec<u8>, n: usize)
    ensures
        final(v)@ == old(v)@ + zeros(n as nat),
{
    let mut i: usize = 0;
    while i < n
        invariant
            i <= n,
            v@ =~= old(v)@ + zeros(i as nat),
        decreases n - i,
    {
        v.push(0);
        i += 1;
    }
}

pub(crate) fn push_number(v: &mut Vec<u8>, x: u64, n: usize)
    ensures
        final(v)@ == old(v)@ + bytes::le_bytes(x as nat, n as nat),
{
    let mut b: Vec<u8> = to_le_bytes(x, n);
    v.append(&mut b);
}

pub open spec fn inode_stat(s: State, pa: u64) -> Seq<u8> {
    let n = ramfs::inode(s, pa);
    stat_bytes(
        (pa >> 12u64) as nat,
        (if n.kind is Dir {
            errno::MODE_DIR
        } else {
            errno::MODE_FILE
        }) as nat,
        n.size as nat,
        (n.size.wrapping_add(511) / 512) as nat,
    )
}

/// Writing the struct stat of an inode.
pub open spec fn stat_written(s: State, buf_va: u64, pa: u64) -> (State, Result<i64, PageFault>) {
    if buf_va == 0 {
        (s, Ok(errno::EFAULT))
    } else {
        let (s1, r) = user::poked(s, buf_va, inode_stat(s, pa));
        match r {
            Err(f) => (s1, Err(f)),
            Ok(_) => (s1, Ok(0)),
        }
    }
}

fn write_stat(k: &mut Kernel, buf_va: u64, inode_pa: u64) -> (r: Result<i64, PageFault>)
    requires
        old(k).wf(),
    ensures
        final(k).wf(),
        (final(k)@, r) == stat_written(old(k)@, buf_va, inode_pa),
{
    if buf_va == 0 {
        return Ok(errno::EFAULT);
    }
    let size: u64 = ramfs::inode_size(k, inode_pa);
    let mode: u64 = match ramfs::inode_kind(k, inode_pa) {
        InodeKind::Dir => errno::MODE_DIR,
        InodeKind::File => errno::MODE_FILE,
    };
    let mut b: Vec<u8> = Vec::new();
    push_zeros(&mut b, 8);
    push_number(&mut b, inode_pa >> 12u64, 8);
    push_number(&mut b, mode, 4);
    push_number(&mut b, 1, 4);
    push_zeros(&mut b, 24);
    push_number(&mut b, size, 8);
    push_number(&mut b, 4096, 4);
    push_zeros(&mut b, 4);
    push_number(&mut b, size.wrapping_add(511) / 512, 8);
    push_zeros(&mut b, 56);
    assert(Seq::<u8>::empty() + zeros(8) =~= zeros(8));
    match copy_out(k, buf_va, &b) {
        Err(f) => Err(f),
        Ok(_) => Ok(0),
    }
}

/// fstat(fd, buf).
pub open spec fn fstat_called(s: State, fd: u64, buf_va: u64) -> (State, Result<i64, PageFault>) {
    if fd <= 2 {
        if buf_va == 0 {
            (s, Ok(errno::EFAULT))
        } else {
            let (s1, r) = user::poked(s, buf_va, console_stat_bytes());
            match r {
                Err(f) => (s1, Err(f)),
                Ok(_) => (s1, Ok(0)),
            }
        }
    } else {
        match open_fd(s, fd) {
            None => (s, Ok(errno::EBADF)),
            Some((t, e)) => stat_written(s, buf_va, e.inode_pa),
        }
    }
}

pub fn sys_fstat(k: &mut Kernel, fd: u64, buf_va: u64) -> (r: Result<i64, PageFault>)
    requires
        old(k).wf(),
    ensures
        final(k).wf(),
        (final(k)@, r) == fstat_called(old(k)@, fd, buf_va),
{
    if fd <= 2 {
        if buf_va == 0 {
            return Ok(errno::EFAULT);
        }
        let mut b: Vec<u8> = Vec::new();
        push_zeros(&mut b, 16);
        push_number(&mut b, errno::MODE_CONSOLE, 4);
        push_zeros(&mut b, 108);
        assert(Seq::<u8>::empty() + zeros(16) =~= zeros(16));
        return match copy_out(k, buf_va, &b) {
            Err(f) => Err(f),
            Ok(_) => Ok(0),
        };
    }
    match get_fd(k, fd) {
        None => Ok(errno::EBADF),
        Some((_, e)) => write_stat(k, buf_va, e.inode_pa),
    }
}

/// newfstatat(dirfd, path, buf).
pub open spec fn newfstatat_called(s: State, dirfd: u64, path_va: u64, buf_va: u64) -> (
    State,
    Result<i64, PageFault>,
) {
    if dirfd as i64 != errno::AT_FDCWD {
        (s, Ok(errno::ENOTDIR))
    } else {
        match path_at(s, path_va) {
            Err(f) => (s, Err(f)),
            Ok(Err(e)) => (s, Ok(e)),
            Ok(Ok(p)) => match ramfs::found(s, p) {
                None => (s, Ok(errno::ENOENT)),
                Some(pa) => stat_written(s, buf_va, pa),
            },
        }
    }
}

pub fn sys_newfstatat(k: &mut Kernel, dirfd: u64, path_va: u64, buf_va: u64) -> (r: Result<
    i64,
    PageFault,
>)
    requires
        old(k).wf(),
    ensures
        final(k).wf(),
        (final(k)@, r) == newfstatat_called(old(k)@, dirfd, path_va, buf_va),
{
    if dirfd as i64 != errno::AT_FDCWD {
        return Ok(errno::ENOTDIR);
    }
    match resolve_path(k, path_va) {
        Err(f) => Err(f),
        Ok(Err(e)) => Ok(e),
        Ok(Ok(p)) => match ramfs::fs_open(k, &p) {
            None => Ok(errno::ENOENT),
            Some(pa) => write_stat(k, buf_va, pa),
        },
    }
}

} // verus!
