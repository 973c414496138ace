//! Directories: listing, the working directory, access checks and creation.
use crate::bytes;
use crate::fs::ramfs::{self, DirEntry, FdEntry, FsError, InodeKind};
use crate::kernel::{Kernel, State};
use crate::linux_compat::errno;
use crate::linux_compat::files::{self, base_of, ensure_table, get_fd, push_number, resolve_path};
use crate::linux_compat::user::{self, copy_out, PageFault};
use crate::path;
use crate::sched;
use vstd::prelude::*;

verus! {

/// Bytes that a directory record with a name of `n` bytes takes: 19 bytes of
/// header, the name and its zero, rounded up to a multiple of 8.
pub open spec fn record_len(n: int) -> int {
    (n + 27) / 8 * 8
}

pub open spec fn type_code(kind: InodeKind) -> u8 {
    match kind {
        InodeKind::Dir => errno::DT_DIR,
        InodeKind::File => errno::DT_REG,
    }
}

/// The directory record for the entry `e` with index `idx`: inode number, index
/// of the next entry, record length, type, name and a zero. The rounding bytes
/// after it are not written.
pub open spec fn record(e: DirEntry, kind: InodeKind, idx: u64) -> Seq<u8> {
    let name = ramfs::text(e.name@);
    bytes::le_bytes((e.inode_pa >> 12u64) as nat, 8) + bytes::le_bytes(
        idx.wrapping_add(1) as nat,
        8,
    ) + bytes::le_bytes(record_len(name.len() as int) as nat, 2) + seq![type_code(kind)] + name
        + seq![0u8]
}

/// The `idx`-th entry of a directory with its kind, if it has a valid one.
pub open spec fn typed_entry(s: State, dir: u64, idx: u64) -> Option<(DirEntry, InodeKind)> {
    match ramfs::listed_entry(s, dir, idx) {
        None => None,
        Some(e) => match InodeKind::decoded(e.kind) {
            None => None,
            Some(kind) => Some((e, kind)),
        },
    }
}

/// Writing records from the entry `idx` on as long as they fit in `room` bytes,
/// `written` of which are taken. Returns the next index and the bytes taken.
pub open spec fn records_written(
    s: State,
    dir: u64,
    buf_va: u64,
    room: int,
    idx: u64,
    written: int,
) -> (State, Result<(u64, int), PageFault>)
    decreases room - written,
{
    match typed_entry(s, dir, idx) {
        None => (s, Ok((idx, written))),
        Some((e, kind)) => {
            let len = record_len(ramfs::text(e.name@).len() as int);
            if written + len > room {
                (s, Ok((idx, written)))
            } else {
                let (s1, r) = user::poked(
                    s,
                    buf_va.wrapping_add(written as u64),
                    record(e, kind, idx),
                );
                match r {
                    Err(f) => (s1, Err(f)),
                    Ok(_) => records_written(
                        s1,
                        dir,
                        buf_va,
                        room,
                        idx.wrapping_add(1),
                        written + len,
                    ),
                }
            }
        },
    }
}

/// The first record does not fit.
pub open spec fn no_room(s: State, dir: u64, room: int, idx: u64) -> bool {
    match typed_entry(s, dir, idx) {
        None => false,
        Some((e, kind)) => record_len(ramfs::text(e.name@).len() as int) > room,
    }
}

/// getdents64(fd, buf, len).
pub open spec fn getdents_called(s: State, fd: u64, buf_va: u64, buf_len: u64) -> (
    State,
    Result<i64, PageFault>,
) {
    match files::open_fd(s, fd) {
        None => (s, Ok(errno::EBADF)),
        Some((t, e)) => if !(ramfs::inode(s, e.inode_pa).kind is Dir) {
            (s, Ok(errno::ENOTDIR))
        } else if no_room(s, e.inode_pa, buf_len as int, e.offset) {
            (s, Ok(errno::EINVAL))
        } else {
            let (s1, r) = records_written(s, e.inode_pa, buf_va, buf_len as int, e.offset, 0);
            match r {
                Err(f) => (s1, Err(f)),
                Ok((idx, n)) => (ramfs::fd_sought(s1, t, fd, idx).0, Ok((n as u64) as i64)),
            }
        },
    }
}

/// The `idx`-th entry: its name, kind and inode.
fn read_typed(k: &Kernel, dir: u64, idx: u64) -> (r: Option<(Vec<u8>, InodeKind, u64)>)
    ensures
        match typed_entry(k@, dir, idx) {
            None => r is None,
            Some((e, kind)) => r matches Some((name, kd, pa)) && name@ == ramfs::text(e.name@)
                && name@.len() <= 52 && kd == kind && pa == e.inode_pa,
        },
{
    let mut buf: [u8; 52] = [0;52];
    match ramfs::fs_readdir_ex(k, dir, idx, &mut buf) {
        None => None,
        Some((n, kind, pa)) => {
            let name: Vec<u8> = bytes::copied(&buf, 0, n);
            proof {
                let e = ramfs::listed_entry(k@, dir, idx)->0;
                path::lemma_find_byte(e.name@, 0, 0);
                assert(name@ =~= ramfs::text(e.name@));
            }
            Some((name, kind, pa))
        },
    }
}

fn make_record(name: &Vec<u8>, kind: InodeKind, pa: u64, idx: u64, len: u64) -> (r: Vec<u8>)
    ensures
        r@ == bytes::le_bytes((pa >> 12u64) as nat, 8) + bytes::le_bytes(
            idx.wrapping_add(1) as nat,
            8,
        ) + bytes::le_bytes(len as nat, 2) + seq![type_code(kind)] + name@ + seq![0u8],
{
    let mut b: Vec<u8> = Vec::new();
    push_number(&mut b, pa >> 12u64, 8);
    push_number(&mut b, idx.wrapping_add(1), 8);
    push_number(&mut b, len, 2);
    let code: u8 = match kind {
        InodeKind::Dir => errno::DT_DIR,
        InodeKind::File => errno::DT_REG,
    };
    let ghost head = b@;
    b.push(code);
    let mut rest: Vec<u8> = bytes::copied(name, 0, name.len());
    b.append(&mut rest);
    b.push(0);
    assert(head =~= bytes::le_bytes((pa >> 12u64) as nat, 8) + bytes::le_bytes(
        idx.wrapping_add(1) as nat,
        8,
    ) + bytes::le_bytes(len as nat, 2));
    assert(b@ =~= head + seq![type_code(kind)] + name@ + seq![0u8]);
    b
}

pub fn sys_getdents64(k: &mut Kernel, fd: u64, buf_va: u64, buf_len: u64) -> (r: Result<
    i64,
    PageFault,
>)
    requires
        old(k).wf(),
    ensures
        final(k).wf(),
        (final(k)@, r) == getdents_called(old(k)@, fd, buf_va, buf_len),
{
    let (t, entry): (u64, FdEntry) = match get_fd(k, fd) {
        Some(p) => p,
        None => {
            return Ok(errno::EBADF);
        },
    };
    let dir: u64 = entry.inode_pa;
    if ramfs::inode_kind(k, dir) != InodeKind::Dir {
        return Ok(errno::ENOTDIR);
    }
    let mut written: u64 = 0;
    let mut idx: u64 = entry.offset;
    loop
        invariant_except_break
            k.wf(),
            written <= buf_len,
            files::open_fd(old(k)@, fd) == Some((t, entry)),
            dir == entry.inode_pa,
            ramfs::inode(old(k)@, dir).kind is Dir,
            written == 0 ==> k@ == old(k)@ && idx == entry.offset,
            written > 0 ==> !no_room(old(k)@, dir, buf_len as int, entry.offset),
            records_written(k@, dir, buf_va, buf_len as int, idx, written as int)
                == records_written(old(k)@, dir, buf_va, buf_len as int, entry.offset, 0),
        ensures
            k.wf(),
            !no_room(old(k)@, dir, buf_len as int, entry.offset),
            records_written(old(k)@, dir, buf_va, buf_len as int, entry.offset, 0) == (
                k@,
                Ok::<(u64, int), PageFault>((idx, written as int)),
            ),
        decreases buf_len - written,
    {
        match read_typed(k, dir, idx) {
            None => {
                break;
            },
            Some((name, kind, pa)) => {
                let len: u64 = (name.len() as u64 + 27) / 8 * 8;
                if len > buf_len - written {
                    if written == 0 {
                        return Ok(errno::EINVAL);
                    }
                    break;
                }
                let b: Vec<u8> = make_record(&name, kind, pa, idx, len);
                if let Err(f) = copy_out(k, buf_va.wrapping_add(written), &b) {
                    return Err(f);
                }
                written += len;
                idx = idx.wrapping_add(1);
            },
        }
    }
    let _ = ramfs::fd_seek(k, t, fd, idx);
    Ok(written as i64)
}

/// getcwd(buf, size): the working directory and a zero.
pub open spec fn getcwd_called(s: State, buf_va: u64, size: u64) -> (State, Result<i64, PageFault>) {
    let cwd = files::base_dir(s);
    if buf_va == 0 {
        (s, Ok(errno::EFAULT))
    } else if size < cwd.len() + 1 {
        (s, Ok(errno::ERANGE))
    } else {
        let (s1, r) = user::poked(s, buf_va, cwd.push(0));
        match r {
            Err(f) => (s1, Err(f)),
            Ok(_) => (s1, Ok((cwd.len() + 1) as i64)),
        }
    }
}

pub fn sys_getcwd(k: &mut Kernel, buf_va: u64, size: u64) -> (r: Result<i64, PageFault>)
    requires
        old(k).wf(),
    ensures
        final(k).wf(),
        (final(k)@, r) == getcwd_called(old(k)@, buf_va, size),
{
    if buf_va == 0 {
        return Ok(errno::EFAULT);
    }
    let mut cwd: Vec<u8> = base_of(k);
    let n: u64 = cwd.len() as u64 + 1;
    if size < n {
        return Ok(errno::ERANGE);
    }
    cwd.push(0);
    match copy_out(k, buf_va, &cwd) {
        Err(f) => Err(f),
        Ok(_) => Ok(n as i64),
    }
}

/// Making the directory `p` the working directory.
pub open spec fn directory_entered(s: State, p: Seq<u8>) -> (State, i64) {
    match ramfs::found(s, p) {
        None => (s, errno::ENOENT),
        Some(pa) => if !(ramfs::inode(s, pa).kind is Dir) {
            (s, errno::ENOTDIR)
        } else if sched::current(s) == 0 {
            (s, errno::ENOENT)
        } else {
            let (s1, table) = files::table_ensured(s);
            match table {
                None => (s1, errno::ENOMEM),
                Some(t) => if p.len() <= ramfs::MAX_CWD {
                    (ramfs::cwd_set(s1, t, p), 0)
                } else {
                    (s1, errno::ENAMETOOLONG)
                },
            }
        },
    }
}

/// chdir(path).
pub open spec fn chdir_called(s: State, path_va: u64) -> (State, Result<i64, PageFault>) {
    match files::path_at(s, path_va) {
        Err(f) => (s, Err(f)),
        Ok(Err(e)) => (s, Ok(e)),
        Ok(Ok(p)) => {
            let (s1, r) = directory_entered(s, p);
            (s1, Ok(r))
        },
    }
}

fn enter_directory(k: &mut Kernel, p: &[u8]) -> (r: i64)
    requires
        old(k).wf(),
    ensures
        final(k).wf(),
        (final(k)@, r) == directory_entered(old(k)@, p@),
{
    match ramfs::fs_open(k, p) {
        None => {
            return errno::ENOENT;
        },
        Some(pa) => {
            if ramfs::inode_kind(k, pa) != InodeKind::Dir {
                return errno::ENOTDIR;
            }
        },
    }
    if sched::current_pa(k) == 0 {
        return errno::ENOENT;
    }
    match ensure_table(k) {
        None => errno::ENOMEM,
        Some(t) => {
            if ramfs::fd_set_cwd(k, t, p) {
                0
            } else {
                errno::ENAMETOOLONG
            }
        },
    }
}

pub fn sys_chdir(k: &mut Kernel, path_va: u64) -> (r: Result<i64, PageFault>)
    requires
        old(k).wf(),
    ensures
        final(k).wf(),
        (final(k)@, r) == chdir_called(old(k)@, path_va),
{
    match resolve_path(k, path_va) {
        Err(f) => Err(f),
        Ok(Err(e)) => Ok(e),
        Ok(Ok(p)) => Ok(enter_directory(k, &p)),
    }
}

/// faccessat(dirfd, path): whether the path exists.
pub open spec fn faccessat_called(s: State, dirfd: u64, path_va: u64) -> Result<i64, PageFault> {
    if dirfd as i64 != errno::AT_FDCWD {
        Ok(errno::ENOTDIR)
    } else {
        match files::path_at(s, path_va) {
            Err(f) => Err(f),
            Ok(Err(e)) => Ok(e),
            Ok(Ok(p)) => Ok(
                if ramfs::found(s, p) is Some {
                    0
                } else {
                    errno::ENOENT
                },
            ),
        }
    }
}

pub fn sys_faccessat(k: &Kernel, dirfd: u64, path_va: u64) -> (r: Result<i64, PageFault>)
    requires
        k.wf(),
    ensures
        r == faccessat_called(k@, dirfd, path_va),
{
    if dirfd as i64 != errno::AT_FDCWD {
        return Ok(errno::ENOTDIR);
    }
    match resolve_path(k, path_va) {
        Err(f) => Err(f),
        Ok(Err(e)) => Ok(e),
        Ok(Ok(p)) => match ramfs::fs_open(k, &p) {
            Some(_) => Ok(0),
            None => Ok(errno::ENOENT),
        },
    }
}

/// mkdirat(dirfd, path).
pub open spec fn mkdirat_called(s: State, dirfd: u64, path_va: u64) -> (
    State,
    Result<i64, PageFault>,
) {
    if dirfd as i64 != errno::AT_FDCWD {
        (s, Ok(errno::ENOTDIR))
    } else {
        match files::path_at(s, path_va) {
            Err(f) => (s, Err(f)),
            Ok(Err(e)) => (s, Ok(e)),
            Ok(Ok(p)) => {
                let (s1, r) = ramfs::dir_made(s, p);
                (
                    s1,
                    Ok(
                        match r {
                            Ok(_) => 0,
                            Err(FsError::Exists) => errno::EEXIST,
                            Err(FsError::NotFound) => errno::ENOENT,
                            Err(_) => errno::EINVAL,
                        },
                    ),
                )
            },
        }
    }
}

pub fn sys_mkdirat(k: &mut Kernel, dirfd: u64, path_va: u64) -> (r: Result<i64, PageFault>)
    requires
        old(k).wf(),
    ensures
        final(k).wf(),
        (final(k)@, r) == mkdirat_called(old(k)@, dirfd, path_va),
{
    if dirfd as i64 != errno::AT_FDCWD {
        return Ok(errno::ENOTDIR);
    }
    match resolve_path(k, path_va) {
        Err(f) => Err(f),
        Ok(Err(e)) => Ok(e),
        Ok(Ok(p)) => match ramfs::fs_mkdir(k, &p) {
            Ok(_) => Ok(0),
            Err(FsError::Exists) => Ok(errno::EEXIST),
            Err(FsError::NotFound) => Ok(errno::ENOENT),
            Err(_) => Ok(errno::EINVAL),
        },
    }
}

} // verus!
