//! Files, positions and buffers as a Linux process sees them.
use crate::bytes;
use crate::fs::descriptors;
use crate::fs::paths;
use crate::fs::ramfs::{self, FdEntry, Inode, InodeKind};
use crate::fs::tree;
use crate::kernel::{self, State};
use crate::linux_compat::user::PageFault;
use crate::linux_compat::{dirs, errno, files, info, user};
use crate::mm::buddy;
use crate::objects;
use crate::path;
use crate::sched;
use crate::syscall;
use vstd::prelude::*;

verus! {

/// No two of the `n` addresses from `va` on are mapped to one place.
pub open spec fn apart(s: State, va: u64, n: nat) -> bool {
    forall|i: int, j: int|
        #![trigger syscall::caller_pa(s, (va + i) as u64), syscall::caller_pa(s, (va + j) as u64)]
        0 <= i < j < n ==> syscall::caller_pa(s, (va + i) as u64) != syscall::caller_pa(
            s,
            (va + j) as u64,
        )
}

/// The physical address `a` is none of the `n` from the caller's `va` on.
pub open spec fn outside(s: State, va: u64, n: nat, a: u64) -> bool {
    forall|i: int|
        0 <= i < n ==> (#[trigger] syscall::caller_pa(s, (va + i) as u64)) != Some(a)
}

proof fn lemma_user_stored(s: State, va: u64, data: Seq<u8>, k: int, a: u64)
    requires
        user::reachable(s, va, data.len()),
        apart(s, va, data.len()),
    ensures
        ({
            let t = user::user_stored(s, va, data);
            &&& t == (State { bytes: t.bytes, ..s })
            &&& 0 <= k < data.len() ==> objects::at(
                t.bytes,
                syscall::caller_pa(s, (va + k) as u64)->0,
            ) == data[k]
            &&& outside(s, va, data.len(), a) ==> objects::at(t.bytes, a) == objects::at(s.bytes, a)
        }),
    decreases data.len(),
{
    if data.len() > 0 {
        let rest = data.drop_last();
        assert(user::reachable(s, va, rest.len()));
        assert(apart(s, va, rest.len()));
        lemma_user_stored(s, va, rest, k, a);
        let last = (va + data.len() - 1) as u64;
        assert(syscall::caller_pa(s, last) is Some);
        if 0 <= k < data.len() - 1 {
            assert(syscall::caller_pa(s, (va + k) as u64) is Some);
            assert(syscall::caller_pa(s, (va + k) as u64) != syscall::caller_pa(
                s,
                (va + (data.len() - 1)) as u64,
            ));
        }
        if outside(s, va, data.len(), a) {
            assert(syscall::caller_pa(s, (va + (data.len() - 1)) as u64) != Some(a));
            assert(outside(s, va, rest.len(), a));
        }
    }
}

/// What the kernel writes to the caller's memory is what the caller reads there,
/// and no other memory changes.
pub proof fn law_poked_peeked(s: State, va: u64, data: Seq<u8>, a: u64)
    requires
        user::reachable(s, va, data.len()),
        apart(s, va, data.len()),
    ensures
        ({
            let (s1, r) = user::poked(s, va, data);
            &&& r is Ok
            &&& user::peeked(s1, va, data.len()) == Ok::<Seq<u8>, PageFault>(data)
            &&& outside(s, va, data.len(), a) ==> objects::at(s1.bytes, a) == objects::at(
                s.bytes,
                a,
            )
            &&& s1 == (State { bytes: s1.bytes, ..s })
        }),
{
    let s1 = user::user_stored(s, va, data);
    lemma_user_stored(s, va, data, 0, a);
    assert forall|v: u64| #[trigger] syscall::caller_pa(s1, v) == syscall::caller_pa(s, v) by {}
    assert(user::reachable(s1, va, data.len()));
    let got = Seq::new(
        data.len(),
        |i: int| objects::at(s1.bytes, syscall::caller_pa(s1, (va + i) as u64)->0),
    );
    assert forall|i: int| 0 <= i < data.len() implies got[i] == data[i] by {
        lemma_user_stored(s, va, data, i, a);
    }
    assert(got =~= data);
}

/// What a process writes to descriptor 1 or 2 is transmitted, all of it and
/// nothing else.
pub proof fn law_console_write(s: State, fd: u64, ptr: u64, len: u64, data: Seq<u8>)
    requires
        fd == 1 || fd == 2,
        user::peeked(s, ptr, len as nat) == Ok::<Seq<u8>, PageFault>(data),
    ensures
        files::write_called(s, fd, ptr, len) == (
            State { tx: s.tx + data, ..s },
            Ok::<i64, PageFault>(len as i64),
        ),
        data.len() == len,
{
}

/// A process that reads descriptor 0 gets the byte from the console.
pub proof fn law_console_read(s: State, ptr: u64, len: u64, input: u8)
    requires
        len > 0,
        user::reachable(s, ptr, 1),
    ensures
        ({
            let (s1, r) = files::read_called(s, 0, ptr, len, input);
            &&& r == Ok::<i64, PageFault>(1)
            &&& user::peeked(s1, ptr, 1) == Ok::<Seq<u8>, PageFault>(seq![input])
        }),
{
    law_poked_peeked(s, ptr, seq![input], 0);
}

/// read(fd, ptr, len) puts the bytes of the file from the position on into the
/// buffer, as many as there are up to `len`, returns how many, and moves the
/// position past them.
pub proof fn law_file_read(s: State, fd: u64, ptr: u64, len: u64, input: u8, t: u64, e: FdEntry)
    requires
        fd != 0,
        files::open_fd(s, fd) == Some((t, e)),
        user::reachable(s, ptr, ramfs::file_bytes(s, e.inode_pa, e.offset, len as int).len()),
        apart(s, ptr, ramfs::file_bytes(s, e.inode_pa, e.offset, len as int).len()),
    ensures
        ({
            let data = ramfs::file_bytes(s, e.inode_pa, e.offset, len as int);
            let (s1, r) = files::read_called(s, fd, ptr, len, input);
            &&& r == Ok::<i64, PageFault>(data.len() as i64)
            &&& user::peeked(s1, ptr, data.len()) == Ok::<Seq<u8>, PageFault>(data)
            &&& ramfs::fd_entry(s1, t, fd) == Some(
                FdEntry { offset: e.offset.wrapping_add(data.len() as u64), ..e },
            )
            &&& forall|i: u64|
                i != fd ==> #[trigger] ramfs::fd_entry(s1, t, i) == ramfs::fd_entry(s, t, i)
            &&& s1.inodes == s.inodes && s1.dirents == s.dirents
        }),
{
    let data = ramfs::file_bytes(s, e.inode_pa, e.offset, len as int);
    law_poked_peeked(s, ptr, data, 0);
    let s1 = user::poked(s, ptr, data).0;
    let s2 = ramfs::fd_advanced(s1, t, fd, data.len() as u64);
    assert forall|v: u64| #[trigger] syscall::caller_pa(s2, v) == syscall::caller_pa(s1, v) by {}
    assert(user::reachable(s2, ptr, data.len()) == user::reachable(s1, ptr, data.len()));
    assert(user::peeked(s2, ptr, data.len())->Ok_0 =~= user::peeked(s1, ptr, data.len())->Ok_0);
}

/// Where write puts its bytes: at the end of a file opened for appending, else
/// at the position.
pub open spec fn write_offset(s: State, e: FdEntry) -> u64 {
    if e.flags & errno::O_APPEND != 0 {
        ramfs::inode(s, e.inode_pa).size
    } else {
        e.offset
    }
}

/// write(fd, ptr, len) puts the caller's bytes into the file at the position, or
/// at its end if it was opened for appending: all of them where they fit in its
/// page. They are read back from there; the position is behind them; every other
/// file stays.
pub proof fn law_file_write(s: State, fd: u64, ptr: u64, len: u64, t: u64, e: FdEntry)
    requires
        fd != 1,
        fd != 2,
        files::open_fd(s, fd) == Some((t, e)),
        tree::tree_ok(s),
        !buddy::is_free(s.mm.lists, e.inode_pa as int),
        !buddy::is_free(s.mm.lists, t as int),
        ramfs::inode(s, e.inode_pa).data_pa != 0,
    ensures
        ({
            let at = write_offset(s, e);
            let (s1, r) = files::write_called(s, fd, ptr, len);
            r matches Ok(n) ==> n >= 0 ==> {
                &&& 0 < n <= len
                &&& at + len <= 4096 ==> n == len
                &&& user::peeked(s, ptr, n as nat) == Ok::<Seq<u8>, PageFault>(
                    ramfs::file_bytes(s1, e.inode_pa, at, n as int),
                )
                &&& ramfs::fd_entry(s1, t, fd) == Some(FdEntry { offset: (at + n) as u64, ..e })
                &&& forall|i: u64|
                    i != fd ==> #[trigger] ramfs::fd_entry(s1, t, i) == ramfs::fd_entry(s, t, i)
                &&& forall|q: u64|
                    q != e.inode_pa ==> #[trigger] ramfs::file_bytes(s1, q, 0, 4096)
                        == ramfs::file_bytes(s, q, 0, 4096)
            }
        }),
        ({
            let at = write_offset(s, e);
            ramfs::inode(s, e.inode_pa).kind is File && 0 < len && at + len <= 4096
                && user::reachable(s, ptr, len as nat) ==> files::write_called(s, fd, ptr, len).1
                == Ok::<i64, PageFault>(len as i64)
        }),
{
    let at = write_offset(s, e);
    let (s1, ready) = ramfs::write_prepared(s, e.inode_pa, at, len as int);
    assert(s1 == s);
    if let Ok((d, n)) = ready {
        if let Ok(data) = user::peeked(s, ptr, n as nat) {
            let s2 = ramfs::write_filled(s, e.inode_pa, d, at, data);
            assert(data.len() == n);
            assert(data.take(n) =~= data);
            assert(ramfs::write_len(at, n) == n);
            assert(ramfs::file_written(s, e.inode_pa, at, data) == (
                s2,
                Ok::<u64, ramfs::FsError>(n as u64),
            ));
            tree::law_written_bytes_read_back(s, e.inode_pa, at, data);
            assert(ramfs::fd_entry(s2, t, fd) == Some(e));
            let s3 = ramfs::fd_sought(s2, t, fd, (at + n) as u64).0;
            assert(s3.bytes == s2.bytes && s3.inodes == s2.inodes);
            assert forall|q: u64, off: u64, m: int| #[trigger]
                ramfs::file_bytes(s3, q, off, m) == ramfs::file_bytes(s2, q, off, m) by {}
            assert(ramfs::file_bytes(s3, e.inode_pa, at, n) == data);
        }
    }
}

/// lseek sets the position: from the start, from the position or from the end of
/// the file. A position before the start is refused, and nothing changes then.
pub proof fn law_lseek(s: State, fd: u64, offset: i64, whence: u64, t: u64, e: FdEntry)
    requires
        files::open_fd(s, fd) == Some((t, e)),
        e.offset <= i64::MAX,
        ramfs::inode(s, e.inode_pa).size <= i64::MAX,
    ensures
        ({
            let (s1, r) = files::lseek_called(s, fd, offset, whence);
            let size = ramfs::inode(s, e.inode_pa).size as int;
            let goal = if whence == 0 {
                offset as int
            } else if whence == 1 {
                e.offset + offset
            } else {
                size + offset
            };
            &&& whence <= 2 && 0 <= goal <= i64::MAX ==> {
                &&& r == goal
                &&& ramfs::fd_entry(s1, t, fd) == Some(FdEntry { offset: goal as u64, ..e })
                &&& forall|i: u64|
                    i != fd ==> #[trigger] ramfs::fd_entry(s1, t, i) == ramfs::fd_entry(s, t, i)
            }
            &&& whence > 2 || goal < 0 ==> r == errno::EINVAL && s1 == s
        }),
{
}

/// A descriptor that is not open is answered EBADF by every call on it, and
/// nothing changes.
pub proof fn law_closed_descriptor_refused(s: State, fd: u64, a: u64, b: u64, input: u8)
    requires
        files::open_fd(s, fd) is None,
        fd > 2,
    ensures
        files::read_called(s, fd, a, b, input) == (s, Ok::<i64, PageFault>(errno::EBADF)),
        files::write_called(s, fd, a, b) == (s, Ok::<i64, PageFault>(errno::EBADF)),
        files::lseek_called(s, fd, a as i64, b) == (s, errno::EBADF),
        files::fstat_called(s, fd, a) == (s, Ok::<i64, PageFault>(errno::EBADF)),
        dirs::getdents_called(s, fd, a, b) == (s, Ok::<i64, PageFault>(errno::EBADF)),
{
}

/// close frees the descriptor and no other.
pub proof fn law_close(s: State, fd: u64, t: u64)
    requires
        files::own_table(s) == Some(t),
    ensures
        ({
            let (s1, r) = files::close_called(s, fd);
            &&& r == 0
            &&& files::open_fd(s1, fd) is None
            &&& forall|i: u64|
                i != fd ==> #[trigger] ramfs::fd_entry(s1, t, i) == ramfs::fd_entry(s, t, i)
        }),
{
    descriptors::law_closed_descriptor(s, t, fd);
    let s1 = ramfs::fd_closed(s, t, fd);
    assert(kernel::tcb(s1, sched::current(s1)) == kernel::tcb(s, sched::current(s)));
}

/// dup gives the lowest free descriptor for the same file at the same position.
pub proof fn law_dup(s: State, old_fd: u64, t: u64, e: FdEntry)
    requires
        files::own_table(s) == Some(t),
        ramfs::fd_entry(s, t, old_fd) == Some(e),
    ensures
        ({
            let (s1, r) = files::dup_called(s, old_fd, None);
            &&& r >= 0 || r == errno::ENOMEM
            &&& r >= 0 ==> {
                let fd = r as u64;
                &&& fd < ramfs::MAX_FDS
                &&& ramfs::fd_entry(s, t, fd) is None
                &&& ramfs::fd_entry(s1, t, fd) == Some(e)
                &&& ramfs::fd_entry(s1, t, old_fd) == Some(e)
                &&& forall|i: u64| i < fd ==> (#[trigger] ramfs::fd_entry(s, t, i)) is Some
            }
            &&& r < 0 ==> s1 == s
        }),
{
    descriptors::law_opened_descriptor(s, t, e.inode_pa, e.flags);
}

/// dup3 makes the second descriptor the same as the first, whatever it was.
pub proof fn law_dup3(s: State, old_fd: u64, new_fd: u64, t: u64, e: FdEntry)
    requires
        files::own_table(s) == Some(t),
        ramfs::fd_entry(s, t, old_fd) == Some(e),
        old_fd != new_fd,
        new_fd < ramfs::MAX_FDS,
    ensures
        ({
            let (s1, r) = files::dup_called(s, old_fd, Some(new_fd));
            &&& r == new_fd
            &&& ramfs::fd_entry(s1, t, new_fd) == Some(e)
            &&& forall|i: u64|
                i != new_fd ==> #[trigger] ramfs::fd_entry(s1, t, i) == ramfs::fd_entry(s, t, i)
        }),
{
    descriptors::law_closed_descriptor(s, t, new_fd);
    let s1 = ramfs::fd_closed(s, t, new_fd);
    descriptors::law_duplicated_descriptor(s1, t, old_fd, new_fd);
}

/// Opening a path that exists gives the lowest free descriptor at its start, with
/// the flags it was opened with; with O_TRUNC a file is empty then, without it
/// its content stays.
pub proof fn law_open_existing(s: State, p: Seq<u8>, flags: u64, t: u64, pa: u64)
    requires
        files::own_table(s) == Some(t),
        ramfs::found(s, p) == Some(pa),
        pa != 0,
    ensures
        ({
            let (s1, r) = files::path_opened(s, p, flags);
            r >= 0 ==> {
                let fd = r as u64;
                &&& ramfs::fd_entry(s, t, fd) is None
                &&& ramfs::fd_entry(s1, t, fd) == Some(
                    FdEntry { inode_pa: pa, offset: 0, flags: flags as u32 },
                )
                &&& forall|i: u64| i < fd ==> (#[trigger] ramfs::fd_entry(s, t, i)) is Some
                &&& forall|i: u64|
                    i != fd ==> #[trigger] ramfs::fd_entry(s1, t, i) == ramfs::fd_entry(s, t, i)
                &&& flags & errno::O_TRUNC == 0 ==> s1.inodes == s.inodes && s1.bytes == s.bytes
                &&& flags & errno::O_TRUNC != 0 && ramfs::inode(s, pa).kind is File ==> ramfs::inode(
                    s1,
                    pa,
                ).size == 0
                &&& forall|q: u64|
                    q != pa ==> #[trigger] ramfs::inode(s1, q) == ramfs::inode(s, q)
            }
        }),
{
    let s0 = files::open_target(s, p, flags).0;
    assert(ramfs::fd_table(s0, t) == ramfs::fd_table(s, t));
    assert forall|i: u64| ramfs::fd_entry(s0, t, i) == #[trigger] ramfs::fd_entry(s, t, i) by {}
    descriptors::law_opened_descriptor(s0, t, pa, flags as u32);
    let (s1, fd) = ramfs::fd_allocated(s0, t, pa, flags as u32);
    assert(s1.inodes == s0.inodes && s1.bytes == s0.bytes);
    assert forall|q: u64| q != pa implies #[trigger] ramfs::inode(s1, q) == ramfs::inode(s, q) by {}
}

/// Opening a path that leads nowhere creates an empty file there with O_CREAT,
/// and is answered ENOENT without it; nothing changes then.
pub proof fn law_open_missing(s: State, p: Seq<u8>, flags: u64)
    requires
        ramfs::found(s, p) is None,
        paths::paths_ok(s),
        paths::plain_name(s, p),
    ensures
        flags & errno::O_CREAT == 0 ==> files::path_opened(s, p, flags) == (s, errno::ENOENT),
        flags & errno::O_CREAT != 0 ==> (files::open_target(s, p, flags) matches (s1, Ok(pa)) ==> {
            &&& ramfs::found(s1, p) == Some(pa)
            &&& ramfs::inode(s1, pa) == (Inode { kind: InodeKind::File, size: 0, data_pa: 0 })
            &&& forall|q: Seq<u8>|
                path::components(q) != path::components(p) ==> #[trigger] ramfs::found(s1, q)
                    == ramfs::found(s, q)
        }),
{
    paths::law_created_file_found(s, p);
}

/// After chdir to a directory, getcwd gives its path, and relative paths start
/// there; nothing else of the descriptor table changes.
pub proof fn law_chdir_then_getcwd(s: State, p: Seq<u8>, t: u64, pa: u64, fd: u64)
    requires
        files::own_table(s) == Some(t),
        ramfs::found(s, p) == Some(pa),
        ramfs::inode(s, pa).kind is Dir,
        0 < p.len() <= ramfs::MAX_CWD,
        !p.contains(0u8),
    ensures
        ({
            let (s1, r) = dirs::directory_entered(s, p);
            &&& r == 0
            &&& files::base_dir(s1) == p
            &&& ramfs::fd_entry(s1, t, fd) == ramfs::fd_entry(s, t, fd)
        }),
{
    descriptors::law_cwd_read_back(s, t, p);
    let s1 = ramfs::cwd_set(s, t, p);
    assert(kernel::tcb(s1, sched::current(s1)) == kernel::tcb(s, sched::current(s)));
}

/// getcwd puts the working directory and a zero into the buffer, and returns
/// their number; a buffer that is too small is answered ERANGE.
pub proof fn law_getcwd(s: State, buf: u64, size: u64)
    requires
        buf != 0,
        user::reachable(s, buf, files::base_dir(s).len() + 1),
        apart(s, buf, files::base_dir(s).len() + 1),
    ensures
        ({
            let cwd = files::base_dir(s);
            let (s1, r) = dirs::getcwd_called(s, buf, size);
            if size < cwd.len() + 1 {
                s1 == s && r == Ok::<i64, PageFault>(errno::ERANGE)
            } else {
                &&& r == Ok::<i64, PageFault>((cwd.len() + 1) as i64)
                &&& user::peeked(s1, buf, cwd.len() + 1) == Ok::<Seq<u8>, PageFault>(cwd.push(0))
            }
        }),
{
    law_poked_peeked(s, buf, files::base_dir(s).push(0), 0);
}

/// chdir to a path that is no directory changes nothing and is answered why.
pub proof fn law_chdir_refused(s: State, p: Seq<u8>)
    ensures
        ramfs::found(s, p) is None ==> dirs::directory_entered(s, p) == (s, errno::ENOENT),
        ramfs::found(s, p) matches Some(pa) && !(ramfs::inode(s, pa).kind is Dir)
            ==> dirs::directory_entered(s, p) == (s, errno::ENOTDIR),
{
}

/// A relative path is taken from the working directory, an absolute one is not.
pub proof fn law_relative_paths(base: Seq<u8>, raw: Seq<u8>)
    requires
        base.len() > 0,
        base[0] == path::SLASH,
        raw.len() > 0,
        !raw.contains(0u8),
    ensures
        raw[0] == path::SLASH ==> files::absolute(base, raw) == raw,
        raw[0] != path::SLASH ==> {
            let full = files::absolute(base, raw);
            &&& full[0] == path::SLASH
            &&& full.take(base.len() as int) == base
            &&& full.skip(full.len() - raw.len()) == raw
            &&& full[full.len() - raw.len() - 1] == path::SLASH
        },
{
    let full = files::absolute(base, raw);
    if raw[0] != path::SLASH {
        assert(full.take(base.len() as int) =~= base);
        assert(full.skip(full.len() - raw.len()) =~= raw);
    }
}

/// A process has the number it was given, and its parent's is its parent's.
pub proof fn law_own_numbers(s: State)
    requires
        sched::current(s) != 0,
    ensures
        info::own_pid(s) == kernel::tcb(s, sched::current(s)).pid,
        kernel::tcb(s, sched::current(s)).parent_pa != 0 ==> info::parent_pid(s) == kernel::tcb(
            s,
            kernel::tcb(s, sched::current(s)).parent_pa,
        ).pid,
{
}

/// struct stat: the size, the mode and the link count stand where the C library
/// reads them, and the mode tells files from directories.
pub proof fn law_stat_fields(s: State, pa: u64)
    ensures
        ({
            let b = files::inode_stat(s, pa);
            let n = ramfs::inode(s, pa);
            &&& b.len() == 128
            &&& bytes::le64(b, 48) == n.size
            &&& bytes::le32(b, 16) == (if n.kind is Dir {
                0o040755u32
            } else {
                0o100644u32
            })
            &&& bytes::le32(b, 20) == 1
            &&& bytes::le64(b, 8) == pa >> 12u64
        }),
{
    let n = ramfs::inode(s, pa);
    let mode: u64 = if n.kind is Dir {
        errno::MODE_DIR
    } else {
        errno::MODE_FILE
    };
    let blocks = n.size.wrapping_add(511) / 512;
    let ino = pa >> 12u64;
    let parts = seq![
        files::zeros(8),
        bytes::le_bytes(ino as nat, 8),
        bytes::le_bytes(mode as nat, 4),
        bytes::le_bytes(1, 4),
        files::zeros(24),
        bytes::le_bytes(n.size as nat, 8),
        bytes::le_bytes(4096, 4),
        files::zeros(4),
        bytes::le_bytes(blocks as nat, 8),
        files::zeros(56),
    ];
    bytes::law_number_read_back(ino);
    bytes::law_number_read_back(n.size);
    bytes::law_number_read_back(blocks);
    bytes::law_word_read_back(mode as u32);
    bytes::law_word_read_back(1);
    bytes::law_word_read_back(4096);
    let b = files::inode_stat(s, pa);
    assert(b == files::stat_bytes(ino as nat, mode as nat, n.size as nat, blocks as nat));
    assert(b.subrange(8, 16) =~= parts[1]);
    assert(b.subrange(16, 20) =~= parts[2]);
    assert(b.subrange(20, 24) =~= parts[3]);
    assert(b.subrange(48, 56) =~= parts[5]);
    bytes::lemma_le64_at(b, 8);
    bytes::lemma_le64_at(b, 48);
    bytes::lemma_le32_at(b, 16);
    bytes::lemma_le32_at(b, 20);
}

} // verus!
