//! What the file calls do with descriptors, buffers and files.
use crate::arch::riscv64::trap::{self, TrapFrame};
use crate::fs::descriptors;
use crate::fs::paths;
use crate::fs::ramfs::{self, FdEntry, Inode, InodeKind};
use crate::fs::tree;
use crate::kernel::{self, State};
use crate::mm::buddy;
use crate::objects;
use crate::path;
use crate::sched;
use crate::syscall::{self, error, label};
use vstd::prelude::*;

verus! {

/// The caller has the descriptor table at `t`.
pub open spec fn has_table(s: State, t: u64) -> bool {
    sched::current(s) != 0 && t != 0 && kernel::tcb(s, sched::current(s)).fd_table_pa == t
}

/// A file call returns to its caller with its reply in a0 to a7, and takes its
/// arguments from a2 to a5.
pub proof fn law_file_call_replies(s: State, f: TrapFrame)
    requires
        syscall::is_fs_label(f.x[11]),
    ensures
        ({
            let (s1, f1) = syscall::dispatched(s, f);
            let (s2, reply) = syscall::fs_served(s, f.x[11], f.x[12], f.x[13], f.x[14], f.x[15]);
            &&& s1 == s2
            &&& f1.x[10] == reply[0]
            &&& f1.x[11] == reply[1]
            &&& f1.x[12] == reply[2]
            &&& f1.sepc == f.sepc
            &&& forall|i: int| 0 <= i < 32 && !(10 <= i < 18) ==> #[trigger] f1.x[i] == f.x[i]
        }),
{
    let reply = syscall::fs_served(s, f.x[11], f.x[12], f.x[13], f.x[14], f.x[15]).1;
    trap::law_reply_read_back(f, reply);
    assert(trap::replied(f, reply).x[10 + 0int] == reply[0]);
    assert(trap::replied(f, reply).x[10 + 1int] == reply[1]);
    assert(trap::replied(f, reply).x[10 + 2int] == reply[2]);
}

/// A caller without a descriptor table gets an empty one and keeps it: its next
/// call finds the same.
pub proof fn law_table_persists(s: State)
    requires
        sched::current(s) != 0,
    ensures
        syscall::fd_table_got(s) matches (s1, Some(t)) ==> {
            &&& kernel::tcb(s1, sched::current(s)).fd_table_pa == t
            &&& t != 0 ==> syscall::fd_table_got(s1) == (s1, Some(t))
            &&& kernel::tcb(s, sched::current(s)).fd_table_pa != 0 ==> s1 == s
        },
{
}

/// Opening a path that exists gives the lowest free descriptor, at the start of
/// what the path leads to; every other descriptor stays. A path that leads
/// nowhere is answered INVALID_CAPABILITY.
pub proof fn law_open_call(s: State, va: u64, len: u64, p: Seq<u8>, t: u64)
    requires
        has_table(s, t),
        syscall::caller_bytes(s, va, len) == Some(p),
        ramfs::found(s, p) matches Some(pa) ==> pa != 0,
    ensures
        ({
            let (s1, r) = syscall::fs_served(s, label::FS_OPEN, va, len, 0, 0);
            match ramfs::found(s, p) {
                None => s1 == s && r[0] == error::INVALID_CAPABILITY,
                Some(pa) => {
                    &&& r[0] == error::OK || r[0] == error::ILLEGAL_OPERATION
                    &&& r[0] == error::OK ==> is_opened(s, s1, t, r[1], pa)
                    &&& r[0] != error::OK ==> s1 == s && forall|i: u64|
                        i < ramfs::MAX_FDS ==> (#[trigger] ramfs::fd_entry(s, t, i)) is Some
                },
            }
        }),
{
    if let Some(pa) = ramfs::found(s, p) {
        descriptors::law_opened_descriptor(s, t, pa, 0);
    }
}

/// Descriptor `fd` of the table `t` was the lowest free one and is open now at
/// the start of `pa`; nothing else has changed.
pub open spec fn is_opened(s: State, s1: State, t: u64, fd: u64, pa: u64) -> bool {
    &&& ramfs::fd_entry(s, t, fd) is None
    &&& ramfs::fd_entry(s1, t, fd) == Some(FdEntry { inode_pa: pa, offset: 0, flags: 0 })
    &&& forall|i: u64| i < fd ==> (#[trigger] ramfs::fd_entry(s, t, i)) is Some
    &&& forall|i: u64|
        i != fd ==> #[trigger] ramfs::fd_entry(s1, t, i) == ramfs::fd_entry(s, t, i)
    &&& s1.inodes == s.inodes && s1.dirents == s.dirents && s1.bytes == s.bytes
}

/// Closing frees the descriptor and no other, and is always answered OK.
pub proof fn law_close_call(s: State, fd: u64, t: u64, a3: u64, a4: u64, a5: u64)
    requires
        has_table(s, t),
    ensures
        ({
            let (s1, r) = syscall::fs_served(s, label::FS_CLOSE, fd, a3, a4, a5);
            &&& r[0] == error::OK
            &&& ramfs::fd_entry(s1, t, fd) is None
            &&& forall|i: u64|
                i != fd ==> #[trigger] ramfs::fd_entry(s1, t, i) == ramfs::fd_entry(s, t, i)
        }),
{
    descriptors::law_closed_descriptor(s, t, fd);
}

/// A read gets the bytes from the offset up to the end of the file, but no more
/// than asked for.
pub proof fn law_read_length(s: State, pa: u64, offset: u64, len: int)
    requires
        0 <= len,
    ensures
        ({
            let n = ramfs::inode(s, pa);
            let b = ramfs::file_bytes(s, pa, offset, len);
            n.kind is File && n.data_pa != 0 ==> {
                &&& offset >= n.size ==> b.len() == 0
                &&& offset < n.size && offset + len <= n.size ==> b.len() == len
                &&& offset < n.size && offset + len > n.size ==> b.len() == n.size - offset
            }
        }),
        forall|i: int|
            0 <= i < ramfs::file_bytes(s, pa, offset, len).len() ==> #[trigger] ramfs::file_bytes(
                s,
                pa,
                offset,
                len,
            )[i] == objects::at(
                s.bytes,
                ramfs::inode(s, pa).data_pa.wrapping_add(offset).wrapping_add(i as u64),
            ),
{
}

/// What is stored at an address is loaded from it.
proof fn lemma_stored_loaded(s: State, pa: u64, data: Seq<u8>)
    requires
        pa + data.len() <= 0x1_0000_0000_0000_0000,
    ensures
        kernel::loaded(kernel::with_bytes(s, pa, data).bytes, pa, data.len()) == data,
{
    let got = kernel::loaded(kernel::with_bytes(s, pa, data).bytes, pa, data.len());
    assert forall|i: int| 0 <= i < data.len() implies got[i] == data[i] by {
        kernel::lemma_stored(s.bytes, pa, data, (pa + i) as u64);
    }
    assert(got =~= data);
}

/// A read puts the bytes of the file from the position on into the caller's
/// buffer, answers how many, and moves the position past them; no other
/// descriptor and no memory outside the buffer changes.
pub proof fn law_read_call(
    s: State,
    fd: u64,
    va: u64,
    len: u64,
    t: u64,
    e: FdEntry,
    pa: u64,
    a: u64,
    a5: u64,
)
    requires
        has_table(s, t),
        ramfs::fd_entry(s, t, fd) == Some(e),
        syscall::caller_pa(s, va) == Some(pa),
        pa + len <= 0x1_0000_0000_0000_0000,
    ensures
        ({
            let data = ramfs::file_bytes(s, e.inode_pa, e.offset, len as int);
            let (s1, r) = syscall::fs_served(s, label::FS_READ, fd, va, len, a5);
            &&& r[0] == error::OK
            &&& r[1] == data.len()
            &&& kernel::loaded(s1.bytes, pa, data.len()) == data
            &&& ramfs::fd_entry(s1, t, fd) == Some(
                FdEntry { offset: e.offset.wrapping_add(data.len() as u64), ..e },
            )
            &&& forall|i: u64|
                i != fd ==> #[trigger] ramfs::fd_entry(s1, t, i) == ramfs::fd_entry(s, t, i)
            &&& !(pa <= a < pa + data.len()) ==> objects::at(s1.bytes, a) == objects::at(s.bytes, a)
            &&& s1.inodes == s.inodes && s1.dirents == s.dirents
        }),
{
    let data = ramfs::file_bytes(s, e.inode_pa, e.offset, len as int);
    assert(data.len() <= len);
    lemma_stored_loaded(s, pa, data);
    kernel::lemma_stored(s.bytes, pa, data, a);
}

/// A write takes the bytes from the caller's buffer to the file at the position,
/// all of them where they fit in the file's page, answers how many, and moves
/// the position past them; they are read back from there.
pub proof fn law_write_call(
    s: State,
    fd: u64,
    va: u64,
    len: u64,
    t: u64,
    e: FdEntry,
    data: Seq<u8>,
    a5: u64,
)
    requires
        tree::tree_ok(s),
        !buddy::is_free(s.mm.lists, e.inode_pa as int),
        has_table(s, t),
        !buddy::is_free(s.mm.lists, t as int),
        ramfs::fd_entry(s, t, fd) == Some(e),
        syscall::caller_bytes(s, va, len) == Some(data),
    ensures
        ({
            let (s1, r) = syscall::fs_served(s, label::FS_WRITE, fd, va, len, a5);
            let n = r[1];
            &&& r[0] == error::OK ==> {
                &&& 0 < n <= data.len()
                &&& e.offset + data.len() <= 4096 ==> n == data.len()
                &&& ramfs::file_bytes(s1, e.inode_pa, e.offset, n as int) == data.take(n as int)
                &&& ramfs::fd_entry(s1, t, fd) == Some(
                    FdEntry { offset: e.offset.wrapping_add(n), ..e },
                )
                &&& forall|i: u64|
                    i != fd ==> #[trigger] ramfs::fd_entry(s1, t, i) == ramfs::fd_entry(s, t, i)
                &&& forall|q: u64|
                    q != e.inode_pa ==> #[trigger] ramfs::file_bytes(s1, q, 0, 4096)
                        == ramfs::file_bytes(s, q, 0, 4096)
            }
            &&& ramfs::inode(s, e.inode_pa).kind is File && ramfs::inode(s, e.inode_pa).data_pa != 0
                && data.len() > 0 && e.offset < 4096 ==> r[0] == error::OK
        }),
{
    let (s1, r) = ramfs::file_written(s, e.inode_pa, e.offset, data);
    tree::law_written_bytes_read_back(s, e.inode_pa, e.offset, data);
    kernel::lemma_page_made(s);
    assert(r is Ok ==> ramfs::fd_table(s1, t) == ramfs::fd_table(s, t));
    assert(data.len() == len);
    if let Ok(n) = r {
        let s2 = ramfs::fd_advanced(s1, t, fd, n);
        assert(s2.bytes == s1.bytes && s2.inodes == s1.inodes);
        assert forall|q: u64, off: u64, m: int| #[trigger]
            ramfs::file_bytes(s2, q, off, m) == ramfs::file_bytes(s1, q, off, m) by {}
        assert(ramfs::file_bytes(s2, e.inode_pa, e.offset, n as int) == data.take(n as int));
    }
}

/// A directory that the call made is found under its path; what was there before
/// stays. A path that exists is refused.
pub proof fn law_mkdir_call(s: State, va: u64, len: u64, p: Seq<u8>, a4: u64, a5: u64)
    requires
        paths::paths_ok(s),
        paths::plain_name(s, p),
        syscall::caller_bytes(s, va, len) == Some(p),
    ensures
        ({
            let (s1, r) = syscall::fs_served(s, label::FS_MKDIR, va, len, a4, a5);
            &&& r[0] == error::OK <==> ramfs::dir_made(s, p).1 is Ok
            &&& r[0] == error::OK ==> {
                &&& ramfs::found(s, p) is None
                &&& ramfs::found(s1, p) matches Some(pa) && ramfs::inode(s1, pa).kind is Dir
                    && ramfs::inode(s1, pa).size == 0
                &&& forall|q: Seq<u8>|
                    path::components(q) != path::components(p) ==> #[trigger] ramfs::found(s1, q)
                        == ramfs::found(s, q)
            }
        }),
{
    paths::law_made_dir_found(s, p);
}

/// A file that the call created is found under its path, empty, and the answer
/// is a descriptor at its start.
pub proof fn law_create_call(s: State, va: u64, len: u64, p: Seq<u8>, t: u64, a4: u64, a5: u64)
    requires
        paths::paths_ok(s),
        paths::plain_name(s, p),
        has_table(s, t),
        !buddy::is_free(s.mm.lists, t as int),
        !buddy::is_free(s.mm.lists, sched::current(s) as int),
        syscall::caller_bytes(s, va, len) == Some(p),
    ensures
        ({
            let (s1, r) = syscall::fs_served(s, label::FS_CREATE, va, len, a4, a5);
            r[0] == error::OK ==> {
                &&& ramfs::found(s, p) is None
                &&& ramfs::fd_entry(s, t, r[1]) is None
                &&& ramfs::fd_entry(s1, t, r[1]) matches Some(e) && ramfs::found(s1, p) == Some(
                    e.inode_pa,
                ) && e.offset == 0 && ramfs::inode(s1, e.inode_pa) == (Inode {
                    kind: InodeKind::File,
                    size: 0,
                    data_pa: 0,
                })
                &&& forall|i: u64|
                    i != r[1] ==> #[trigger] ramfs::fd_entry(s1, t, i) == ramfs::fd_entry(s, t, i)
            }
        }),
{
    let (s1, made) = ramfs::file_made(s, p);
    paths::law_created_file_found(s, p);
    if let Ok(pa) = made {
        lemma_made_keeps(s, p, t);
        lemma_made_keeps(s, p, sched::current(s));
        assert(s1.sched == s.sched && s1.hart == s.hart) by {
            lemma_made_sched(s, p);
        }
        kernel::lemma_page_made(s);
        descriptors::law_opened_descriptor(s1, t, pa, 0);
        let (s2, fd) = ramfs::fd_allocated(s1, t, pa, 0);
        lemma_same_tree(s1, s2, p);
    }
}

/// A path leads to the same inode where inodes and entries are the same.
proof fn lemma_same_tree(s: State, t: State, p: Seq<u8>)
    requires
        t.inodes == s.inodes,
        t.dirents == s.dirents,
        t.fs_root == s.fs_root,
    ensures
        ramfs::found(t, p) == ramfs::found(s, p),
{
    lemma_same_walk(s, t, s.fs_root, path::components(p));
}

proof fn lemma_same_walk(s: State, t: State, cur: u64, cs: Seq<Seq<u8>>)
    requires
        t.inodes == s.inodes,
        t.dirents == s.dirents,
    ensures
        ramfs::walked(t, cur, cs) == ramfs::walked(s, cur, cs),
    decreases cs.len(),
{
    if cs.len() > 0 {
        lemma_same_find(s, t, ramfs::inode(s, cur).data_pa, cs[0], 0);
        if let Some(next) = ramfs::child(s, cur, cs[0]) {
            lemma_same_walk(s, t, next, cs.drop_first());
        }
    }
}

proof fn lemma_same_find(s: State, t: State, d: u64, name: Seq<u8>, from: int)
    requires
        t.dirents == s.dirents,
    ensures
        ramfs::find_entry(t, d, name, from) == ramfs::find_entry(s, d, name, from),
    decreases 64 - from,
{
    if from < 64 {
        lemma_same_find(s, t, d, name, from + 1);
    }
}

/// Adding an entry touches no thread and no descriptor table in use.
proof fn lemma_added_keeps(s: State, dir: u64, name: Seq<u8>, kind: InodeKind, child: u64, a: u64)
    requires
        buddy::lists_ok(s.mm.lists),
        !buddy::is_free(s.mm.lists, a as int),
    ensures
        ({
            let s1 = ramfs::entry_added(s, dir, name, kind, child).0;
            &&& objects::at(s1.fd_tables, a) == objects::at(s.fd_tables, a)
            &&& objects::at(s1.tcbs, a) == objects::at(s.tcbs, a)
        }),
{
    kernel::lemma_page_made(s);
}

proof fn lemma_made_keeps(s: State, p: Seq<u8>, a: u64)
    requires
        buddy::lists_ok(s.mm.lists),
        !buddy::is_free(s.mm.lists, a as int),
    ensures
        ({
            let s1 = ramfs::file_made(s, p).0;
            &&& objects::at(s1.fd_tables, a) == objects::at(s.fd_tables, a)
            &&& objects::at(s1.tcbs, a) == objects::at(s.tcbs, a)
        }),
{
    kernel::lemma_page_made(s);
    if let Ok((dir, name)) = ramfs::parent_of(s, p) {
        let (s1, pa) = ramfs::inode_made(s, InodeKind::File);
        if let Some(child) = pa {
            assert(!buddy::is_free(s1.mm.lists, a as int));
            lemma_added_keeps(s1, dir, name, InodeKind::File, child, a);
        }
    }
}

proof fn lemma_added_sched(s: State, dir: u64, name: Seq<u8>, kind: InodeKind, child: u64)
    ensures
        ({
            let s1 = ramfs::entry_added(s, dir, name, kind, child).0;
            s1.sched == s.sched && s1.hart == s.hart
        }),
{
}

proof fn lemma_made_sched(s: State, p: Seq<u8>)
    ensures
        ({
            let s1 = ramfs::file_made(s, p).0;
            s1.sched == s.sched && s1.hart == s.hart
        }),
{
    if let Ok((dir, name)) = ramfs::parent_of(s, p) {
        let (s1, pa) = ramfs::inode_made(s, InodeKind::File);
        if let Some(child) = pa {
            lemma_added_sched(s1, dir, name, InodeKind::File, child);
        }
    }
}

/// stat answers the kind and the size of what the path leads to and changes
/// nothing: 1 and the bytes of a file, 2 and the entries of a directory.
pub proof fn law_stat_call(s: State, va: u64, len: u64, p: Seq<u8>, a4: u64, a5: u64)
    requires
        syscall::caller_bytes(s, va, len) == Some(p),
    ensures
        ({
            let (s1, r) = syscall::fs_served(s, label::FS_STAT, va, len, a4, a5);
            &&& s1 == s
            &&& ramfs::found(s, p) is None ==> r[0] == error::INVALID_CAPABILITY
            &&& ramfs::found(s, p) matches Some(pa) ==> {
                let n = ramfs::inode(s, pa);
                &&& r[0] == error::OK
                &&& r[1] == (if n.kind is Dir {
                    2u64
                } else {
                    1u64
                })
                &&& r[2] == n.size
            }
        }),
{
}

/// Listing a directory gives its entries in use one after the other: the call
/// answers the length of the next name, puts the name and a zero into the
/// buffer, with a slash behind the name of a directory, and moves on; at the end
/// it answers 0.
pub proof fn law_readdir_call(
    s: State,
    fd: u64,
    va: u64,
    len: u64,
    t: u64,
    e: FdEntry,
    pa: u64,
    a5: u64,
)
    requires
        has_table(s, t),
        ramfs::fd_entry(s, t, fd) == Some(e),
        syscall::caller_pa(s, va) == Some(pa),
        54 <= len,
        pa + 54 <= 0x1_0000_0000_0000_0000,
    ensures
        ({
            let (s1, r) = syscall::fs_served(s, label::FS_READDIR, fd, va, len, a5);
            &&& r[0] == error::OK
            &&& match ramfs::listed_entry(s, e.inode_pa, e.offset) {
                None => r[1] == 0 && s1 == s,
                Some(d) => {
                    let name = ramfs::text(d.name@);
                    let shown = if d.kind == 2 {
                        name.push(path::SLASH)
                    } else {
                        name
                    };
                    &&& r[1] == shown.len()
                    &&& kernel::loaded(s1.bytes, pa, shown.len() + 1) == shown.push(0)
                    &&& shown.len() > 0 ==> ramfs::fd_entry(s1, t, fd) == Some(
                        FdEntry { offset: e.offset.wrapping_add(1), ..e },
                    )
                },
            }
        }),
{
    if let Some(d) = ramfs::listed_entry(s, e.inode_pa, e.offset) {
        path::lemma_find_byte(d.name@, 0, 0);
        let name = ramfs::text(d.name@);
        assert(name.len() <= 52);
        let shown = if d.kind == 2 {
            name.push(path::SLASH)
        } else {
            name
        };
        assert(ramfs::listing(d, len as int) == shown.push(0));
        lemma_stored_loaded(s, pa, shown.push(0));
    }
}

} // verus!
