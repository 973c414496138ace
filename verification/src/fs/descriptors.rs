//! Descriptor tables: what opening, closing, copying and moving descriptors keep.
use crate::bytes;
use crate::fs::ramfs::{self, FdEntry, MAX_CWD, MAX_FDS};
use crate::kernel::State;
use crate::path;
use vstd::prelude::*;

verus! {

/// The lowest free descriptor is free, and every lower one is taken.
proof fn lemma_free_fd(t: ramfs::FdTable, from: int)
    requires
        0 <= from <= 16,
    ensures
        match ramfs::free_fd(t, from) {
            None => forall|i: int| from <= i < 16 ==> (#[trigger] t.entries[i]).inode_pa != 0,
            Some(fd) => {
                &&& from <= fd < 16
                &&& t.entries[fd].inode_pa == 0
                &&& forall|i: int| from <= i < fd ==> (#[trigger] t.entries[i]).inode_pa != 0
            },
        },
    decreases 16 - from,
{
    if from < 16 && t.entries[from].inode_pa != 0 {
        lemma_free_fd(t, from + 1);
    }
}

/// An inode that was opened is read from its descriptor, at the start; the
/// descriptor is the lowest free one; every other descriptor stays.
pub proof fn law_opened_descriptor(s: State, table_pa: u64, inode_pa: u64, flags: u32)
    requires
        inode_pa != 0,
    ensures
        match ramfs::fd_allocated(s, table_pa, inode_pa, flags) {
            (s1, Some(fd)) => {
                &&& 0 <= fd < MAX_FDS
                &&& ramfs::fd_entry(s1, table_pa, fd as u64) == Some(
                    FdEntry { inode_pa, offset: 0, flags },
                )
                &&& ramfs::fd_entry(s, table_pa, fd as u64) is None
                &&& forall|i: u64|
                    i < fd ==> (#[trigger] ramfs::fd_entry(s, table_pa, i)) is Some
                &&& forall|i: u64|
                    i != fd ==> #[trigger] ramfs::fd_entry(s1, table_pa, i) == ramfs::fd_entry(
                        s,
                        table_pa,
                        i,
                    )
            },
            (s1, None) => {
                &&& s1 == s
                &&& forall|i: u64|
                    i < MAX_FDS ==> (#[trigger] ramfs::fd_entry(s, table_pa, i)) is Some
            },
        },
{
    lemma_free_fd(ramfs::fd_table(s, table_pa), 0);
}

/// A closed descriptor is free; every other descriptor stays.
pub proof fn law_closed_descriptor(s: State, table_pa: u64, fd: u64)
    ensures
        ramfs::fd_entry(ramfs::fd_closed(s, table_pa, fd), table_pa, fd) is None,
        forall|i: u64|
            i != fd ==> #[trigger] ramfs::fd_entry(ramfs::fd_closed(s, table_pa, fd), table_pa, i)
                == ramfs::fd_entry(s, table_pa, i),
{
}

/// A copied descriptor reads as the one it was copied from; every other
/// descriptor stays.
pub proof fn law_duplicated_descriptor(s: State, table_pa: u64, src: u64, dst: u64)
    ensures
        ramfs::fd_duplicated(s, table_pa, src, dst) matches (s1, true) ==> {
            &&& ramfs::fd_entry(s, table_pa, src) is Some
            &&& ramfs::fd_entry(s1, table_pa, dst) == ramfs::fd_entry(s, table_pa, src)
            &&& forall|i: u64|
                i != dst ==> #[trigger] ramfs::fd_entry(s1, table_pa, i) == ramfs::fd_entry(
                    s,
                    table_pa,
                    i,
                )
        },
{
}

/// A position that was set is read back, and moving forward adds to it.
pub proof fn law_position_moves(s: State, table_pa: u64, fd: u64, offset: u64, delta: u64)
    ensures
        ramfs::fd_sought(s, table_pa, fd, offset) matches (s1, Some(_)) ==> {
            let e = ramfs::fd_entry(s, table_pa, fd)->0;
            let s2 = ramfs::fd_advanced(s1, table_pa, fd, delta);
            &&& ramfs::fd_entry(s1, table_pa, fd) == Some(FdEntry { offset, ..e })
            &&& ramfs::fd_entry(s2, table_pa, fd) == Some(
                FdEntry { offset: offset.wrapping_add(delta), ..e },
            )
        },
{
}

/// A working directory that was stored is read back.
pub proof fn law_cwd_read_back(s: State, table_pa: u64, p: Seq<u8>)
    requires
        0 < p.len() <= MAX_CWD,
        !p.contains(0u8),
    ensures
        ramfs::cwd_of(ramfs::fd_table(ramfs::cwd_set(s, table_pa, p), table_pa)) == p,
{
    let q = ramfs::padded_cwd(p);
    bytes::lemma_array_holds::<128>(q);
    path::lemma_find_byte(q, 0, 0);
    let end = path::find_byte(q, 0, 0);
    if p.len() < 128 {
        assert(q[p.len() as int] == 0);
    }
    if end < p.len() {
        assert(p[end] == q[end]);
        assert(p.contains(0u8));
    }
    assert(q.take(end) =~= p);
}

} // verus!
