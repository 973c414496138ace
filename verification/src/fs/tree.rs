//! The directory tree: what creating, removing, renaming, writing and reading
//! keep of it.
use crate::bytes;
use crate::fs::ramfs::{self, DirEntry, Inode, InodeKind, MAX_NAME};
use crate::kernel::{self, State};
use crate::mm::{buddy, MmState};
use crate::objects::{self, Zeroed};
use crate::path;
use crate::proc::Images;
use vstd::prelude::*;

verus! {

/// Inodes and directory entries lie outside free memory, entries lead to memory
/// in use, and data pages are whole pages in use.
pub open spec fn fs_ok(s: State) -> bool {
    &&& buddy::lists_ok(s.mm.lists)
    &&& forall|a: u64| #[trigger] s.inodes.contains_key(a) ==> !buddy::is_free(s.mm.lists, a as int)
    &&& forall|a: u64| #[trigger]
        s.dirents.contains_key(a) ==> !buddy::is_free(s.mm.lists, a as int) && !buddy::is_free(
            s.mm.lists,
            s.dirents[a].inode_pa as int,
        )
    &&& !buddy::is_free(s.mm.lists, s.fs_root as int)
    &&& forall|pa: u64| (#[trigger] ramfs::inode(s, pa)).data_pa % 4096 == 0
    &&& forall|pa: u64|
        (#[trigger] ramfs::inode(s, pa)).data_pa != 0 ==> kernel::page_in_use(
            s,
            ramfs::inode(s, pa).data_pa,
        )
}

/// No two entries of the directory data page `data_pa` have one name.
pub open spec fn unique_names(s: State, data_pa: u64) -> bool {
    forall|i: int, j: int|
        #![trigger ramfs::entry(s, data_pa, i), ramfs::entry(s, data_pa, j)]
        0 <= i < 64 && 0 <= j < 64 && i != j && ramfs::entry(s, data_pa, i).inode_pa != 0
            && ramfs::entry(s, data_pa, j).inode_pa != 0 ==> ramfs::text(
            ramfs::entry(s, data_pa, i).name@,
        ) != ramfs::text(ramfs::entry(s, data_pa, j).name@)
}

/// Number of entries in use from `from` on.
pub open spec fn live(s: State, data_pa: u64, from: int) -> nat
    decreases 64 - from,
{
    if from >= 64 {
        0
    } else {
        live(s, data_pa, from + 1) + (if ramfs::entry(s, data_pa, from).inode_pa != 0 {
            1nat
        } else {
            0nat
        })
    }
}

/// The directory `pa` has no name twice, and its size is the number of its
/// entries in use.
pub open spec fn dir_ok(s: State, pa: u64) -> bool {
    let n = ramfs::inode(s, pa);
    if n.data_pa == 0 {
        n.size == 0
    } else {
        unique_names(s, n.data_pa) && n.size == live(s, n.data_pa, 0)
    }
}

/// The inode `pa` is sound: as a directory, or as a file that fits in its data
/// page, which holds no directory entries.
pub open spec fn inode_ok(s: State, pa: u64) -> bool {
    let n = ramfs::inode(s, pa);
    if n.kind is Dir {
        dir_ok(s, pa)
    } else {
        if n.data_pa == 0 {
            n.size == 0
        } else {
            n.size <= 4096 && live(s, n.data_pa, 0) == 0
        }
    }
}

/// A sound tree: sound memory, no data page shared by two inodes, and every
/// inode sound.
pub open spec fn tree_ok(s: State) -> bool {
    &&& fs_ok(s)
    &&& forall|p: u64, q: u64|
        #![trigger ramfs::inode(s, p), ramfs::inode(s, q)]
        p != q && ramfs::inode(s, p).data_pa != 0 ==> ramfs::inode(s, p).data_pa != ramfs::inode(
            s,
            q,
        ).data_pa
    &&& forall|p: u64| #[trigger] inode_ok(s, p)
}

/// The first entry with a name, if there is one.
pub(crate) proof fn lemma_find_entry(s: State, data_pa: u64, name: Seq<u8>, from: int)
    requires
        0 <= from <= 64,
    ensures
        match ramfs::find_entry(s, data_pa, name, from) {
            None => forall|k: int|
                from <= k < 64 ==> !#[trigger] ramfs::named(ramfs::entry(s, data_pa, k), name),
            Some(j) => {
                &&& from <= j < 64
                &&& ramfs::named(ramfs::entry(s, data_pa, j), name)
                &&& forall|k: int|
                    from <= k < j ==> !#[trigger] ramfs::named(ramfs::entry(s, data_pa, k), name)
            },
        },
    decreases 64 - from,
{
    if from < 64 && !ramfs::named(ramfs::entry(s, data_pa, from), name) {
        lemma_find_entry(s, data_pa, name, from + 1);
    }
}

/// The entry `j` is found if no entry before it has the name.
pub(crate) proof fn lemma_find_at(s: State, data_pa: u64, name: Seq<u8>, from: int, j: int)
    requires
        0 <= from <= j < 64,
        ramfs::named(ramfs::entry(s, data_pa, j), name),
        forall|k: int| from <= k < j ==> !#[trigger] ramfs::named(ramfs::entry(s, data_pa, k), name),
    ensures
        ramfs::find_entry(s, data_pa, name, from) == Some(j),
    decreases 64 - from,
{
    if from < j {
        lemma_find_at(s, data_pa, name, from + 1, j);
    }
}

/// Nothing is found if no entry has the name.
pub(crate) proof fn lemma_find_none(s: State, data_pa: u64, name: Seq<u8>, from: int)
    requires
        0 <= from <= 64,
        forall|k: int| from <= k < 64 ==> !#[trigger] ramfs::named(ramfs::entry(s, data_pa, k), name),
    ensures
        ramfs::find_entry(s, data_pa, name, from) is None,
    decreases 64 - from,
{
    if from < 64 {
        lemma_find_none(s, data_pa, name, from + 1);
    }
}

/// The first free entry, if there is one.
proof fn lemma_free_entry(s: State, data_pa: u64, from: int)
    requires
        0 <= from <= 64,
    ensures
        ramfs::free_entry(s, data_pa, from) matches Some(j) ==> from <= j < 64 && ramfs::entry(
            s,
            data_pa,
            j,
        ).inode_pa == 0,
    decreases 64 - from,
{
    if from < 64 && ramfs::entry(s, data_pa, from).inode_pa != 0 {
        lemma_free_entry(s, data_pa, from + 1);
    }
}

/// Entries of aligned pages share an address only if page and index agree.
proof fn lemma_entry_addr(d: u64, i: int, e: u64, j: int)
    requires
        d % 4096 == 0,
        e % 4096 == 0,
        0 <= i < 64,
        0 <= j < 64,
    ensures
        d <= ramfs::entry_addr(d, i) < d + 4096,
        ramfs::entry_addr(d, i) == ramfs::entry_addr(e, j) ==> d == e && i == j,
{
    assert(d + 4096 <= 0x1_0000_0000_0000_0000);
    assert(e + 4096 <= 0x1_0000_0000_0000_0000);
}

/// A stored name is read back.
proof fn lemma_new_entry(name: Seq<u8>, kind: InodeKind, child_pa: u64)
    requires
        name.len() <= MAX_NAME,
        !name.contains(0u8),
    ensures
        ramfs::text(ramfs::new_entry(name, kind, child_pa).name@) == name,
{
    let p = ramfs::padded(name);
    bytes::lemma_array_holds::<52>(p);
    path::lemma_find_byte(p, 0, 0);
    let end = path::find_byte(p, 0, 0);
    if name.len() < 52 {
        assert(p[name.len() as int] == 0);
    }
    if end < name.len() {
        assert(name[end] == p[end]);
        assert(name.contains(0u8));
    }
    assert(p.take(end) =~= name);
}

/// Taking a fresh page changes neither inodes nor directory entries, and no
/// entry of the page is in use.
proof fn lemma_fresh_page(s: State)
    requires
        fs_ok(s),
    ensures
        kernel::page_made(s) matches (s1, Some(pa)) ==> {
            &&& s1.inodes == s.inodes
            &&& s1.dirents == s.dirents
            &&& s1.fs_root == s.fs_root
            &&& fs_ok(s1)
            &&& pa % 4096 == 0
            &&& pa != 0
            &&& kernel::page_in_use(s1, pa)
            &&& !s.inodes.contains_key(pa)
            &&& forall|i: int|
                0 <= i < 64 ==> (#[trigger] ramfs::entry(s1, pa, i)) == DirEntry::zeroed()
            &&& forall|p: u64| (#[trigger] ramfs::inode(s, p)).data_pa != pa
        },
{
    kernel::lemma_page_made(s);
    let (s1, page) = kernel::page_made(s);
    if let Some(pa) = page {
        assert(s1.inodes =~= s.inodes);
        assert(s1.dirents =~= s.dirents);
        assert(buddy::is_free(s.mm.lists, pa as int));
        assert forall|i: int| 0 <= i < 64 implies (#[trigger] ramfs::entry(s1, pa, i))
            == DirEntry::zeroed() by {
            lemma_entry_addr(pa, i, pa, i);
            let a = ramfs::entry_addr(pa, i);
            assert(buddy::is_free(s.mm.lists, a as int));
        }
        assert forall|p: u64| (#[trigger] ramfs::inode(s, p)).data_pa != pa by {
            if ramfs::inode(s, p).data_pa == pa {
                assert(kernel::page_in_use(s, pa));
            }
        }
        assert forall|p: u64|
            (#[trigger] ramfs::inode(s1, p)).data_pa != 0 implies kernel::page_in_use(
            s1,
            ramfs::inode(s1, p).data_pa,
        ) by {
            assert(ramfs::inode(s, p) == ramfs::inode(s1, p));
            assert(kernel::page_in_use(s, ramfs::inode(s, p).data_pa));
        }
        assert forall|p: u64| (#[trigger] ramfs::inode(s1, p)).data_pa % 4096 == 0 by {
            assert(ramfs::inode(s, p) == ramfs::inode(s1, p));
        }
    }
}

/// Giving an inode a data page takes nothing away.
pub(crate) proof fn lemma_data_ensured(s: State, pa: u64)
    requires
        fs_ok(s),
        !buddy::is_free(s.mm.lists, pa as int),
    ensures
        ramfs::data_ensured(s, pa) matches (s1, Some(d)) ==> {
            &&& fs_ok(s1)
            &&& s1.fs_root == s.fs_root
            &&& s1.dirents == s.dirents
            &&& d % 4096 == 0
            &&& d != 0
            &&& ramfs::inode(s1, pa) == (Inode { data_pa: d, ..ramfs::inode(s, pa) })
            &&& ramfs::inode(s, pa).data_pa != 0 ==> d == ramfs::inode(s, pa).data_pa
            &&& ramfs::inode(s, pa).data_pa == 0 ==> (forall|i: int|
                0 <= i < 64 ==> (#[trigger] ramfs::entry(s1, d, i)) == DirEntry::zeroed())
            &&& ramfs::inode(s, pa).data_pa == 0 ==> (forall|p: u64|
                (#[trigger] ramfs::inode(s, p)).data_pa != d)
            &&& forall|a: int| #[trigger]
                buddy::is_free(s1.mm.lists, a) ==> buddy::is_free(s.mm.lists, a)
            &&& forall|p: u64| p != pa ==> #[trigger] ramfs::inode(s1, p) == ramfs::inode(s, p)
        },
{
    let n = ramfs::inode(s, pa);
    assert(n.data_pa % 4096 == 0);
    if n.data_pa == 0 {
        lemma_fresh_page(s);
        kernel::lemma_page_made(s);
        let (s0, page) = kernel::page_made(s);
        if let Some(d) = page {
            let s1 = ramfs::data_ensured(s, pa).0;
            assert(!buddy::is_free(s0.mm.lists, pa as int));
            assert forall|p: u64| p != pa implies #[trigger] ramfs::inode(s1, p) == ramfs::inode(
                s,
                p,
            ) by {}
            assert forall|p: u64|
                (#[trigger] ramfs::inode(s1, p)).data_pa != 0 implies kernel::page_in_use(
                s1,
                ramfs::inode(s1, p).data_pa,
            ) by {
                if p != pa {
                    assert(ramfs::inode(s1, p) == ramfs::inode(s0, p));
                    assert(kernel::page_in_use(s0, ramfs::inode(s0, p).data_pa));
                } else {
                    assert(kernel::page_in_use(s0, d));
                }
            }
            assert forall|p: u64| (#[trigger] ramfs::inode(s1, p)).data_pa % 4096 == 0 by {
                if p != pa {
                    assert(ramfs::inode(s1, p) == ramfs::inode(s0, p));
                }
            }
            assert forall|i: int| 0 <= i < 64 implies (#[trigger] ramfs::entry(s1, d, i))
                == DirEntry::zeroed() by {
                assert(ramfs::entry(s0, d, i) == DirEntry::zeroed());
            }
        }
    }
}

/// What changing one entry of a directory and its size changes of the tree.
proof fn lemma_entry_set(s: State, dir: u64, i: int, e: DirEntry, size: u64)
    requires
        fs_ok(s),
        !buddy::is_free(s.mm.lists, dir as int),
        ramfs::inode(s, dir).data_pa != 0,
        0 <= i < 64,
        !buddy::is_free(s.mm.lists, e.inode_pa as int),
    ensures
        ({
            let d = ramfs::inode(s, dir).data_pa;
            let s2 = ramfs::with_inode(
                ramfs::with_entry(s, d, i, e),
                dir,
                Inode { size, ..ramfs::inode(s, dir) },
            );
            &&& fs_ok(s2)
            &&& s2.fs_root == s.fs_root
            &&& forall|p: u64| (#[trigger] ramfs::inode(s2, p)).data_pa == ramfs::inode(s, p).data_pa
            &&& forall|p: u64| (#[trigger] ramfs::inode(s2, p)).kind == ramfs::inode(s, p).kind
            &&& forall|p: u64| p != dir ==> #[trigger] ramfs::inode(s2, p) == ramfs::inode(s, p)
            &&& ramfs::entry(s2, d, i) == e
            &&& forall|q: u64, k: int|
                q % 4096 == 0 && 0 <= k < 64 && !(q == d && k == i) ==> #[trigger] ramfs::entry(
                    s2,
                    q,
                    k,
                ) == ramfs::entry(s, q, k)
        }),
{
    let d = ramfs::inode(s, dir).data_pa;
    let s2 = ramfs::with_inode(
        ramfs::with_entry(s, d, i, e),
        dir,
        Inode { size, ..ramfs::inode(s, dir) },
    );
    assert(d % 4096 == 0);
    lemma_entry_addr(d, i, d, i);
    assert(kernel::page_in_use(s, d));
    assert(!buddy::is_free(s.mm.lists, ramfs::entry_addr(d, i) as int));
    assert forall|p: u64| p != dir implies #[trigger] ramfs::inode(s2, p) == ramfs::inode(s, p) by {}
    assert forall|p: u64|
        (#[trigger] ramfs::inode(s2, p)).data_pa == ramfs::inode(s, p).data_pa && ramfs::inode(
            s2,
            p,
        ).kind == ramfs::inode(s, p).kind by {}
    assert forall|q: u64, k: int|
        q % 4096 == 0 && 0 <= k < 64 && !(q == d && k == i) implies #[trigger] ramfs::entry(
        s2,
        q,
        k,
    ) == ramfs::entry(s, q, k) by {
        lemma_entry_addr(q, k, d, i);
    }
    assert forall|p: u64|
        (#[trigger] ramfs::inode(s2, p)).data_pa != 0 implies kernel::page_in_use(
        s2,
        ramfs::inode(s2, p).data_pa,
    ) by {
        assert(ramfs::inode(s2, p).data_pa == ramfs::inode(s, p).data_pa);
        assert(kernel::page_in_use(s, ramfs::inode(s, p).data_pa));
    }
    assert forall|p: u64| (#[trigger] ramfs::inode(s2, p)).data_pa % 4096 == 0 by {
        assert(ramfs::inode(s, p).data_pa % 4096 == 0);
    }
}

/// `dir` and `other` keep their entries in one data page.
pub open spec fn same_page(s: State, dir: u64, other: u64) -> bool {
    dir == other || ramfs::inode(s, dir).data_pa != 0 && ramfs::inode(s, dir).data_pa
        == ramfs::inode(s, other).data_pa
}

/// What adding an entry changes of the tree.
pub(crate) proof fn lemma_entry_added(s: State, dir: u64, name: Seq<u8>, kind: InodeKind, child_pa: u64)
    requires
        fs_ok(s),
        child_pa != 0,
        !buddy::is_free(s.mm.lists, child_pa as int),
        !name.contains(0u8),
    ensures
        ramfs::entry_added(s, dir, name, kind, child_pa) matches (s2, Ok(_)) ==> {
            &&& fs_ok(s2)
            &&& s2.fs_root == s.fs_root
            &&& ramfs::child(s, dir, name) is None
            &&& ramfs::child(s2, dir, name) == Some(child_pa)
            &&& forall|d: u64, c: Seq<u8>|
                ramfs::child(s, d, c) is Some ==> #[trigger] ramfs::child(s2, d, c) == ramfs::child(
                    s,
                    d,
                    c,
                )
            &&& forall|d: u64, c: Seq<u8>|
                ramfs::child(s, d, c) is None && !(c == name && same_page(s, dir, d))
                    ==> #[trigger] ramfs::child(s2, d, c) is None
            &&& forall|p: u64| p != dir ==> #[trigger] ramfs::inode(s2, p) == ramfs::inode(s, p)
            &&& ramfs::inode(s2, dir).kind == ramfs::inode(s, dir).kind
            &&& ramfs::inode(s2, dir).size == ramfs::inode(s, dir).size.wrapping_add(1)
        },
{
    if ramfs::entry_added(s, dir, name, kind, child_pa).1 is Ok {
        assert(s.inodes.contains_key(dir));
        assert(!buddy::is_free(s.mm.lists, dir as int));
        lemma_data_ensured(s, dir);
        let (s1, data) = ramfs::data_ensured(s, dir);
        let d = data->0;
        lemma_find_entry(s1, d, name, 0);
        lemma_free_entry(s1, d, 0);
        let i = ramfs::free_entry(s1, d, 0)->0;
        let e = ramfs::new_entry(name, kind, child_pa);
        lemma_new_entry(name, kind, child_pa);
        let s2 = ramfs::entry_added(s, dir, name, kind, child_pa).0;
        let n = ramfs::inode(s1, dir);
        assert(!buddy::is_free(s1.mm.lists, dir as int)) by {
            assert(s1.inodes.contains_key(dir));
        }
        lemma_entry_set(s1, dir, i, e, n.size.wrapping_add(1));
        assert(s2 == ramfs::with_inode(
            ramfs::with_entry(s1, d, i, e),
            dir,
            Inode { size: n.size.wrapping_add(1), ..n },
        ));
        assert(ramfs::inode(s2, dir).data_pa == d);
        // The new entry is found under its name.
        assert forall|k: int| 0 <= k < i implies !#[trigger] ramfs::named(
            ramfs::entry(s2, d, k),
            name,
        ) by {
            assert(ramfs::entry(s2, d, k) == ramfs::entry(s1, d, k));
            assert(!ramfs::named(ramfs::entry(s1, d, k), name));
        }
        lemma_find_at(s2, d, name, 0, i);
        assert(ramfs::child(s, dir, name) is None) by {
            if ramfs::inode(s, dir).data_pa != 0 {
                lemma_find_entry(s, d, name, 0);
            }
        }
        assert forall|p: u64| p != dir implies #[trigger] ramfs::inode(s2, p) == ramfs::inode(
            s,
            p,
        ) by {
            assert(ramfs::inode(s1, p) == ramfs::inode(s, p));
        }
        // What was found before is found again.
        assert forall|dd: u64, c: Seq<u8>| ramfs::child(s, dd, c) is Some implies #[trigger] ramfs::child(
            s2,
            dd,
            c,
        ) == ramfs::child(s, dd, c) by {
            let q = ramfs::inode(s, dd).data_pa;
            assert(q % 4096 == 0);
            assert(ramfs::inode(s1, dd).data_pa == q);
            assert(ramfs::inode(s2, dd).data_pa == ramfs::inode(s1, dd).data_pa);
            lemma_find_entry(s, q, c, 0);
            let j = ramfs::find_entry(s, q, c, 0)->0;
            assert(ramfs::entry(s1, q, j) == ramfs::entry(s, q, j));
            assert(!(q == d && j == i));
            assert(ramfs::entry(s2, q, j) == ramfs::entry(s, q, j));
            assert forall|k: int| 0 <= k < j implies !#[trigger] ramfs::named(
                ramfs::entry(s2, q, k),
                c,
            ) by {
                assert(!ramfs::named(ramfs::entry(s, q, k), c));
                if q == d && k == i {
                    assert(ramfs::named(ramfs::entry(s1, d, j), c));
                    assert(!ramfs::named(ramfs::entry(s1, d, j), name));
                } else {
                    assert(ramfs::entry(s2, q, k) == ramfs::entry(s1, q, k));
                }
            }
            lemma_find_at(s2, q, c, 0, j);
        }
        // Nothing else is found.
        assert forall|dd: u64, c: Seq<u8>|
            ramfs::child(s, dd, c) is None && !(c == name && same_page(
                s,
                dir,
                dd,
            )) implies #[trigger] ramfs::child(s2, dd, c) is None by {
            let q = ramfs::inode(s2, dd).data_pa;
            if ramfs::inode(s2, dd).kind is Dir && q != 0 {
                assert(ramfs::inode(s1, dd).data_pa == q);
                assert(q % 4096 == 0);
                lemma_find_entry(s, q, c, 0);
                assert forall|k: int| 0 <= k < 64 implies !#[trigger] ramfs::named(
                    ramfs::entry(s2, q, k),
                    c,
                ) by {
                    if q == d && k == i {
                        assert(same_page(s, dir, dd));
                    } else {
                        assert(ramfs::entry(s2, q, k) == ramfs::entry(s1, q, k));
                        if dd == dir && ramfs::inode(s, dir).data_pa == 0 {
                            assert(ramfs::entry(s1, d, k) == DirEntry::zeroed());
                        } else {
                            assert(ramfs::inode(s, dd).data_pa == q);
                            assert(!ramfs::named(ramfs::entry(s, q, k), c));
                        }
                    }
                }
                lemma_find_none(s2, q, c, 0);
            }
        }
    }
}

/// Making an inode adds it and changes nothing else.
pub(crate) proof fn lemma_inode_made(s: State, kind: InodeKind)
    requires
        fs_ok(s),
    ensures
        ramfs::inode_made(s, kind) matches (s1, Some(pa)) ==> {
            &&& fs_ok(s1)
            &&& s1.fs_root == s.fs_root
            &&& pa != 0
            &&& buddy::is_free(s.mm.lists, pa as int)
            &&& !buddy::is_free(s1.mm.lists, pa as int)
            &&& ramfs::inode(s1, pa) == (Inode { kind, size: 0, data_pa: 0 })
            &&& forall|p: u64| p != pa ==> #[trigger] ramfs::inode(s1, p) == ramfs::inode(s, p)
            &&& forall|d: u64, c: Seq<u8>| #[trigger]
                ramfs::child(s1, d, c) == ramfs::child(s, d, c)
        },
{
    lemma_fresh_page(s);
    kernel::lemma_page_made(s);
    let (s0, page) = kernel::page_made(s);
    if let Some(pa) = page {
        let s1 = ramfs::inode_made(s, kind).0;
        assert(buddy::is_free(s.mm.lists, pa as int));
        assert(!buddy::is_free(s0.mm.lists, pa as int));
        assert forall|p: u64| p != pa implies #[trigger] ramfs::inode(s1, p) == ramfs::inode(
            s,
            p,
        ) by {}
        assert forall|p: u64|
            (#[trigger] ramfs::inode(s1, p)).data_pa != 0 implies kernel::page_in_use(
            s1,
            ramfs::inode(s1, p).data_pa,
        ) by {
            assert(ramfs::inode(s1, p) == ramfs::inode(s0, p));
            assert(kernel::page_in_use(s0, ramfs::inode(s0, p).data_pa));
        }
        assert forall|p: u64| (#[trigger] ramfs::inode(s1, p)).data_pa % 4096 == 0 by {
            if p != pa {
                assert(ramfs::inode(s0, p).data_pa % 4096 == 0);
            }
        }
        assert forall|d: u64, c: Seq<u8>| #[trigger]
            ramfs::child(s1, d, c) == ramfs::child(s, d, c) by {
            if d != pa {
                let q = ramfs::inode(s, d).data_pa;
                lemma_same_find(s, s1, q, c, 0);
            }
        }
    }
}

/// A search reads only directory entries.
pub(crate) proof fn lemma_same_find(s: State, t: State, data_pa: u64, name: Seq<u8>, from: int)
    requires
        s.dirents == t.dirents,
    ensures
        ramfs::find_entry(s, data_pa, name, from) == ramfs::find_entry(t, data_pa, name, from),
    decreases 64 - from,
{
    if from < 64 {
        lemma_same_find(s, t, data_pa, name, from + 1);
    }
}

/// A walk that ends in one more step.
pub(crate) proof fn lemma_walk_step(s: State, cur: u64, cs: Seq<Seq<u8>>, name: Seq<u8>)
    ensures
        ramfs::walked(s, cur, cs.push(name)) == (match ramfs::walked(s, cur, cs) {
            None => None,
            Some(d) => ramfs::child(s, d, name),
        }),
    decreases cs.len(),
{
    reveal_with_fuel(ramfs::walked, 2);
    if cs.len() == 0 {
        assert(cs.push(name).drop_first() =~= Seq::<Seq<u8>>::empty());
    } else {
        assert(cs.push(name).drop_first() =~= cs.drop_first().push(name));
        if let Some(d) = ramfs::child(s, cur, cs[0]) {
            lemma_walk_step(s, d, cs.drop_first(), name);
        }
    }
}

/// A walk ends in memory in use.
pub(crate) proof fn lemma_walk_end(s: State, cur: u64, cs: Seq<Seq<u8>>)
    requires
        fs_ok(s),
        !buddy::is_free(s.mm.lists, cur as int),
    ensures
        ramfs::walked(s, cur, cs) matches Some(d) ==> !buddy::is_free(s.mm.lists, d as int),
    decreases cs.len(),
{
    if cs.len() > 0 {
        if let Some(next) = ramfs::child(s, cur, cs[0]) {
            lemma_child_end(s, cur, cs[0]);
            lemma_walk_end(s, next, cs.drop_first());
        }
    }
}

/// An entry that is found leads to memory in use.
pub(crate) proof fn lemma_child_end(s: State, dir: u64, name: Seq<u8>)
    requires
        fs_ok(s),
    ensures
        ramfs::child(s, dir, name) matches Some(c) ==> c != 0 && !buddy::is_free(
            s.mm.lists,
            c as int,
        ),
{
    let q = ramfs::inode(s, dir).data_pa;
    lemma_find_entry(s, q, name, 0);
    if let Some(i) = ramfs::find_entry(s, q, name, 0) {
        assert(ramfs::named(ramfs::entry(s, q, i), name));
        assert(s.dirents.contains_key(ramfs::entry_addr(q, i)));
    }
}

/// The steps to the directory that a path's last name belongs to.
pub open spec fn parent_steps(p: Seq<u8>) -> Seq<Seq<u8>> {
    path::components(p).drop_last()
}

/// A parent directory is where all steps but the last lead.
pub(crate) proof fn lemma_parent(s: State, p: Seq<u8>)
    ensures
        ramfs::parent_of(s, p) matches Ok((dir, name)) ==> {
            &&& path::components(p) == parent_steps(p).push(name)
            &&& ramfs::walked(s, s.fs_root, parent_steps(p)) == Some(dir)
        },
{
    let q = path::stripped(p);
    path::lemma_components_stripped(p);
    if q.len() > 0 {
        path::lemma_last_slash(q);
        let i = path::last_slash(q);
        let name = q.skip(i + 1);
        if name.len() > 0 {
            assert forall|k: int| 0 <= k < name.len() implies name[k] != path::SLASH by {
                assert(name[k] == q[i + 1 + k]);
            }
            if i <= 0 {
                assert(name =~= q);
                path::lemma_components_of_name(q);
                assert(parent_steps(p) =~= Seq::<Seq<u8>>::empty());
                assert(parent_steps(p).push(name) =~= seq![q]);
            } else {
                let a = q.take(i);
                assert(q =~= a.push(path::SLASH) + name);
                path::lemma_components_append(a, name, 0);
                assert(parent_steps(p) =~= path::components(a));
            }
        }
    }
}

/// A directory page holds at most 64 entries.
pub(crate) proof fn lemma_live_bound(s: State, data_pa: u64, from: int)
    requires
        0 <= from <= 64,
    ensures
        live(s, data_pa, from) <= 64 - from,
    decreases 64 - from,
{
    if from < 64 {
        lemma_live_bound(s, data_pa, from + 1);
    }
}

/// The number of entries in use where one entry changes.
proof fn lemma_live_set(s: State, t: State, data_pa: u64, i: int, from: int)
    requires
        0 <= from <= 64,
        0 <= i < 64,
        forall|k: int|
            from <= k < 64 && k != i ==> #[trigger] ramfs::entry(t, data_pa, k) == ramfs::entry(
                s,
                data_pa,
                k,
            ),
    ensures
        ({
            let was = if i >= from && ramfs::entry(s, data_pa, i).inode_pa != 0 {
                1int
            } else {
                0
            };
            let is = if i >= from && ramfs::entry(t, data_pa, i).inode_pa != 0 {
                1int
            } else {
                0
            };
            live(t, data_pa, from) == live(s, data_pa, from) - was + is
        }),
    decreases 64 - from,
{
    if from < 64 {
        lemma_live_set(s, t, data_pa, i, from + 1);
        if from != i {
            assert(ramfs::entry(t, data_pa, from) == ramfs::entry(s, data_pa, from));
        }
    }
}

/// No entry of a blank page is in use.
proof fn lemma_live_blank(s: State, data_pa: u64, from: int)
    requires
        0 <= from <= 64,
        forall|i: int|
            0 <= i < 64 ==> (#[trigger] ramfs::entry(s, data_pa, i)) == DirEntry::zeroed(),
    ensures
        live(s, data_pa, from) == 0,
    decreases 64 - from,
{
    if from < 64 {
        lemma_live_blank(s, data_pa, from + 1);
        assert(ramfs::entry(s, data_pa, from) == DirEntry::zeroed());
    }
}

/// An inode whose page and size stay is as sound as before.
proof fn lemma_inode_same(s: State, t: State, pa: u64)
    requires
        inode_ok(s, pa),
        ramfs::inode(t, pa) == ramfs::inode(s, pa),
        forall|k: int|
            0 <= k < 64 ==> #[trigger] ramfs::entry(t, ramfs::inode(s, pa).data_pa, k)
                == ramfs::entry(s, ramfs::inode(s, pa).data_pa, k),
    ensures
        inode_ok(t, pa),
{
    let q = ramfs::inode(s, pa).data_pa;
    if q != 0 {
        lemma_live_set(s, t, q, 0, 0);
        assert(ramfs::entry(t, q, 0) == ramfs::entry(s, q, 0));
        assert forall|i: int, j: int|
            #![trigger ramfs::entry(t, q, i), ramfs::entry(t, q, j)]
            unique_names(s, q) && 0 <= i < 64 && 0 <= j < 64 && i != j && ramfs::entry(
                t,
                q,
                i,
            ).inode_pa != 0 && ramfs::entry(t, q, j).inode_pa != 0 implies ramfs::text(
            ramfs::entry(t, q, i).name@,
        ) != ramfs::text(ramfs::entry(t, q, j).name@) by {
            assert(ramfs::entry(t, q, i) == ramfs::entry(s, q, i));
            assert(ramfs::entry(t, q, j) == ramfs::entry(s, q, j));
        }
    }
}

/// Making an inode keeps the tree sound.
pub(crate) proof fn lemma_inode_made_ok(s: State, kind: InodeKind)
    requires
        tree_ok(s),
    ensures
        ramfs::inode_made(s, kind).1 is Some ==> tree_ok(ramfs::inode_made(s, kind).0),
{
    lemma_inode_made(s, kind);
    lemma_fresh_page(s);
    let (s1, made) = ramfs::inode_made(s, kind);
    if let Some(pa) = made {
        assert forall|p: u64| #[trigger] inode_ok(s1, p) by {
            if p != pa {
                assert(ramfs::inode(s1, p) == ramfs::inode(s, p));
                lemma_inode_same(s, s1, p);
            }
        }
        assert forall|p: u64, q: u64|
            #![trigger ramfs::inode(s1, p), ramfs::inode(s1, q)]
            p != q && ramfs::inode(s1, p).data_pa != 0 implies ramfs::inode(s1, p).data_pa
            != ramfs::inode(s1, q).data_pa by {
            assert(p != pa ==> ramfs::inode(s1, p) == ramfs::inode(s, p));
            assert(q != pa ==> ramfs::inode(s1, q) == ramfs::inode(s, q));
        }
    }
}

/// Giving an inode a data page keeps the tree sound.
pub(crate) proof fn lemma_data_ensured_ok(s: State, pa: u64)
    requires
        tree_ok(s),
        !buddy::is_free(s.mm.lists, pa as int),
    ensures
        ramfs::data_ensured(s, pa).1 is Some ==> tree_ok(ramfs::data_ensured(s, pa).0),
{
    lemma_data_ensured(s, pa);
    let (s1, data) = ramfs::data_ensured(s, pa);
    if let Some(d) = data {
        if ramfs::inode(s, pa).data_pa == 0 {
            lemma_live_blank(s1, d, 0);
            assert forall|p: u64| #[trigger] inode_ok(s1, p) by {
                if p != pa {
                    assert(ramfs::inode(s1, p) == ramfs::inode(s, p));
                    lemma_inode_same(s, s1, p);
                } else {
                    assert(inode_ok(s, pa));
                    assert forall|i: int, j: int|
                        #![trigger ramfs::entry(s1, d, i), ramfs::entry(s1, d, j)]
                        0 <= i < 64 && 0 <= j < 64 && i != j && ramfs::entry(s1, d, i).inode_pa != 0
                            && ramfs::entry(s1, d, j).inode_pa != 0 implies ramfs::text(
                        ramfs::entry(s1, d, i).name@,
                    ) != ramfs::text(ramfs::entry(s1, d, j).name@) by {
                        assert(ramfs::entry(s1, d, i) == DirEntry::zeroed());
                    }
                }
            }
            assert forall|p: u64, q: u64|
                #![trigger ramfs::inode(s1, p), ramfs::inode(s1, q)]
                p != q && ramfs::inode(s1, p).data_pa != 0 implies ramfs::inode(s1, p).data_pa
                != ramfs::inode(s1, q).data_pa by {
                assert(p != pa ==> ramfs::inode(s1, p) == ramfs::inode(s, p));
                assert(q != pa ==> ramfs::inode(s1, q) == ramfs::inode(s, q));
            }
        }
    }
}

/// Adding an entry keeps the tree sound.
pub(crate) proof fn lemma_entry_added_ok(s: State, dir: u64, name: Seq<u8>, kind: InodeKind, child_pa: u64)
    requires
        tree_ok(s),
        child_pa != 0,
        !buddy::is_free(s.mm.lists, child_pa as int),
        !name.contains(0u8),
    ensures
        ramfs::entry_added(s, dir, name, kind, child_pa).1 is Ok ==> tree_ok(
            ramfs::entry_added(s, dir, name, kind, child_pa).0,
        ),
{
    if ramfs::entry_added(s, dir, name, kind, child_pa).1 is Ok {
        assert(s.inodes.contains_key(dir));
        lemma_data_ensured(s, dir);
        lemma_data_ensured_ok(s, dir);
        let (s1, data) = ramfs::data_ensured(s, dir);
        let d = data->0;
        lemma_find_entry(s1, d, name, 0);
        lemma_free_entry(s1, d, 0);
        lemma_new_entry(name, kind, child_pa);
        let i = ramfs::free_entry(s1, d, 0)->0;
        let e = ramfs::new_entry(name, kind, child_pa);
        let n = ramfs::inode(s1, dir);
        let s2 = ramfs::entry_added(s, dir, name, kind, child_pa).0;
        assert(s1.inodes.contains_key(dir));
        lemma_entry_set(s1, dir, i, e, n.size.wrapping_add(1));
        lemma_live_bound(s1, d, 0);
        assert(inode_ok(s1, dir));
        assert forall|p: u64| #[trigger] inode_ok(s2, p) by {
            if p != dir {
                assert(ramfs::inode(s2, p) == ramfs::inode(s1, p));
                assert(ramfs::inode(s1, p).data_pa % 4096 == 0);
                assert(ramfs::inode(s1, p).data_pa != d);
                lemma_inode_same(s1, s2, p);
            } else {
                lemma_live_set(s1, s2, d, i, 0);
                assert forall|a: int, b: int|
                    #![trigger ramfs::entry(s2, d, a), ramfs::entry(s2, d, b)]
                    0 <= a < 64 && 0 <= b < 64 && a != b && ramfs::entry(s2, d, a).inode_pa != 0
                        && ramfs::entry(s2, d, b).inode_pa != 0 implies ramfs::text(
                    ramfs::entry(s2, d, a).name@,
                ) != ramfs::text(ramfs::entry(s2, d, b).name@) by {
                    if a != i {
                        assert(ramfs::entry(s2, d, a) == ramfs::entry(s1, d, a));
                        assert(!ramfs::named(ramfs::entry(s1, d, a), name));
                    }
                    if b != i {
                        assert(ramfs::entry(s2, d, b) == ramfs::entry(s1, d, b));
                        assert(!ramfs::named(ramfs::entry(s1, d, b), name));
                    }
                }
            }
        }
        assert forall|p: u64, q: u64|
            #![trigger ramfs::inode(s2, p), ramfs::inode(s2, q)]
            p != q && ramfs::inode(s2, p).data_pa != 0 implies ramfs::inode(s2, p).data_pa
            != ramfs::inode(s2, q).data_pa by {
            assert(ramfs::inode(s2, p).data_pa == ramfs::inode(s1, p).data_pa);
            assert(ramfs::inode(s2, q).data_pa == ramfs::inode(s1, q).data_pa);
        }
    }
}

/// What removing an entry changes of the tree.
pub(crate) proof fn lemma_entry_removed(s: State, dir: u64, i: int)
    requires
        tree_ok(s),
        ramfs::inode(s, dir).kind is Dir,
        ramfs::inode(s, dir).data_pa != 0,
        0 <= i < 64,
        ramfs::entry(s, ramfs::inode(s, dir).data_pa, i).inode_pa != 0,
    ensures
        ({
            let s2 = ramfs::entry_removed(s, dir, i);
            let name = ramfs::text(ramfs::entry(s, ramfs::inode(s, dir).data_pa, i).name@);
            &&& tree_ok(s2)
            &&& s2.fs_root == s.fs_root
            &&& s2.mm == s.mm
            &&& ramfs::child(s2, dir, name) is None
            &&& forall|d: u64, c: Seq<u8>|
                !(d == dir && c == name) ==> #[trigger] ramfs::child(s2, d, c) == ramfs::child(
                    s,
                    d,
                    c,
                )
            &&& forall|p: u64| p != dir ==> #[trigger] ramfs::inode(s2, p) == ramfs::inode(s, p)
            &&& ramfs::inode(s2, dir).size == ramfs::inode(s, dir).size - 1
            &&& ramfs::inode(s2, dir).kind is Dir
            &&& ramfs::inode(s2, dir).data_pa == ramfs::inode(s, dir).data_pa
        }),
{
    let n = ramfs::inode(s, dir);
    let d = n.data_pa;
    let old_entry = ramfs::entry(s, d, i);
    let name = ramfs::text(old_entry.name@);
    let e = DirEntry { inode_pa: 0, name: DirEntry::zeroed().name, ..old_entry };
    let s2 = ramfs::entry_removed(s, dir, i);
    assert(s.inodes.contains_key(dir));
    assert(!buddy::is_free(s.mm.lists, 0)) by {
        if buddy::is_free(s.mm.lists, 0) {
            let (o, k) = choose|o: int, k: int| buddy::covers(s.mm.lists, o, k, 0);
            assert(buddy::listed(s.mm.lists, o, k));
        }
    }
    lemma_entry_set(s, dir, i, e, n.size.wrapping_sub(1));
    assert(s2 == ramfs::with_inode(
        ramfs::with_entry(s, d, i, e),
        dir,
        Inode { size: n.size.wrapping_sub(1), ..n },
    ));
    assert(inode_ok(s, dir));
    lemma_live_bound(s, d, 0);
    lemma_live_set(s, s2, d, i, 0);
    lemma_live_bound(s2, d, 0);
    assert(n.size >= 1);
    assert forall|p: u64| #[trigger] inode_ok(s2, p) by {
        if p != dir {
            assert(ramfs::inode(s2, p) == ramfs::inode(s, p));
            assert(ramfs::inode(s, p).data_pa % 4096 == 0);
            assert(ramfs::inode(s, p).data_pa != d);
            lemma_inode_same(s, s2, p);
        } else {
            assert forall|a: int, b: int|
                #![trigger ramfs::entry(s2, d, a), ramfs::entry(s2, d, b)]
                0 <= a < 64 && 0 <= b < 64 && a != b && ramfs::entry(s2, d, a).inode_pa != 0
                    && ramfs::entry(s2, d, b).inode_pa != 0 implies ramfs::text(
                ramfs::entry(s2, d, a).name@,
            ) != ramfs::text(ramfs::entry(s2, d, b).name@) by {
                assert(a != i && b != i);
                assert(ramfs::entry(s2, d, a) == ramfs::entry(s, d, a));
                assert(ramfs::entry(s2, d, b) == ramfs::entry(s, d, b));
            }
        }
    }
    assert forall|p: u64, q: u64|
        #![trigger ramfs::inode(s2, p), ramfs::inode(s2, q)]
        p != q && ramfs::inode(s2, p).data_pa != 0 implies ramfs::inode(s2, p).data_pa
        != ramfs::inode(s2, q).data_pa by {
        assert(ramfs::inode(s2, p).data_pa == ramfs::inode(s, p).data_pa);
        assert(ramfs::inode(s2, q).data_pa == ramfs::inode(s, q).data_pa);
    }
    assert(ramfs::child(s2, dir, name) is None) by {
        assert forall|k: int| 0 <= k < 64 implies !#[trigger] ramfs::named(
            ramfs::entry(s2, d, k),
            name,
        ) by {
            if k != i {
                assert(ramfs::entry(s2, d, k) == ramfs::entry(s, d, k));
                assert(unique_names(s, d));
                assert(ramfs::entry(s, d, i).inode_pa != 0);
            }
        }
        lemma_find_none(s2, d, name, 0);
    }
    assert forall|dd: u64, c: Seq<u8>|
        !(dd == dir && c == name) implies #[trigger] ramfs::child(s2, dd, c) == ramfs::child(
        s,
        dd,
        c,
    ) by {
        let q = ramfs::inode(s, dd).data_pa;
        assert(ramfs::inode(s2, dd).data_pa == q);
        assert(ramfs::inode(s2, dd).kind == ramfs::inode(s, dd).kind);
        assert(q % 4096 == 0);
        if q != 0 {
            if q == d {
                assert(dd == dir);
            }
            lemma_find_entry(s, q, c, 0);
            match ramfs::find_entry(s, q, c, 0) {
                None => {
                    assert forall|k: int| 0 <= k < 64 implies !#[trigger] ramfs::named(
                        ramfs::entry(s2, q, k),
                        c,
                    ) by {
                        assert(!ramfs::named(ramfs::entry(s, q, k), c));
                        if !(q == d && k == i) {
                            assert(ramfs::entry(s2, q, k) == ramfs::entry(s, q, k));
                        }
                    }
                    lemma_find_none(s2, q, c, 0);
                },
                Some(j) => {
                    assert(!(q == d && j == i));
                    assert(ramfs::entry(s2, q, j) == ramfs::entry(s, q, j));
                    assert forall|k: int| 0 <= k < j implies !#[trigger] ramfs::named(
                        ramfs::entry(s2, q, k),
                        c,
                    ) by {
                        assert(!ramfs::named(ramfs::entry(s, q, k), c));
                        if !(q == d && k == i) {
                            assert(ramfs::entry(s2, q, k) == ramfs::entry(s, q, k));
                        }
                    }
                    lemma_find_at(s2, q, c, 0, j);
                },
            }
        }
    }
}

/// The root directory of a fresh kernel is a sound tree.
pub(crate) proof fn lemma_fresh_tree(m: MmState, images: Images)
    requires
        buddy::lists_ok(m.lists),
    ensures
        ramfs::inode_made(kernel::new_state(m, images), InodeKind::Dir) matches (s, Some(root)) ==> {
            let s1 = State { fs_root: root, ..s };
            tree_ok(s1) && ramfs::found(s1, seq![path::SLASH]) == Some(root)
        },
{
    let s0 = kernel::new_state(m, images);
    assert(!buddy::is_free(m.lists, 0)) by {
        if buddy::is_free(m.lists, 0) {
            let (o, k) = choose|o: int, k: int| buddy::covers(m.lists, o, k, 0);
            assert(buddy::listed(m.lists, o, k));
        }
    }
    assert(tree_ok(s0));
    lemma_inode_made(s0, InodeKind::Dir);
    lemma_inode_made_ok(s0, InodeKind::Dir);
    let (s, made) = ramfs::inode_made(s0, InodeKind::Dir);
    if let Some(root) = made {
        let s1 = State { fs_root: root, ..s };
        assert forall|p: u64| #[trigger] inode_ok(s1, p) by {
            assert(inode_ok(s, p));
            lemma_inode_same(s, s1, p);
        }
        assert forall|p: u64, q: u64|
            #![trigger ramfs::inode(s1, p), ramfs::inode(s1, q)]
            p != q && ramfs::inode(s1, p).data_pa != 0 implies ramfs::inode(s1, p).data_pa
            != ramfs::inode(s1, q).data_pa by {
            assert(ramfs::inode(s1, p) == ramfs::inode(s, p));
            assert(ramfs::inode(s1, q) == ramfs::inode(s, q));
        }
        assert forall|p: u64|
            (#[trigger] ramfs::inode(s1, p)).data_pa % 4096 == 0 && (ramfs::inode(s1, p).data_pa
                != 0 ==> kernel::page_in_use(s1, ramfs::inode(s1, p).data_pa)) by {
            assert(ramfs::inode(s1, p) == ramfs::inode(s, p));
            if ramfs::inode(s, p).data_pa != 0 {
                assert(kernel::page_in_use(s, ramfs::inode(s, p).data_pa));
            }
        }
        let top = seq![path::SLASH];
        assert(path::find_byte(top, path::SLASH, 0) == 0);
        assert(path::components_from(top, 1) =~= Seq::<Seq<u8>>::empty());
        assert(path::components(top) =~= Seq::<Seq<u8>>::empty());
    }
}

/// An entry in use counts.
pub(crate) proof fn lemma_live_at(s: State, data_pa: u64, i: int, from: int)
    requires
        0 <= from <= i < 64,
        ramfs::entry(s, data_pa, i).inode_pa != 0,
    ensures
        live(s, data_pa, from) > 0,
    decreases 64 - from,
{
    if from < i {
        lemma_live_at(s, data_pa, i, from + 1);
    }
}

/// Bytes that were written to a file are read back from it; what else the file
/// held and every other file stay as they were.
pub proof fn law_written_bytes_read_back(s: State, pa: u64, offset: u64, data: Seq<u8>)
    requires
        tree_ok(s),
        !buddy::is_free(s.mm.lists, pa as int),
    ensures
        ramfs::file_written(s, pa, offset, data) matches (s1, Ok(n)) ==> {
            &&& tree_ok(s1)
            &&& 0 < n <= data.len()
            &&& ramfs::file_bytes(s1, pa, offset, n as int) == data.take(n as int)
            &&& forall|i: int|
                0 <= i < ramfs::file_bytes(s, pa, 0, 4096).len() && !(offset <= i < offset + n)
                    ==> #[trigger] ramfs::file_bytes(s1, pa, 0, 4096)[i] == ramfs::file_bytes(
                    s,
                    pa,
                    0,
                    4096,
                )[i]
            &&& forall|q: u64|
                q != pa ==> #[trigger] ramfs::file_bytes(s1, q, 0, 4096) == ramfs::file_bytes(
                    s,
                    q,
                    0,
                    4096,
                )
        },
{
    if ramfs::file_written(s, pa, offset, data).1 is Ok {
        lemma_data_ensured(s, pa);
        lemma_data_ensured_ok(s, pa);
        let (s1, page) = ramfs::data_ensured(s, pa);
        let d = page->0;
        let len = ramfs::write_len(offset, data.len() as int);
        let part = data.take(len);
        let s3 = ramfs::file_written(s, pa, offset, data).0;
        let s2 = kernel::with_bytes(s1, d.wrapping_add(offset), part);
        assert(d + 4096 <= 0x1_0000_0000_0000_0000);
        assert(d.wrapping_add(offset) == d + offset);
        let n1 = ramfs::inode(s1, pa);
        assert(ramfs::inode(s2, pa) == n1);
        assert(inode_ok(s1, pa));
        let n3 = ramfs::inode(s3, pa);
        assert(n3.data_pa == d);
        assert forall|p: u64| p != pa implies #[trigger] ramfs::inode(s3, p) == ramfs::inode(
            s1,
            p,
        ) by {}
        // The tree.
        assert forall|p: u64| #[trigger] inode_ok(s3, p) by {
            assert(inode_ok(s1, p));
            if p != pa {
                lemma_inode_same(s1, s3, p);
            } else {
                lemma_live_set(s1, s3, d, 0, 0);
                assert(ramfs::entry(s3, d, 0) == ramfs::entry(s1, d, 0));
            }
        }
        assert forall|p: u64| (#[trigger] ramfs::inode(s3, p)).data_pa == ramfs::inode(
            s1,
            p,
        ).data_pa by {}
        assert forall|p: u64, q: u64|
            #![trigger ramfs::inode(s3, p), ramfs::inode(s3, q)]
            p != q && ramfs::inode(s3, p).data_pa != 0 implies ramfs::inode(s3, p).data_pa
            != ramfs::inode(s3, q).data_pa by {
            assert(ramfs::inode(s3, p).data_pa == ramfs::inode(s1, p).data_pa);
            assert(ramfs::inode(s3, q).data_pa == ramfs::inode(s1, q).data_pa);
        }
        assert forall|p: u64|
            (#[trigger] ramfs::inode(s3, p)).data_pa % 4096 == 0 && (ramfs::inode(s3, p).data_pa
                != 0 ==> kernel::page_in_use(s3, ramfs::inode(s3, p).data_pa)) by {
            assert(ramfs::inode(s3, p).data_pa == ramfs::inode(s1, p).data_pa);
            assert(ramfs::inode(s1, p).data_pa % 4096 == 0);
            if ramfs::inode(s1, p).data_pa != 0 {
                assert(kernel::page_in_use(s1, ramfs::inode(s1, p).data_pa));
            }
        }
        assert(fs_ok(s3)) by {
            assert(s3.mm == s1.mm && s3.dirents == s1.dirents && s3.fs_root == s1.fs_root);
            assert(!buddy::is_free(s1.mm.lists, pa as int));
        }
        // The bytes.
        let got = ramfs::file_bytes(s3, pa, offset, len);
        assert forall|i: int| 0 <= i < len implies got[i] == part[i] by {
            kernel::lemma_stored(s1.bytes, (d + offset) as u64, part, (d + offset + i) as u64);
        }
        assert(got =~= part);
        let old_bytes = ramfs::file_bytes(s, pa, 0, 4096);
        let new_bytes = ramfs::file_bytes(s3, pa, 0, 4096);
        assert forall|i: int|
            0 <= i < old_bytes.len() && !(offset <= i < offset + len) implies #[trigger] new_bytes[i]
            == old_bytes[i] by {
            assert(inode_ok(s, pa));
            assert(ramfs::inode(s, pa).data_pa == d);
            kernel::lemma_stored(s1.bytes, (d + offset) as u64, part, (d + i) as u64);
        }
        assert forall|q: u64| q != pa implies #[trigger] ramfs::file_bytes(s3, q, 0, 4096)
            == ramfs::file_bytes(s, q, 0, 4096) by {
            let m = ramfs::inode(s, q);
            assert(ramfs::inode(s1, q) == m && ramfs::inode(s3, q) == m);
            assert(inode_ok(s, q));
            let a = ramfs::file_bytes(s3, q, 0, 4096);
            let b = ramfs::file_bytes(s, q, 0, 4096);
            if m.data_pa != 0 && m.kind is File {
                assert(m.data_pa != d);
                assert(m.data_pa % 4096 == 0);
                assert(kernel::page_in_use(s, m.data_pa));
                assert forall|i: int| 0 <= i < a.len() implies a[i] == b[i] by {
                    let at = (m.data_pa + i) as u64;
                    kernel::lemma_stored(s1.bytes, (d + offset) as u64, part, at);
                    assert(!buddy::is_free(s.mm.lists, at as int));
                    lemma_bytes_kept(s, pa, at);
                }
            }
            assert(a =~= b);
        }
    }
}

/// Giving an inode a data page leaves bytes in use as they were.
pub(crate) proof fn lemma_bytes_kept(s: State, pa: u64, a: u64)
    requires
        fs_ok(s),
        !buddy::is_free(s.mm.lists, a as int),
    ensures
        objects::at(ramfs::data_ensured(s, pa).0.bytes, a) == objects::at(s.bytes, a),
{
    kernel::lemma_page_made(s);
}

/// A truncated file reads as empty, and the tree stays sound.
pub proof fn law_truncated_file_empty(s: State, pa: u64, offset: u64, len: int)
    requires
        tree_ok(s),
        !buddy::is_free(s.mm.lists, pa as int),
    ensures
        ramfs::truncated(s, pa) matches (s1, Ok(_)) ==> tree_ok(s1) && ramfs::file_bytes(
            s1,
            pa,
            offset,
            len,
        ).len() == 0,
{
    if ramfs::truncated(s, pa).1 is Ok {
        let s1 = ramfs::truncated(s, pa).0;
        assert forall|p: u64| p != pa implies #[trigger] ramfs::inode(s1, p) == ramfs::inode(
            s,
            p,
        ) by {}
        assert forall|p: u64| (#[trigger] ramfs::inode(s1, p)).data_pa == ramfs::inode(
            s,
            p,
        ).data_pa by {}
        assert forall|p: u64| #[trigger] inode_ok(s1, p) by {
            assert(inode_ok(s, p));
            if p != pa {
                lemma_inode_same(s, s1, p);
            } else {
                let d = ramfs::inode(s, pa).data_pa;
                lemma_live_set(s, s1, d, 0, 0);
                assert(ramfs::entry(s1, d, 0) == ramfs::entry(s, d, 0));
            }
        }
        assert forall|p: u64, q: u64|
            #![trigger ramfs::inode(s1, p), ramfs::inode(s1, q)]
            p != q && ramfs::inode(s1, p).data_pa != 0 implies ramfs::inode(s1, p).data_pa
            != ramfs::inode(s1, q).data_pa by {
            assert(ramfs::inode(s1, p).data_pa == ramfs::inode(s, p).data_pa);
            assert(ramfs::inode(s1, q).data_pa == ramfs::inode(s, q).data_pa);
        }
        assert forall|p: u64|
            (#[trigger] ramfs::inode(s1, p)).data_pa % 4096 == 0 && (ramfs::inode(s1, p).data_pa
                != 0 ==> kernel::page_in_use(s1, ramfs::inode(s1, p).data_pa)) by {
            assert(ramfs::inode(s1, p).data_pa == ramfs::inode(s, p).data_pa);
            assert(ramfs::inode(s, p).data_pa % 4096 == 0);
            if ramfs::inode(s, p).data_pa != 0 {
                assert(kernel::page_in_use(s, ramfs::inode(s, p).data_pa));
            }
        }
    }
}

} // verus!
