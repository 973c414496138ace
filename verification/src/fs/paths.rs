//! Whole paths: what creating, removing, renaming, writing and truncating do to
//! the path at hand, and that every other path leads where it led.
use crate::fs::ramfs::{self, FsError, Inode, InodeKind, MAX_NAME};
use crate::fs::tree;
use crate::kernel::{self, State};
use crate::mm::{buddy, MmState};
use crate::objects;
use crate::path;
use crate::proc::Images;
use vstd::prelude::*;

verus! {

/// Every inode has at most one name, and the root has none.
pub open spec fn single_parent(s: State) -> bool {
    &&& forall|d: u64, c: Seq<u8>, e: u64, b: Seq<u8>|
        #![trigger ramfs::child(s, d, c), ramfs::child(s, e, b)]
        ramfs::child(s, d, c) is Some && ramfs::child(s, d, c) == ramfs::child(s, e, b) ==> d == e
            && c == b
    &&& forall|d: u64, c: Seq<u8>| #[trigger] ramfs::child(s, d, c) != Some(s.fs_root)
}

/// Entries in use tell the kind of their inode.
pub open spec fn kinds_known(s: State) -> bool {
    forall|a: u64|
        (#[trigger] objects::at(s.dirents, a)).inode_pa != 0 ==> InodeKind::decoded(
            objects::at(s.dirents, a).kind,
        ) is Some
}

/// The filesystem is a tree: sound, and every path leads to its own inode.
pub open spec fn paths_ok(s: State) -> bool {
    tree::tree_ok(s) && single_parent(s) && kinds_known(s)
}

/// There is memory for `n` more pages.
pub open spec fn pages_free(s: State, n: nat) -> bool
    decreases n,
{
    n == 0 || kernel::page_made(s).1 is Some && pages_free(kernel::page_made(s).0, (n - 1) as nat)
}

/// The steps `q` begin with the steps `a`.
pub open spec fn leads_through(q: Seq<Seq<u8>>, a: Seq<Seq<u8>>) -> bool {
    a.len() <= q.len() && q.take(a.len() as int) == a
}

/// The last name of `p` holds no zero byte, at which a stored name would end.
pub open spec fn plain_name(s: State, p: Seq<u8>) -> bool {
    ramfs::parent_of(s, p) matches Ok((_, name)) ==> !name.contains(0u8)
}

/// Two paths that lead to one inode have the same steps.
proof fn lemma_one_walk(s: State, a: Seq<Seq<u8>>, b: Seq<Seq<u8>>)
    requires
        single_parent(s),
        ramfs::walked(s, s.fs_root, a) is Some,
        ramfs::walked(s, s.fs_root, a) == ramfs::walked(s, s.fs_root, b),
    ensures
        a == b,
    decreases a.len(),
{
    if a.len() > 0 {
        assert(a.drop_last().push(a.last()) =~= a);
        tree::lemma_walk_step(s, s.fs_root, a.drop_last(), a.last());
    }
    if b.len() > 0 {
        assert(b.drop_last().push(b.last()) =~= b);
        tree::lemma_walk_step(s, s.fs_root, b.drop_last(), b.last());
    }
    if a.len() > 0 && b.len() > 0 {
        lemma_one_walk(s, a.drop_last(), b.drop_last());
    }
    assert(a =~= b);
}

/// Where only the last steps of `a` and `b` change, paths that lead through
/// neither are as they were.
proof fn lemma_other_walks(s: State, t: State, a: Seq<Seq<u8>>, b: Seq<Seq<u8>>, q: Seq<Seq<u8>>)
    requires
        single_parent(s),
        t.fs_root == s.fs_root,
        a.len() > 0,
        b.len() > 0,
        ramfs::walked(s, s.fs_root, a.drop_last()) is Some,
        ramfs::walked(s, s.fs_root, b.drop_last()) is Some,
        forall|d: u64, c: Seq<u8>|
            !(Some(d) == ramfs::walked(s, s.fs_root, a.drop_last()) && c == a.last()) && !(Some(d)
                == ramfs::walked(s, s.fs_root, b.drop_last()) && c == b.last())
                ==> #[trigger] ramfs::child(t, d, c) == ramfs::child(s, d, c),
        !leads_through(q, a),
        !leads_through(q, b),
    ensures
        ramfs::walked(t, t.fs_root, q) == ramfs::walked(s, s.fs_root, q),
    decreases q.len(),
{
    if q.len() > 0 {
        let r = q.drop_last();
        let c = q.last();
        assert(r.push(c) =~= q);
        assert(!leads_through(r, a)) by {
            if leads_through(r, a) {
                assert(q.take(a.len() as int) =~= r.take(a.len() as int));
            }
        }
        assert(!leads_through(r, b)) by {
            if leads_through(r, b) {
                assert(q.take(b.len() as int) =~= r.take(b.len() as int));
            }
        }
        lemma_other_walks(s, t, a, b, r);
        tree::lemma_walk_step(s, s.fs_root, r, c);
        tree::lemma_walk_step(t, s.fs_root, r, c);
        if let Some(d) = ramfs::walked(s, s.fs_root, r) {
            if Some(d) == ramfs::walked(s, s.fs_root, a.drop_last()) && c == a.last() {
                lemma_one_walk(s, r, a.drop_last());
                assert(q =~= a);
                assert(q.take(a.len() as int) =~= a);
            }
            if Some(d) == ramfs::walked(s, s.fs_root, b.drop_last()) && c == b.last() {
                lemma_one_walk(s, r, b.drop_last());
                assert(q =~= b);
                assert(q.take(b.len() as int) =~= b);
            }
            assert(ramfs::child(t, d, c) == ramfs::child(s, d, c));
        }
    }
}

/// Where every step leads where it led, so does every walk.
proof fn lemma_same_walk(s: State, t: State, cur: u64, q: Seq<Seq<u8>>)
    requires
        forall|d: u64, c: Seq<u8>| #[trigger] ramfs::child(t, d, c) == ramfs::child(s, d, c),
    ensures
        ramfs::walked(t, cur, q) == ramfs::walked(s, cur, q),
    decreases q.len(),
{
    if q.len() > 0 {
        assert(ramfs::child(t, cur, q[0]) == ramfs::child(s, cur, q[0]));
        if let Some(next) = ramfs::child(s, cur, q[0]) {
            lemma_same_walk(s, t, next, q.drop_first());
        }
    }
}

/// A walk in two parts.
proof fn lemma_walk_parts(s: State, cur: u64, a: Seq<Seq<u8>>, b: Seq<Seq<u8>>)
    ensures
        ramfs::walked(s, cur, a + b) == (match ramfs::walked(s, cur, a) {
            None => None,
            Some(x) => ramfs::walked(s, x, b),
        }),
    decreases a.len(),
{
    if a.len() == 0 {
        assert(a + b =~= b);
    } else {
        assert((a + b).drop_first() =~= a.drop_first() + b);
        if let Some(next) = ramfs::child(s, cur, a[0]) {
            lemma_walk_parts(s, next, a.drop_first(), b);
        }
    }
}

/// A directory with fewer than 64 entries has a free one.
proof fn lemma_room(s: State, data_pa: u64, from: int)
    requires
        0 <= from <= 64,
        tree::live(s, data_pa, from) < 64 - from,
    ensures
        ramfs::free_entry(s, data_pa, from) is Some,
    decreases 64 - from,
{
    if from < 64 && ramfs::entry(s, data_pa, from).inode_pa != 0 {
        lemma_room(s, data_pa, from + 1);
    }
}

/// Adding an entry succeeds where there is room for it.
proof fn lemma_entry_fits(s: State, dir: u64, name: Seq<u8>, kind: InodeKind, child_pa: u64)
    requires
        tree::tree_ok(s),
        !buddy::is_free(s.mm.lists, dir as int),
        name.len() <= MAX_NAME,
        ramfs::inode(s, dir).kind is Dir,
        ramfs::inode(s, dir).size < 64,
        ramfs::inode(s, dir).data_pa != 0 || pages_free(s, 1),
        ramfs::child(s, dir, name) is None,
    ensures
        ramfs::entry_added(s, dir, name, kind, child_pa).1 is Ok,
{
    tree::lemma_data_ensured(s, dir);
    tree::lemma_data_ensured_ok(s, dir);
    let (s1, data) = ramfs::data_ensured(s, dir);
    let d = data->0;
    if ramfs::inode(s, dir).data_pa == 0 {
        reveal_with_fuel(pages_free, 2);
        assert forall|k: int| 0 <= k < 64 implies !#[trigger] ramfs::named(
            ramfs::entry(s1, d, k),
            name,
        ) by {}
        tree::lemma_find_none(s1, d, name, 0);
    }
    assert(tree::inode_ok(s1, dir));
    lemma_room(s1, d, 0);
}

/// A new entry keeps the filesystem a tree.
proof fn lemma_entry_joins(s: State, dir: u64, name: Seq<u8>, kind: InodeKind, child_pa: u64)
    requires
        paths_ok(s),
        child_pa != 0,
        child_pa != s.fs_root,
        !buddy::is_free(s.mm.lists, child_pa as int),
        !name.contains(0u8),
        forall|d: u64, c: Seq<u8>| #[trigger] ramfs::child(s, d, c) != Some(child_pa),
    ensures
        ramfs::entry_added(s, dir, name, kind, child_pa) matches (s2, Ok(_)) ==> {
            &&& paths_ok(s2)
            &&& s2.fs_root == s.fs_root
            &&& ramfs::child(s, dir, name) is None
            &&& ramfs::child(s2, dir, name) == Some(child_pa)
            &&& forall|d: u64, c: Seq<u8>|
                !(d == dir && c == name) ==> #[trigger] ramfs::child(s2, d, c) == ramfs::child(
                    s,
                    d,
                    c,
                )
            &&& forall|p: u64| p != dir ==> #[trigger] ramfs::inode(s2, p) == ramfs::inode(s, p)
            &&& ramfs::inode(s2, dir).kind == ramfs::inode(s, dir).kind
            &&& ramfs::inode(s2, dir).size == ramfs::inode(s, dir).size + 1
        },
{
    tree::lemma_entry_added(s, dir, name, kind, child_pa);
    tree::lemma_entry_added_ok(s, dir, name, kind, child_pa);
    let (s2, r) = ramfs::entry_added(s, dir, name, kind, child_pa);
    if r is Ok {
        assert forall|d: u64, c: Seq<u8>| !(d == dir && c == name) implies #[trigger] ramfs::child(
            s2,
            d,
            c,
        ) == ramfs::child(s, d, c) by {
            if ramfs::child(s, d, c) is None {
                assert(!(c == name && tree::same_page(s, dir, d))) by {
                    assert(d != dir ==> ramfs::inode(s, dir).data_pa != 0 ==> ramfs::inode(
                        s,
                        dir,
                    ).data_pa != ramfs::inode(s, d).data_pa);
                }
                assert(ramfs::child(s2, d, c) is None);
            }
        }
        assert(kinds_known(s2)) by {
            assert(s.inodes.contains_key(dir));
            tree::lemma_data_ensured(s, dir);
            let (s1, data) = ramfs::data_ensured(s, dir);
            let i = ramfs::free_entry(s1, data->0, 0)->0;
            let at = ramfs::entry_addr(data->0, i);
            assert forall|a: u64|
                (#[trigger] objects::at(s2.dirents, a)).inode_pa != 0 implies InodeKind::decoded(
                objects::at(s2.dirents, a).kind,
            ) is Some by {
                if a != at {
                    assert(objects::at(s2.dirents, a) == objects::at(s.dirents, a));
                }
            }
        }
        assert(tree::inode_ok(s, dir));
        if ramfs::inode(s, dir).data_pa != 0 {
            tree::lemma_live_bound(s, ramfs::inode(s, dir).data_pa, 0);
        }
    }
}

/// An entry that goes keeps the filesystem a tree.
proof fn lemma_entry_leaves(s: State, dir: u64, i: int)
    requires
        paths_ok(s),
        ramfs::inode(s, dir).kind is Dir,
        ramfs::inode(s, dir).data_pa != 0,
        0 <= i < 64,
        ramfs::entry(s, ramfs::inode(s, dir).data_pa, i).inode_pa != 0,
    ensures
        paths_ok(ramfs::entry_removed(s, dir, i)),
{
    tree::lemma_entry_removed(s, dir, i);
    let s2 = ramfs::entry_removed(s, dir, i);
    let d = ramfs::inode(s, dir).data_pa;
    let name = ramfs::text(ramfs::entry(s, d, i).name@);
    assert forall|a: u64|
        (#[trigger] objects::at(s2.dirents, a)).inode_pa != 0 implies InodeKind::decoded(
        objects::at(s2.dirents, a).kind,
    ) is Some by {
        if a != ramfs::entry_addr(d, i) {
            assert(objects::at(s2.dirents, a) == objects::at(s.dirents, a));
        }
    }
    assert forall|e: u64, c: Seq<u8>| #[trigger] ramfs::child(s2, e, c) is Some implies ramfs::child(
        s2,
        e,
        c,
    ) == ramfs::child(s, e, c) by {}
}

/// What a found entry says.
proof fn lemma_child_entry(s: State, dir: u64, name: Seq<u8>)
    ensures
        ramfs::child(s, dir, name) matches Some(x) ==> {
            let d = ramfs::inode(s, dir).data_pa;
            &&& ramfs::inode(s, dir).kind is Dir
            &&& d != 0
            &&& ramfs::find_entry(s, d, name, 0) matches Some(i) && 0 <= i < 64 && ramfs::entry(
                s,
                d,
                i,
            ).inode_pa == x && x != 0 && ramfs::text(ramfs::entry(s, d, i).name@) == name
            &&& name.len() <= MAX_NAME
        },
{
    if ramfs::child(s, dir, name) is Some {
        let d = ramfs::inode(s, dir).data_pa;
        tree::lemma_find_entry(s, d, name, 0);
        let i = ramfs::find_entry(s, d, name, 0)->0;
        path::lemma_find_byte(ramfs::entry(s, d, i).name@, 0, 0);
    }
}

/// A directory with an entry is occupied.
proof fn lemma_occupied(s: State, dir: u64, name: Seq<u8>)
    requires
        tree::tree_ok(s),
        ramfs::child(s, dir, name) is Some,
    ensures
        ramfs::occupied(s, dir),
{
    lemma_child_entry(s, dir, name);
    let d = ramfs::inode(s, dir).data_pa;
    let i = ramfs::find_entry(s, d, name, 0)->0;
    assert(tree::inode_ok(s, dir));
    tree::lemma_live_at(s, d, i, 0);
}

/// What creating an inode at a path does where it succeeds.
proof fn lemma_created(s: State, p: Seq<u8>, kind: InodeKind)
    requires
        paths_ok(s),
        plain_name(s, p),
    ensures
        ramfs::parent_of(s, p) matches Ok((dir, name)) ==> ramfs::inode_made(s, kind) matches (
            s1,
            Some(pa),
        ) ==> ramfs::entry_added(s1, dir, name, kind, pa) matches (s2, Ok(_)) ==> {
            &&& paths_ok(s2)
            &&& ramfs::found(s, p) is None
            &&& ramfs::found(s2, p) == Some(pa)
            &&& ramfs::inode(s2, pa) == (Inode { kind, size: 0, data_pa: 0 })
            &&& ramfs::inode(s2, dir).size == ramfs::inode(s, dir).size + 1
            &&& forall|q: Seq<u8>|
                path::components(q) != path::components(p) ==> #[trigger] ramfs::found(s2, q)
                    == ramfs::found(s, q)
        },
{
    tree::lemma_parent(s, p);
    tree::lemma_inode_made(s, kind);
    tree::lemma_inode_made_ok(s, kind);
    if let Ok((dir, name)) = ramfs::parent_of(s, p) {
        let (s1, made) = ramfs::inode_made(s, kind);
        if let Some(pa) = made {
            lemma_inode_paths(s, kind);
            tree::lemma_walk_end(s, s.fs_root, tree::parent_steps(p));
            assert(dir != pa);
            lemma_entry_joins(s1, dir, name, kind, pa);
            let (s2, r) = ramfs::entry_added(s1, dir, name, kind, pa);
            if r is Ok {
                let steps = path::components(p);
                let up = tree::parent_steps(p);
                tree::lemma_walk_step(s, s.fs_root, up, name);
                tree::lemma_walk_step(s2, s.fs_root, up, name);
                assert(ramfs::child(s1, dir, name) == ramfs::child(s, dir, name));
                assert(steps.drop_last() =~= up && steps.last() == name);
                assert forall|d: u64, c: Seq<u8>| !(d == dir && c == name) implies #[trigger] ramfs::child(
                    s2,
                    d,
                    c,
                ) == ramfs::child(s, d, c) by {
                    assert(ramfs::child(s1, d, c) == ramfs::child(s, d, c));
                }
                assert(!leads_through(up, steps));
                lemma_other_walks(s, s2, steps, steps, up);
                assert forall|q: Seq<u8>| path::components(q) != path::components(p) implies #[trigger] ramfs::found(
                    s2,
                    q,
                ) == ramfs::found(s, q) by {
                    let cs = path::components(q);
                    if !leads_through(cs, steps) {
                        lemma_other_walks(s, s2, steps, steps, cs);
                    } else {
                        let rest = cs.skip(steps.len() as int);
                        assert(cs =~= steps + rest);
                        lemma_walk_parts(s, s.fs_root, steps, rest);
                        lemma_walk_parts(s2, s.fs_root, steps, rest);
                        assert(rest.len() > 0) by {
                            if rest.len() == 0 {
                                assert(cs =~= steps);
                            }
                        }
                        assert(ramfs::child(s2, pa, rest[0]) is None);
                    }
                }
            }
        }
    }
}

/// Making an inode changes no path, and no path leads to it.
proof fn lemma_inode_paths(s: State, kind: InodeKind)
    requires
        paths_ok(s),
    ensures
        ramfs::inode_made(s, kind) matches (s1, Some(pa)) ==> {
            &&& paths_ok(s1)
            &&& pa != s1.fs_root
            &&& forall|d: u64, c: Seq<u8>| #[trigger] ramfs::child(s1, d, c) != Some(pa)
        },
{
    tree::lemma_inode_made(s, kind);
    tree::lemma_inode_made_ok(s, kind);
    let (s1, made) = ramfs::inode_made(s, kind);
    if let Some(pa) = made {
        assert forall|d: u64, c: Seq<u8>| #[trigger] ramfs::child(s1, d, c) != Some(pa) by {
            assert(ramfs::child(s1, d, c) == ramfs::child(s, d, c));
            tree::lemma_child_end(s, d, c);
        }
        assert(single_parent(s1)) by {
            assert forall|d: u64, c: Seq<u8>, e: u64, b: Seq<u8>|
                #![trigger ramfs::child(s1, d, c), ramfs::child(s1, e, b)]
                ramfs::child(s1, d, c) is Some && ramfs::child(s1, d, c) == ramfs::child(
                    s1,
                    e,
                    b,
                ) implies d == e && c == b by {
                assert(ramfs::child(s1, d, c) == ramfs::child(s, d, c));
                assert(ramfs::child(s1, e, b) == ramfs::child(s, e, b));
            }
            assert forall|d: u64, c: Seq<u8>| #[trigger] ramfs::child(s1, d, c) != Some(
                s1.fs_root,
            ) by {
                assert(ramfs::child(s1, d, c) == ramfs::child(s, d, c));
            }
        }
        assert(kinds_known(s1)) by {
            assert forall|a: u64|
                (#[trigger] objects::at(s1.dirents, a)).inode_pa != 0 implies InodeKind::decoded(
                objects::at(s1.dirents, a).kind,
            ) is Some by {
                assert(objects::at(s.dirents, a).inode_pa != 0);
            }
        }
    }
}

/// A file that was created is found under its path, empty; its directory has one
/// entry more; every other path leads where it led, or nowhere as before.
pub proof fn law_created_file_found(s: State, p: Seq<u8>)
    requires
        paths_ok(s),
        plain_name(s, p),
    ensures
        ramfs::file_made(s, p) matches (s1, Ok(pa)) ==> {
            let dir = ramfs::parent_of(s, p)->Ok_0.0;
            &&& paths_ok(s1)
            &&& ramfs::found(s, p) is None
            &&& ramfs::found(s1, p) == Some(pa)
            &&& ramfs::inode(s1, pa) == (Inode { kind: InodeKind::File, size: 0, data_pa: 0 })
            &&& ramfs::inode(s1, dir).size == ramfs::inode(s, dir).size + 1
            &&& forall|q: Seq<u8>|
                path::components(q) != path::components(p) ==> #[trigger] ramfs::found(s1, q)
                    == ramfs::found(s, q)
        },
{
    lemma_created(s, p, InodeKind::File);
}

/// The same of a directory that was made.
pub proof fn law_made_dir_found(s: State, p: Seq<u8>)
    requires
        paths_ok(s),
        plain_name(s, p),
    ensures
        ramfs::dir_made(s, p) matches (s1, Ok(_)) ==> {
            let dir = ramfs::parent_of(s, p)->Ok_0.0;
            &&& paths_ok(s1)
            &&& ramfs::found(s, p) is None
            &&& ramfs::found(s1, p) matches Some(pa) && ramfs::inode(s1, pa) == (Inode {
                kind: InodeKind::Dir,
                size: 0,
                data_pa: 0,
            })
            &&& ramfs::inode(s1, dir).size == ramfs::inode(s, dir).size + 1
            &&& forall|q: Seq<u8>|
                path::components(q) != path::components(p) ==> #[trigger] ramfs::found(s1, q)
                    == ramfs::found(s, q)
        },
{
    lemma_created(s, p, InodeKind::Dir);
}

/// Creating succeeds where nothing is at the path yet, its directory has room,
/// the name fits and two pages are free.
pub proof fn law_creation_succeeds(s: State, p: Seq<u8>)
    requires
        paths_ok(s),
        pages_free(s, 2),
        ramfs::found(s, p) is None,
        ramfs::parent_of(s, p) matches Ok((dir, name)) && name.len() <= MAX_NAME && ramfs::inode(
            s,
            dir,
        ).kind is Dir && ramfs::inode(s, dir).size < 64,
    ensures
        ramfs::file_made(s, p).1 is Ok,
        ramfs::dir_made(s, p).1 is Ok,
{
    lemma_creation_fits(s, p, InodeKind::File);
    lemma_creation_fits(s, p, InodeKind::Dir);
}

proof fn lemma_creation_fits(s: State, p: Seq<u8>, kind: InodeKind)
    requires
        paths_ok(s),
        pages_free(s, 2),
        ramfs::found(s, p) is None,
        ramfs::parent_of(s, p) matches Ok((dir, name)) && name.len() <= MAX_NAME && ramfs::inode(
            s,
            dir,
        ).kind is Dir && ramfs::inode(s, dir).size < 64,
    ensures
        ramfs::inode_made(s, kind) matches (s1, Some(pa)) && ramfs::entry_added(
            s1,
            ramfs::parent_of(s, p)->Ok_0.0,
            ramfs::parent_of(s, p)->Ok_0.1,
            kind,
            pa,
        ).1 is Ok,
{
    reveal_with_fuel(pages_free, 3);
    tree::lemma_parent(s, p);
    tree::lemma_inode_made(s, kind);
    tree::lemma_inode_made_ok(s, kind);
    let (dir, name) = ramfs::parent_of(s, p)->Ok_0;
    let (s1, made) = ramfs::inode_made(s, kind);
    let pa = made->0;
    tree::lemma_walk_end(s, s.fs_root, tree::parent_steps(p));
    tree::lemma_walk_step(s, s.fs_root, tree::parent_steps(p), name);
    assert(ramfs::child(s1, dir, name) == ramfs::child(s, dir, name));
    assert(dir != pa);
    assert(!buddy::is_free(s1.mm.lists, dir as int)) by {
        kernel::lemma_page_made(s);
    }
    assert(pages_free(s1, 1)) by {
        let t = kernel::page_made(s).0;
        assert(t.mm == s1.mm);
        assert(kernel::page_made(t).1 is Some);
        assert(kernel::page_made(s1).1 is Some);
    }
    lemma_entry_fits(s1, dir, name, kind, pa);
}

/// What is at a path already is not created again, and every path leads where it
/// led.
pub proof fn law_existing_path_refused(s: State, p: Seq<u8>)
    requires
        tree::fs_ok(s),
        ramfs::found(s, p) is Some,
    ensures
        ({
            let e = match ramfs::parent_of(s, p) {
                Err(e) => e,
                Ok(_) => if kernel::page_made(s).1 is Some {
                    FsError::Exists
                } else {
                    FsError::NoMemory
                },
            };
            &&& ramfs::file_made(s, p).1 == Err::<u64, FsError>(e)
            &&& ramfs::dir_made(s, p).1 == Err::<(), FsError>(e)
        }),
        forall|q: Seq<u8>| #[trigger]
            ramfs::found(ramfs::file_made(s, p).0, q) == ramfs::found(s, q),
        forall|q: Seq<u8>| #[trigger]
            ramfs::found(ramfs::dir_made(s, p).0, q) == ramfs::found(s, q),
{
    lemma_refused(s, p, InodeKind::File);
    lemma_refused(s, p, InodeKind::Dir);
}

proof fn lemma_refused(s: State, p: Seq<u8>, kind: InodeKind)
    requires
        tree::fs_ok(s),
        ramfs::found(s, p) is Some,
    ensures
        ramfs::parent_of(s, p) matches Ok((dir, name)) ==> match ramfs::inode_made(s, kind) {
            (s1, None) => s1 == s && kernel::page_made(s).1 is None,
            (s1, Some(pa)) => {
                &&& kernel::page_made(s).1 is Some
                &&& ramfs::entry_added(s1, dir, name, kind, pa) == (
                    s1,
                    Err::<(), FsError>(FsError::Exists),
                )
                &&& forall|q: Seq<u8>| #[trigger] ramfs::found(s1, q) == ramfs::found(s, q)
            },
        },
{
    tree::lemma_parent(s, p);
    tree::lemma_inode_made(s, kind);
    if let Ok((dir, name)) = ramfs::parent_of(s, p) {
        let (s1, made) = ramfs::inode_made(s, kind);
        if let Some(pa) = made {
            tree::lemma_walk_step(s, s.fs_root, tree::parent_steps(p), name);
            assert(ramfs::child(s1, dir, name) == ramfs::child(s, dir, name));
            lemma_child_entry(s1, dir, name);
            assert forall|q: Seq<u8>| #[trigger] ramfs::found(s1, q) == ramfs::found(s, q) by {
                lemma_same_walk(s, s1, s.fs_root, path::components(q));
            }
        }
    }
}

/// What was unlinked is no longer found; its inode stays for those who have it
/// open; its directory has one entry less; every other path leads where it led.
pub proof fn law_unlinked_path_gone(s: State, p: Seq<u8>)
    requires
        paths_ok(s),
    ensures
        ramfs::unlinked(s, p) matches (s1, Ok(_)) ==> {
            let dir = ramfs::parent_of(s, p)->Ok_0.0;
            &&& paths_ok(s1)
            &&& ramfs::found(s, p) matches Some(pa) && ramfs::inode(s1, pa) == ramfs::inode(s, pa)
            &&& ramfs::found(s1, p) is None
            &&& ramfs::inode(s1, dir).size == ramfs::inode(s, dir).size - 1
            &&& forall|q: Seq<u8>|
                path::components(q) != path::components(p) ==> #[trigger] ramfs::found(s1, q)
                    == ramfs::found(s, q)
        },
{
    tree::lemma_parent(s, p);
    let (s1, r) = ramfs::unlinked(s, p);
    if r is Ok {
        let (dir, name) = ramfs::parent_of(s, p)->Ok_0;
        let d = ramfs::inode(s, dir).data_pa;
        let steps = path::components(p);
        let up = tree::parent_steps(p);
        tree::lemma_walk_step(s, s.fs_root, up, name);
        lemma_child_entry(s, dir, name);
        let i = ramfs::find_entry(s, d, name, 0)->0;
        let pa = ramfs::entry(s, d, i).inode_pa;
        assert(ramfs::child(s, dir, name) == Some(pa));
        tree::lemma_entry_removed(s, dir, i);
        lemma_entry_leaves(s, dir, i);
        assert(steps.drop_last() =~= up && steps.last() == name);
        if pa == dir {
            lemma_one_walk(s, steps, up);
        }
        assert(!leads_through(up, steps));
        lemma_other_walks(s, s1, steps, steps, up);
        tree::lemma_walk_step(s1, s.fs_root, up, name);
        assert forall|q: Seq<u8>| path::components(q) != path::components(p) implies #[trigger] ramfs::found(
            s1,
            q,
        ) == ramfs::found(s, q) by {
            let cs = path::components(q);
            if !leads_through(cs, steps) {
                lemma_other_walks(s, s1, steps, steps, cs);
            } else {
                let rest = cs.skip(steps.len() as int);
                assert(cs =~= steps + rest);
                lemma_walk_parts(s, s.fs_root, steps, rest);
                lemma_walk_parts(s1, s.fs_root, steps, rest);
                assert(rest.len() > 0) by {
                    if rest.len() == 0 {
                        assert(cs =~= steps);
                    }
                }
                if ramfs::child(s, pa, rest[0]) is Some {
                    lemma_occupied(s, pa, rest[0]);
                }
            }
        }
    }
}

/// Unlinking succeeds on a file and on an empty directory. A directory with
/// entries is refused, and so is a path that leads nowhere; then nothing changes.
pub proof fn law_unlink_succeeds(s: State, p: Seq<u8>)
    requires
        ramfs::parent_of(s, p) is Ok,
    ensures
        ramfs::found(s, p) matches Some(pa) ==> if ramfs::occupied(s, pa) {
            ramfs::unlinked(s, p) == (s, Err::<(), FsError>(FsError::NotEmpty))
        } else {
            ramfs::unlinked(s, p).1 is Ok
        },
        ramfs::found(s, p) is None ==> ramfs::unlinked(s, p).0 == s && ramfs::unlinked(s, p).1 is Err,
{
    tree::lemma_parent(s, p);
    let (dir, name) = ramfs::parent_of(s, p)->Ok_0;
    tree::lemma_walk_step(s, s.fs_root, tree::parent_steps(p), name);
    lemma_child_entry(s, dir, name);
}

/// A rename is within reach: the new path does not lead through the old one, its
/// name fits, and its directory has room.
pub open spec fn can_rename(s: State, from: Seq<u8>, to: Seq<u8>) -> bool {
    &&& ramfs::parent_of(s, from) is Ok
    &&& ramfs::found(s, from) is Some
    &&& !leads_through(path::components(to), path::components(from))
    &&& ramfs::parent_of(s, to) matches Ok((dir, name)) && name.len() <= MAX_NAME && ramfs::inode(
        s,
        dir,
    ).kind is Dir && ramfs::inode(s, dir).size < 64 && (ramfs::inode(s, dir).data_pa != 0
        || pages_free(s, 1))
}

/// What a rename goes through: the target cleared, the old entry removed, the
/// new one added.
proof fn lemma_rename_steps(s: State, from: Seq<u8>, to: Seq<u8>) -> (s2: State)
    requires
        paths_ok(s),
        plain_name(s, to),
        can_rename(s, from, to),
        ramfs::found(s, to) matches Some(y) ==> !ramfs::occupied(s, y),
    ensures
        ({
            let (od, on) = ramfs::parent_of(s, from)->Ok_0;
            let (nd, nn) = ramfs::parent_of(s, to)->Ok_0;
            let pa = ramfs::found(s, from)->0;
            &&& paths_ok(s2)
            &&& s2.mm == s.mm
            &&& s2.bytes == s.bytes
            &&& s2.fs_root == s.fs_root
            &&& !(od == nd && on == nn)
            &&& pa != od
            &&& pa != nd
            &&& ramfs::child(s2, od, on) is None
            &&& ramfs::child(s2, nd, nn) is None
            &&& forall|d: u64, c: Seq<u8>|
                !(d == od && c == on) && !(d == nd && c == nn) ==> #[trigger] ramfs::child(s2, d, c)
                    == ramfs::child(s, d, c)
            &&& forall|d: u64, c: Seq<u8>| #[trigger] ramfs::child(s2, d, c) != Some(pa)
            &&& forall|p: u64| p != od && p != nd ==> #[trigger] ramfs::inode(s2, p) == ramfs::inode(
                s,
                p,
            )
            &&& ramfs::inode(s2, nd).kind is Dir
            &&& ramfs::inode(s2, nd).size < 64
            &&& ramfs::inode(s2, nd).data_pa == ramfs::inode(s, nd).data_pa
            &&& exists|kind: InodeKind| #[trigger]
                ramfs::entry_added(s2, nd, nn, kind, pa) == ramfs::renamed(s, from, to)
        }),
{
    tree::lemma_parent(s, from);
    tree::lemma_parent(s, to);
    let (od, on) = ramfs::parent_of(s, from)->Ok_0;
    let (nd, nn) = ramfs::parent_of(s, to)->Ok_0;
    let pa = ramfs::found(s, from)->0;
    let f = path::components(from);
    let t = path::components(to);
    tree::lemma_walk_step(s, s.fs_root, tree::parent_steps(from), on);
    tree::lemma_walk_step(s, s.fs_root, tree::parent_steps(to), nn);
    if od == nd && on == nn {
        lemma_one_walk(s, tree::parent_steps(from), tree::parent_steps(to));
        assert(t.take(f.len() as int) =~= f);
    }
    if pa == od {
        lemma_one_walk(s, f, tree::parent_steps(from));
    }
    if pa == nd {
        lemma_one_walk(s, f, tree::parent_steps(to));
        assert(t.take(f.len() as int) =~= f);
    }
    lemma_child_entry(s, od, on);
    let data = ramfs::inode(s, od).data_pa;
    let i = ramfs::find_entry(s, data, on, 0)->0;
    let e = ramfs::entry(s, data, i);
    assert(objects::at(s.dirents, ramfs::entry_addr(data, i)) == e);
    let kind = InodeKind::decoded(e.kind)->0;
    // The target.
    let (s1, clear) = ramfs::target_cleared(s, nd, nn);
    lemma_child_entry(s, nd, nn);
    let k = ramfs::find_entry(s, ramfs::inode(s, nd).data_pa, nn, 0);
    assert(clear);
    if ramfs::inode(s, nd).data_pa != 0 && k is Some {
        assert(ramfs::child(s, nd, nn) is Some);
        tree::lemma_entry_removed(s, nd, k->0);
        lemma_entry_leaves(s, nd, k->0);
        assert(s1 == ramfs::entry_removed(s, nd, k->0));
    } else {
        assert(s1 == s);
        assert(ramfs::child(s, nd, nn) is None);
    }
    assert(ramfs::child(s1, nd, nn) is None);
    assert(paths_ok(s1));
    assert(s1.mm == s.mm && s1.bytes == s.bytes && s1.fs_root == s.fs_root);
    assert forall|d: u64, c: Seq<u8>| !(d == nd && c == nn) implies #[trigger] ramfs::child(s1, d, c)
        == ramfs::child(s, d, c) by {}
    assert(ramfs::inode(s1, nd).kind is Dir);
    assert(ramfs::inode(s1, nd).size <= ramfs::inode(s, nd).size);
    assert(ramfs::inode(s1, nd).data_pa == ramfs::inode(s, nd).data_pa);
    assert(ramfs::inode(s1, od).data_pa == data);
    // The old entry.
    assert(ramfs::child(s1, od, on) == Some(pa));
    lemma_child_entry(s1, od, on);
    let j = ramfs::find_entry(s1, data, on, 0)->0;
    tree::lemma_entry_removed(s1, od, j);
    lemma_entry_leaves(s1, od, j);
    let s2 = ramfs::entry_removed(s1, od, j);
    assert(ramfs::child(s2, nd, nn) == ramfs::child(s1, nd, nn));
    assert forall|d: u64, c: Seq<u8>|
        !(d == od && c == on) && !(d == nd && c == nn) implies #[trigger] ramfs::child(s2, d, c)
        == ramfs::child(s, d, c) by {
        assert(ramfs::child(s1, d, c) == ramfs::child(s, d, c));
    }
    assert forall|d: u64, c: Seq<u8>| #[trigger] ramfs::child(s2, d, c) != Some(pa) by {
        if ramfs::child(s2, d, c) == Some(pa) {
            assert(ramfs::child(s, d, c) == Some(pa));
            assert(ramfs::child(s, od, on) == Some(pa));
        }
    }
    assert forall|p: u64| p != od && p != nd implies #[trigger] ramfs::inode(s2, p)
        == ramfs::inode(s, p) by {
        assert(ramfs::inode(s1, p) == ramfs::inode(s, p));
    }
    assert(ramfs::entry_added(s2, nd, nn, kind, pa) == ramfs::renamed(s, from, to));
    s2
}

/// A rename moves what the old path led to, with its contents, to the new path,
/// and replaces a file or an empty directory there; the old path leads nowhere;
/// what was below the old path is below the new one; every other path leads
/// where it led.
pub proof fn law_rename_moves(s: State, from: Seq<u8>, to: Seq<u8>)
    requires
        paths_ok(s),
        plain_name(s, to),
        can_rename(s, from, to),
        ramfs::found(s, to) matches Some(y) ==> !ramfs::occupied(s, y),
    ensures
        ({
            let (s1, r) = ramfs::renamed(s, from, to);
            let pa = ramfs::found(s, from)->0;
            let f = path::components(from);
            let t = path::components(to);
            &&& r is Ok
            &&& paths_ok(s1)
            &&& ramfs::found(s1, to) == Some(pa)
            &&& ramfs::found(s1, from) is None
            &&& ramfs::inode(s1, pa) == ramfs::inode(s, pa)
            &&& ramfs::file_bytes(s1, pa, 0, 4096) == ramfs::file_bytes(s, pa, 0, 4096)
            &&& forall|c: Seq<u8>| #[trigger] ramfs::child(s1, pa, c) == ramfs::child(s, pa, c)
            &&& forall|q: Seq<u8>|
                !leads_through(path::components(q), f) && !leads_through(path::components(q), t)
                    ==> #[trigger] ramfs::found(s1, q) == ramfs::found(s, q)
            &&& forall|below: Seq<Seq<u8>>| #[trigger]
                ramfs::walked(s1, s1.fs_root, t + below) == ramfs::walked(s, s.fs_root, f + below)
        }),
{
    tree::lemma_parent(s, from);
    tree::lemma_parent(s, to);
    let (od, on) = ramfs::parent_of(s, from)->Ok_0;
    let (nd, nn) = ramfs::parent_of(s, to)->Ok_0;
    let pa = ramfs::found(s, from)->0;
    let f = path::components(from);
    let t = path::components(to);
    let up = tree::parent_steps(from);
    let across = tree::parent_steps(to);
    assert(f.drop_last() =~= up && f.last() == on);
    assert(t.drop_last() =~= across && t.last() == nn);
    let s2 = lemma_rename_steps(s, from, to);
    let kind = choose|kind: InodeKind| #[trigger]
        ramfs::entry_added(s2, nd, nn, kind, pa) == ramfs::renamed(s, from, to);
    let (s3, r) = ramfs::renamed(s, from, to);
    tree::lemma_walk_step(s, s.fs_root, up, on);
    tree::lemma_child_end(s, od, on);
    tree::lemma_walk_end(s, s.fs_root, across);
    assert(pages_free(s, 1) ==> pages_free(s2, 1)) by {
        reveal_with_fuel(pages_free, 2);
    }
    lemma_entry_fits(s2, nd, nn, kind, pa);
    lemma_entry_joins(s2, nd, nn, kind, pa);
    assert forall|d: u64, c: Seq<u8>|
        !(d == od && c == on) && !(d == nd && c == nn) implies #[trigger] ramfs::child(s3, d, c)
        == ramfs::child(s, d, c) by {
        assert(ramfs::child(s2, d, c) == ramfs::child(s, d, c));
    }
    assert(ramfs::child(s3, od, on) == ramfs::child(s2, od, on));
    // The old path does not lead through the new one: there is nothing below that.
    assert(!leads_through(f, t)) by {
        if leads_through(f, t) {
            let rest = f.skip(t.len() as int);
            assert(f =~= t + rest);
            lemma_walk_parts(s, s.fs_root, t, rest);
            if rest.len() == 0 {
                assert(f =~= t);
                assert(t.take(f.len() as int) =~= f);
            } else {
                let y = ramfs::found(s, to)->0;
                assert(ramfs::child(s, y, rest[0]) is Some);
                lemma_occupied(s, y, rest[0]);
            }
        }
    }
    assert(!leads_through(up, t)) by {
        if leads_through(up, t) {
            assert(f.take(t.len() as int) =~= up.take(t.len() as int));
        }
    }
    assert(!leads_through(across, f)) by {
        if leads_through(across, f) {
            assert(t.take(f.len() as int) =~= across.take(f.len() as int));
        }
    }
    assert(!leads_through(up, f) && !leads_through(across, t));
    lemma_other_walks(s, s3, f, t, up);
    lemma_other_walks(s, s3, f, t, across);
    tree::lemma_walk_step(s3, s.fs_root, up, on);
    tree::lemma_walk_step(s3, s.fs_root, across, nn);
    assert forall|q: Seq<u8>|
        !leads_through(path::components(q), f) && !leads_through(
            path::components(q),
            t,
        ) implies #[trigger] ramfs::found(s3, q) == ramfs::found(s, q) by {
        lemma_other_walks(s, s3, f, t, path::components(q));
    }
    assert forall|c: Seq<u8>| #[trigger] ramfs::child(s3, pa, c) == ramfs::child(s, pa, c) by {}
    assert(ramfs::inode(s3, pa) == ramfs::inode(s2, pa));
    lemma_rename_contents(s, s2, nd, nn, kind, pa);
    assert forall|below: Seq<Seq<u8>>| #[trigger]
        ramfs::walked(s3, s3.fs_root, t + below) == ramfs::walked(s, s.fs_root, f + below) by {
        lemma_walk_parts(s3, s.fs_root, t, below);
        lemma_walk_parts(s, s.fs_root, f, below);
        lemma_below(s, s3, f, t, below);
    }
}

/// Adding an entry leaves the contents of another inode.
proof fn lemma_rename_contents(
    s: State,
    s2: State,
    nd: u64,
    nn: Seq<u8>,
    kind: InodeKind,
    pa: u64,
)
    requires
        tree::tree_ok(s),
        tree::tree_ok(s2),
        s2.mm == s.mm,
        s2.bytes == s.bytes,
        pa != nd,
        ramfs::inode(s2, pa) == ramfs::inode(s, pa),
        ramfs::inode(ramfs::entry_added(s2, nd, nn, kind, pa).0, pa) == ramfs::inode(s, pa),
    ensures
        ramfs::file_bytes(ramfs::entry_added(s2, nd, nn, kind, pa).0, pa, 0, 4096)
            == ramfs::file_bytes(s, pa, 0, 4096),
{
    let s3 = ramfs::entry_added(s2, nd, nn, kind, pa).0;
    let a = ramfs::file_bytes(s3, pa, 0, 4096);
    let b = ramfs::file_bytes(s, pa, 0, 4096);
    let n = ramfs::inode(s, pa);
    assert(tree::inode_ok(s, pa));
    if a.len() > 0 {
        assert(n.data_pa % 4096 == 0);
        assert(kernel::page_in_use(s, n.data_pa));
        assert forall|i: int| 0 <= i < a.len() implies a[i] == b[i] by {
            let at = (n.data_pa + i) as u64;
            assert(!buddy::is_free(s.mm.lists, at as int));
            tree::lemma_bytes_kept(s2, nd, at);
        }
    }
    assert(a =~= b);
}

/// What is below the moved inode stays below it.
proof fn lemma_below(s: State, t: State, f: Seq<Seq<u8>>, g: Seq<Seq<u8>>, below: Seq<Seq<u8>>)
    requires
        single_parent(s),
        f.len() > 0,
        g.len() > 0,
        !leads_through(g, f),
        ramfs::walked(s, s.fs_root, f) is Some,
        ramfs::walked(s, s.fs_root, f.drop_last()) is Some,
        ramfs::walked(s, s.fs_root, g.drop_last()) is Some,
        forall|d: u64, c: Seq<u8>|
            !(Some(d) == ramfs::walked(s, s.fs_root, f.drop_last()) && c == f.last()) && !(Some(d)
                == ramfs::walked(s, s.fs_root, g.drop_last()) && c == g.last())
                ==> #[trigger] ramfs::child(t, d, c) == ramfs::child(s, d, c),
    ensures
        ({
            let pa = ramfs::walked(s, s.fs_root, f)->0;
            ramfs::walked(t, pa, below) == ramfs::walked(s, pa, below)
        }),
    decreases below.len(),
{
    let pa = ramfs::walked(s, s.fs_root, f)->0;
    if below.len() > 0 {
        let r = below.drop_last();
        let c = below.last();
        assert(r.push(c) =~= below);
        lemma_below(s, t, f, g, r);
        tree::lemma_walk_step(s, pa, r, c);
        tree::lemma_walk_step(t, pa, r, c);
        if let Some(d) = ramfs::walked(s, pa, r) {
            lemma_walk_parts(s, s.fs_root, f, r);
            if Some(d) == ramfs::walked(s, s.fs_root, f.drop_last()) {
                lemma_one_walk(s, f + r, f.drop_last());
                assert((f + r).len() > f.drop_last().len());
            }
            if Some(d) == ramfs::walked(s, s.fs_root, g.drop_last()) {
                lemma_one_walk(s, f + r, g.drop_last());
                assert(g.take(f.len() as int) =~= (f + r).take(f.len() as int));
                assert((f + r).take(f.len() as int) =~= f);
            }
            assert(ramfs::child(t, d, c) == ramfs::child(s, d, c));
        }
    }
}

/// A directory with entries is not replaced, and nothing changes.
pub proof fn law_rename_refused(s: State, from: Seq<u8>, to: Seq<u8>)
    requires
        paths_ok(s),
        can_rename(s, from, to),
        ramfs::found(s, to) matches Some(y) && ramfs::occupied(s, y),
    ensures
        ramfs::renamed(s, from, to) == (s, Err::<(), FsError>(FsError::NotEmpty)),
{
    tree::lemma_parent(s, from);
    tree::lemma_parent(s, to);
    let (od, on) = ramfs::parent_of(s, from)->Ok_0;
    let (nd, nn) = ramfs::parent_of(s, to)->Ok_0;
    tree::lemma_walk_step(s, s.fs_root, tree::parent_steps(from), on);
    tree::lemma_walk_step(s, s.fs_root, tree::parent_steps(to), nn);
    lemma_child_entry(s, od, on);
    lemma_child_entry(s, nd, nn);
    let data = ramfs::inode(s, od).data_pa;
    let i = ramfs::find_entry(s, data, on, 0)->0;
    assert(objects::at(s.dirents, ramfs::entry_addr(data, i)) == ramfs::entry(s, data, i));
}

/// A fresh root directory is a tree.
pub proof fn law_fresh_tree(m: MmState, images: Images)
    requires
        buddy::lists_ok(m.lists),
    ensures
        ramfs::inode_made(kernel::new_state(m, images), InodeKind::Dir) matches (s, Some(root)) ==> {
            let s1 = State { fs_root: root, ..s };
            paths_ok(s1) && ramfs::found(s1, seq![path::SLASH]) == Some(root)
        },
{
    tree::lemma_fresh_tree(m, images);
    let s0 = kernel::new_state(m, images);
    let (s, made) = ramfs::inode_made(s0, InodeKind::Dir);
    if let Some(root) = made {
        let s1 = State { fs_root: root, ..s };
        assert forall|d: u64, c: Seq<u8>| #[trigger] ramfs::child(s1, d, c) is None by {}
        assert(kinds_known(s1)) by {
            assert forall|a: u64| (#[trigger] objects::at(s1.dirents, a)).inode_pa == 0 by {
                assert(!s1.dirents.contains_key(a));
            }
        }
    }
}

/// Writing to a file and truncating it change no path.
pub proof fn law_contents_keep_paths(s: State, pa: u64, offset: u64, data: Seq<u8>)
    requires
        paths_ok(s),
        !buddy::is_free(s.mm.lists, pa as int),
    ensures
        ramfs::file_written(s, pa, offset, data) matches (s1, Ok(_)) ==> paths_ok(s1) && forall|
            q: Seq<u8>,
        | #[trigger] ramfs::found(s1, q) == ramfs::found(s, q),
        ramfs::truncated(s, pa) matches (s1, Ok(_)) ==> paths_ok(s1) && forall|q: Seq<u8>| #[trigger]
            ramfs::found(s1, q) == ramfs::found(s, q),
{
    tree::lemma_data_ensured(s, pa);
    if ramfs::file_written(s, pa, offset, data).1 is Ok {
        tree::law_written_bytes_read_back(s, pa, offset, data);
        let s1 = ramfs::data_ensured(s, pa).0;
        let s2 = ramfs::file_written(s, pa, offset, data).0;
        assert forall|p: u64| p != pa implies #[trigger] ramfs::inode(s2, p) == ramfs::inode(
            s,
            p,
        ) by {
            assert(ramfs::inode(s1, p) == ramfs::inode(s, p));
        }
        lemma_same_paths(s, s2, pa);
    }
    if ramfs::truncated(s, pa).1 is Ok {
        tree::law_truncated_file_empty(s, pa, 0, 0);
        lemma_same_paths(s, ramfs::truncated(s, pa).0, pa);
    }
}

proof fn lemma_same_paths(s: State, t: State, pa: u64)
    requires
        paths_ok(s),
        tree::tree_ok(t),
        t.fs_root == s.fs_root,
        t.dirents == s.dirents,
        ramfs::inode(s, pa).kind is File,
        ramfs::inode(t, pa).kind is File,
        forall|p: u64| p != pa ==> #[trigger] ramfs::inode(t, p) == ramfs::inode(s, p),
    ensures
        paths_ok(t),
        forall|q: Seq<u8>| #[trigger] ramfs::found(t, q) == ramfs::found(s, q),
{
    assert forall|d: u64, c: Seq<u8>| #[trigger] ramfs::child(t, d, c) == ramfs::child(s, d, c) by {
        if d != pa {
            assert(ramfs::inode(t, d) == ramfs::inode(s, d));
            tree::lemma_same_find(s, t, ramfs::inode(s, d).data_pa, c, 0);
        }
    }
    assert(single_parent(t)) by {
        assert forall|d: u64, c: Seq<u8>, e: u64, b: Seq<u8>|
            #![trigger ramfs::child(t, d, c), ramfs::child(t, e, b)]
            ramfs::child(t, d, c) is Some && ramfs::child(t, d, c) == ramfs::child(
                t,
                e,
                b,
            ) implies d == e && c == b by {
            assert(ramfs::child(t, d, c) == ramfs::child(s, d, c));
            assert(ramfs::child(t, e, b) == ramfs::child(s, e, b));
        }
        assert forall|d: u64, c: Seq<u8>| #[trigger] ramfs::child(t, d, c) != Some(t.fs_root) by {
            assert(ramfs::child(t, d, c) == ramfs::child(s, d, c));
        }
    }
    assert forall|q: Seq<u8>| #[trigger] ramfs::found(t, q) == ramfs::found(s, q) by {
        lemma_same_walk(s, t, s.fs_root, path::components(q));
    }
}

} // verus!
