//! A child's memory: what its parent's user pages and stack held, in pages of
//! its own.
use crate::arch::riscv64::mmu::{PTE_U, PTE_V, USER_MIRROR_OFFSET};
use crate::arch::riscv64::trap::TrapFrame;
use crate::arch::riscv64::space;
use crate::arch::riscv64::vspace::{self, PTE_RWX};
use crate::arch::riscv64::walk;
use crate::bytes;
use crate::image;
use crate::kernel::{self, State};
use crate::linux_compat::fork;
use crate::mm::{buddy, cells, occupancy};
use crate::objects;
use crate::thread::KSTACK_SIZE;
use vstd::prelude::*;

verus! {

/// The entry maps a page for user mode.
pub open spec fn is_user_leaf(pte: u64) -> bool {
    pte & PTE_V != 0 && pte & PTE_RWX != 0 && pte & PTE_U != 0
}

/// Where the page of `pte` has the byte for `a`.
pub open spec fn place(pte: u64, a: u64) -> u64 {
    (vspace::entry_pa(pte) + a % 4096) as u64
}

/// The tables `pl` of a parent, with their levels: pages in use, whose entries
/// lead to tables one level down.
pub open spec fn tables_ok(s: State, pl: Map<u64, nat>) -> bool {
    &&& forall|t: u64| #[trigger]
        pl.contains_key(t) ==> t % 4096 == 0 && kernel::page_in_use(s, t)
    &&& forall|a: u64| #[trigger]
        space::link(s, pl, a) ==> {
            let next = vspace::entry_pa(objects::at(s.ptes, a));
            pl.contains_key(next) && pl[next] + 1 == pl[space::page_of(a)]
        }
}

/// The tables `levels` are a sound address space rooted at `dst`, and share none
/// with `pl`.
pub open spec fn own_space(s: State, levels: Map<u64, nat>, dst: u64, pl: Map<u64, nat>) -> bool {
    &&& space::space_ok(s, levels)
    &&& levels.contains_key(dst)
    &&& levels[dst] == 3
    &&& forall|t: u64| #[trigger] pl.contains_key(t) ==> !levels.contains_key(t)
}

/// Memory in use holds in `t` what it held in `s`, and the tables `pl` are the
/// same.
pub open spec fn untouched(s: State, t: State, pl: Map<u64, nat>) -> bool {
    &&& buddy::lists_ok(t.mm.lists)
    &&& forall|x: int| #[trigger] buddy::is_free(t.mm.lists, x) ==> buddy::is_free(s.mm.lists, x)
    &&& forall|x: u64|
        !buddy::is_free(s.mm.lists, x as int) ==> #[trigger] objects::at(t.bytes, x) == objects::at(
            s.bytes,
            x,
        )
    &&& forall|x: u64|
        pl.contains_key(space::page_of(x)) ==> #[trigger] objects::at(t.ptes, x) == objects::at(
            s.ptes,
            x,
        )
}

/// In the space at `dst`, `a` translates as before, with the rights it had, and
/// reads what it read.
pub open spec fn same_at(s: State, t: State, dst: u64, a: u64) -> bool {
    &&& vspace::translated(t.ptes, dst, a) == vspace::translated(s.ptes, dst, a)
    &&& walk::leaf_of(t.ptes, dst, a, 3) == walk::leaf_of(s.ptes, dst, a, 3)
    &&& forall|v: u8| image::holds(s, dst, a, v) ==> #[trigger] image::holds(t, dst, a, v)
}

/// In `t` the space at `dst` reads at `a` what the page of `pte` holds there in
/// `s`, from memory that was free in `s`, with the rights of `pte`.
pub open spec fn reads_own(s: State, t: State, dst: u64, a: u64, pte: u64) -> bool {
    &&& image::holds(t, dst, a, objects::at(s.bytes, place(pte, a)))
    &&& walk::leaf_of(t.ptes, dst, a, 3) matches Some(e) && e & 0x1e == pte & 0x1e
    &&& buddy::is_free(s.mm.lists, (vspace::translated(t.ptes, dst, a)->0) as int)
}

proof fn lemma_bits(a: u64, pte: u64, new: u64)
    ensures
        (a >> 12u64) & 0x1ff == (a / 0x1000) % 512,
        (a >> 21u64) & 0x1ff == (a / 0x20_0000) % 512,
        (a >> 30u64) & 0x1ff == (a / 0x4000_0000) % 512,
        a < 0x80_0000_0000 ==> (a >> 39u64) & 0x1ff == 0,
        (pte & 0x3ff) < 1024,
        (pte & 0x3ff) & 0x0e == pte & 0x0e,
        (pte & 0x3ff) & 0x1e == pte & 0x1e,
        ((pte >> 10u64) << 12u64) % 4096 == 0,
        ((pte >> 10u64) << 12u64) | (a & 0xfff) == ((pte >> 10u64) << 12u64) + a % 4096,
        new % 4096 == 0 ==> new | (a & 0xfff) == new + a % 4096,
{
    assert((a >> 12u64) & 0x1ff == (a / 0x1000) % 512 && (a >> 21u64) & 0x1ff == (a / 0x20_0000)
        % 512 && (a >> 30u64) & 0x1ff == (a / 0x4000_0000) % 512 && (a < 0x80_0000_0000 ==> (a
        >> 39u64) & 0x1ff == 0) && (pte & 0x3ff) < 1024 && (pte & 0x3ff) & 0x0e == pte & 0x0e && (pte & 0x3ff)
        & 0x1e == pte & 0x1e && ((
    pte >> 10u64) << 12u64) % 4096 == 0 && ((pte >> 10u64) << 12u64) | (a & 0xfff) == ((pte
        >> 10u64) << 12u64) + a % 4096 && (new % 4096 == 0 ==> new | (a & 0xfff) == new + a % 4096))
        by (bit_vector);
}

/// A page mapped into the child's space, once the page `pa` is ready.
proof fn lemma_mapped(
    s: State,
    levels: Map<u64, nat>,
    dst: u64,
    pl: Map<u64, nat>,
    at: u64,
    pa: u64,
    flags: u64,
) -> (more: Map<u64, nat>)
    requires
        buddy::lists_ok(s.mm.lists),
        own_space(s, levels, dst, pl),
        tables_ok(s, pl),
        at % 4096 == 0,
        at < 0x80_0000_0000,
    ensures
        ({
            let s1 = vspace::mapped(s, dst, at, pa, flags).0;
            &&& own_space(s1, more, dst, pl)
            &&& tables_ok(s1, pl)
            &&& untouched(s, s1, pl)
            &&& forall|a: u64|
                a < 0x1_0000_0000_0000 && space::page_of(a) != at ==> #[trigger] same_at(
                    s,
                    s1,
                    dst,
                    a,
                )
        }),
{
    let s1 = vspace::mapped(s, dst, at, pa, flags).0;
    let more = space::lemma_space_mapped(s, levels, dst, at, pa, flags, 3);
    assert forall|t: u64| #[trigger] pl.contains_key(t) implies !more.contains_key(t) by {
        assert(kernel::page_in_use(s, t));
        assert(!buddy::is_free(s.mm.lists, t as int));
    }
    assert forall|x: u64| !buddy::is_free(s.mm.lists, x as int) implies #[trigger] objects::at(
        s1.bytes,
        x,
    ) == objects::at(s.bytes, x) by {
        walk::lemma_mapped_bytes(s, dst, at, pa, flags, 3, x);
    }
    assert forall|x: u64| pl.contains_key(space::page_of(x)) implies #[trigger] objects::at(
        s1.ptes,
        x,
    ) == objects::at(s.ptes, x) by {
        assert(kernel::page_in_use(s, space::page_of(x)));
        assert(!buddy::is_free(s.mm.lists, x as int));
        assert(!levels.contains_key(space::page_of(x)));
    }
    lemma_tables_kept(s, s1, pl);
    assert forall|a: u64|
        a < 0x1_0000_0000_0000 && space::page_of(a) != at implies #[trigger] same_at(
        s,
        s1,
        dst,
        a,
    ) by {
        space::lemma_space_walk(s, levels, dst, a, 3);
        space::lemma_space_walk(s, levels, dst, at, 3);
        space::lemma_space_branch(s, levels, dst, at, a, 3);
        assert(space::page_of(at) == at);
        space::lemma_page_entries(at, a);
        walk::law_mapping_is_local(s, dst, at, a, pa, flags);
        assert forall|v: u8| image::holds(s, dst, a, v) implies #[trigger] image::holds(
            s1,
            dst,
            a,
            v,
        ) by {
            let x = vspace::translated(s.ptes, dst, a)->0;
            assert(objects::at(s1.bytes, x) == objects::at(s.bytes, x));
            walk::lemma_mapped_bytes(s, dst, at, pa, flags, 3, x);
        }
    }
    more
}

proof fn lemma_tables_kept(s: State, t: State, pl: Map<u64, nat>)
    requires
        tables_ok(s, pl),
        untouched(s, t, pl),
    ensures
        tables_ok(t, pl),
{
    assert forall|x: u64| #[trigger] pl.contains_key(x) implies x % 4096 == 0
        && kernel::page_in_use(t, x) by {
        assert(kernel::page_in_use(s, x));
    }
    assert forall|a: u64| #[trigger] space::link(t, pl, a) implies space::link(s, pl, a)
        && objects::at(t.ptes, a) == objects::at(s.ptes, a) by {}
}

/// One page: a user page is copied to a page of the child's own, and every other
/// address of the child stays.
#[verifier::rlimit(40)]
proof fn lemma_page(
    s: State,
    levels: Map<u64, nat>,
    dst: u64,
    pl: Map<u64, nat>,
    pte: u64,
    at: u64,
) -> (more: Map<u64, nat>)
    requires
        buddy::lists_ok(s.mm.lists),
        own_space(s, levels, dst, pl),
        tables_ok(s, pl),
        at % 4096 == 0,
        at < 0x80_0000_0000,
        fork::page_copied(s, pte, at, dst).1,
    ensures
        ({
            let s1 = fork::page_copied(s, pte, at, dst).0;
            &&& own_space(s1, more, dst, pl)
            &&& tables_ok(s1, pl)
            &&& untouched(s, s1, pl)
            &&& is_user_leaf(pte) ==> forall|a: u64|
                at <= a < at + 4096 && !buddy::is_free(s.mm.lists, place(pte, a) as int)
                    ==> #[trigger] reads_own(s, s1, dst, a, pte)
            &&& forall|a: u64|
                a < 0x1_0000_0000_0000 && space::page_of(a) != at ==> #[trigger] same_at(
                    s,
                    s1,
                    dst,
                    a,
                )
        }),
{
    let flags = pte & fork::PTE_FLAGS;
    if pte & PTE_V == 0 || pte & PTE_RWX == 0 {
        levels
    } else if pte & PTE_U == 0 {
        lemma_mapped(s, levels, dst, pl, at, vspace::entry_pa(pte), flags)
    } else {
        let (s1, page) = vspace::page_taken(s);
        let new = page->0;
        kernel::lemma_page_made(s);
        assert(kernel::page_made(s).0.mm == s1.mm);
        let data = kernel::loaded(s1.bytes, vspace::entry_pa(pte), 4096);
        let s2 = kernel::with_bytes(s1, new, data);
        assert forall|x: int| new <= x < new + 4096 implies #[trigger] buddy::is_free(
            s.mm.lists,
            x,
        ) && !buddy::is_free(s2.mm.lists, x) by {
            assert(buddy::is_free(s.mm.lists, x) <==> buddy::is_free(s1.mm.lists, x) || new <= x
                < new + 4096);
        }
        assert(untouched(s, s2, pl)) by {
            assert forall|x: u64| !buddy::is_free(s.mm.lists, x as int) implies #[trigger] objects::at(
                s2.bytes,
                x,
            ) == objects::at(s.bytes, x) by {
                assert(!(new <= x < new + 4096));
                kernel::lemma_stored(s1.bytes, new, data, x);
            }
        }
        lemma_tables_kept(s, s2, pl);
        assert(own_space(s2, levels, dst, pl)) by {
            assert forall|a: u64| #[trigger] space::link(s2, levels, a) implies space::link(
                s,
                levels,
                a,
            ) by {}
            assert forall|t: u64| #[trigger] levels.contains_key(t) implies t % 4096 == 0
                && kernel::page_in_use(s2, t) by {
                assert(kernel::page_in_use(s, t));
            }
        }
        let more = lemma_mapped(s2, levels, dst, pl, at, new, flags);
        let s3 = vspace::mapped(s2, dst, at, new, flags).0;
        lemma_bits(at, pte, new);
        assert forall|a: u64|
            at <= a < at + 4096 && !buddy::is_free(
                s.mm.lists,
                place(pte, a) as int,
            ) implies #[trigger] reads_own(s, s3, dst, a, pte) by {
            lemma_bits(a, pte, new);
            assert(space::page_of(a) == at && space::page_of(at) == at);
            space::lemma_page_entries(at, a);
            space::lemma_mapped_page(s2, dst, at, a, new, flags, 3);
            space::lemma_space_walk(s2, levels, dst, a, 3);
            walk::law_mapped_page_found(s2, dst, a, new, flags);
            walk::law_mapped_rights(s2, dst, a, new, flags);
            let o = a % 4096;
            let x = (new + o) as u64;
            assert(vspace::translated(s3.ptes, dst, a) == Some(x));
            kernel::lemma_stored(s1.bytes, new, data, x);
            assert(data[o as int] == objects::at(s.bytes, place(pte, a)));
            assert(!buddy::is_free(s2.mm.lists, x as int));
            walk::lemma_mapped_bytes(s2, dst, at, new, flags, 3, x);
            assert(buddy::is_free(s.mm.lists, x as int));
        }
        assert(untouched(s, s3, pl)) by {
            assert forall|x: u64| !buddy::is_free(s.mm.lists, x as int) implies #[trigger] objects::at(
                s3.bytes,
                x,
            ) == objects::at(s.bytes, x) by {
                assert(!buddy::is_free(s2.mm.lists, x as int));
                assert(objects::at(s2.bytes, x) == objects::at(s.bytes, x));
            }
        }
        assert forall|a: u64|
            a < 0x1_0000_0000_0000 && space::page_of(a) != at implies #[trigger] same_at(
            s,
            s3,
            dst,
            a,
        ) by {
            assert(same_at(s2, s3, dst, a));
            assert forall|v: u8| image::holds(s, dst, a, v) implies #[trigger] image::holds(
                s3,
                dst,
                a,
                v,
            ) by {
                let x = vspace::translated(s.ptes, dst, a)->0;
                assert(objects::at(s2.bytes, x) == objects::at(s.bytes, x));
                assert(!buddy::is_free(s2.mm.lists, x as int));
                assert(image::holds(s2, dst, a, v));
            }
        }
        more
    }
}

proof fn lemma_leaf_same(s: State, t: State, pl: Map<u64, nat>, table: u64, a: u64, level: nat)
    requires
        tables_ok(s, pl),
        untouched(s, t, pl),
        pl.contains_key(table),
        pl[table] == level,
    ensures
        walk::leaf_of(t.ptes, table, a, level) == walk::leaf_of(s.ptes, table, a, level),
    decreases level,
{
    let addr = vspace::entry_at(table, a, level);
    space::lemma_entry_page(table, a, level);
    let pte = objects::at(s.ptes, addr);
    assert(objects::at(t.ptes, addr) == pte);
    if level > 0 && pte & PTE_V != 0 && pte & PTE_RWX == 0 {
        assert(space::link(s, pl, addr));
        lemma_leaf_same(s, t, pl, vspace::entry_pa(pte), a, (level - 1) as nat);
    }
}

/// What copying from entry `i` of a table on gives the child.
pub open spec fn range_copied(
    s: State,
    t: State,
    table: u64,
    level: nat,
    lo: int,
    hi: int,
    dst: u64,
) -> bool {
    &&& forall|a: u64|
        lo <= a < hi ==> (#[trigger] walk::leaf_of(s.ptes, table, a, level) matches Some(pte) ==> (
        is_user_leaf(pte) && !buddy::is_free(s.mm.lists, place(pte, a) as int) ==> reads_own(
            s,
            t,
            dst,
            a,
            pte,
        )))
    &&& forall|a: u64|
        a < 0x1_0000_0000_0000 && !(lo <= a < hi) ==> #[trigger] same_at(s, t, dst, a)
}

/// Two steps of copying, one range after the other.
proof fn lemma_ranges(
    s: State,
    t: State,
    u: State,
    pl: Map<u64, nat>,
    table: u64,
    level: nat,
    lo: int,
    mid: int,
    hi: int,
    dst: u64,
)
    requires
        0 <= lo <= mid <= hi <= 0x80_0000_0000,
        tables_ok(s, pl),
        pl.contains_key(table),
        pl[table] == level,
        untouched(s, t, pl),
        untouched(t, u, pl),
        range_copied(s, t, table, level, lo, mid, dst),
        range_copied(t, u, table, level, mid, hi, dst),
    ensures
        range_copied(s, u, table, level, lo, hi, dst),
        untouched(s, u, pl),
{
    assert forall|x: u64| !buddy::is_free(s.mm.lists, x as int) implies #[trigger] objects::at(
        u.bytes,
        x,
    ) == objects::at(s.bytes, x) by {
        assert(!buddy::is_free(t.mm.lists, x as int));
        assert(objects::at(t.bytes, x) == objects::at(s.bytes, x));
    }
    assert forall|x: u64| pl.contains_key(space::page_of(x)) implies #[trigger] objects::at(
        u.ptes,
        x,
    ) == objects::at(s.ptes, x) by {
        assert(objects::at(t.ptes, x) == objects::at(s.ptes, x));
    }
    assert forall|a: u64| lo <= a < hi implies (#[trigger] walk::leaf_of(
        s.ptes,
        table,
        a,
        level,
    ) matches Some(pte) ==> (is_user_leaf(pte) && !buddy::is_free(
        s.mm.lists,
        place(pte, a) as int,
    ) ==> reads_own(s, u, dst, a, pte))) by {
        lemma_leaf_same(s, t, pl, table, a, level);
        if let Some(pte) = walk::leaf_of(s.ptes, table, a, level) {
            if is_user_leaf(pte) && !buddy::is_free(s.mm.lists, place(pte, a) as int) {
                let v = objects::at(s.bytes, place(pte, a));
                if a < mid {
                    assert(reads_own(s, t, dst, a, pte));
                    assert(same_at(t, u, dst, a));
                } else {
                    assert(walk::leaf_of(t.ptes, table, a, level) == Some(pte));
                    assert(!buddy::is_free(t.mm.lists, place(pte, a) as int));
                    assert(objects::at(t.bytes, place(pte, a)) == v);
                    assert(reads_own(t, u, dst, a, pte));
                }
            }
        }
    }
    assert forall|a: u64| a < 0x1_0000_0000_0000 && !(lo <= a < hi) implies #[trigger] same_at(
        s,
        u,
        dst,
        a,
    ) by {
        assert(same_at(s, t, dst, a));
        assert(same_at(t, u, dst, a));
        assert forall|v: u8| image::holds(s, dst, a, v) implies #[trigger] image::holds(
            u,
            dst,
            a,
            v,
        ) by {
            assert(image::holds(t, dst, a, v));
        }
    }
}

/// The entry of a table that an address takes.
proof fn lemma_index(a: u64, level: nat, va: int, i: int)
    requires
        level <= 2,
        0 <= i < 512,
        0 <= va,
        va % (512 * fork::span(level)) == 0,
        va + i * fork::span(level) <= a < va + (i + 1) * fork::span(level),
    ensures
        vspace::vpn(a, level) == i,
{
    lemma_bits(a, 0, 0);
    let w = fork::span(level) as int;
    let q = va / (512 * w);
    assert(va == q * (512 * w)) by {
        vstd::arithmetic::div_mod::lemma_fundamental_div_mod(va, 512 * w);
        assert((512 * w) * q == q * (512 * w)) by (nonlinear_arith);
    }
    assert(a as int / w == q * 512 + i) by (nonlinear_arith)
        requires
            w > 0,
            va == q * (512 * w),
            va + i * w <= a < va + (i + 1) * w,
    ;
    assert((q * 512 + i) % 512 == i) by (nonlinear_arith)
        requires
            0 <= i < 512,
    ;
}

/// Copying what a table maps from entry `i` on.
#[verifier::rlimit(60)]
proof fn lemma_table(
    s: State,
    levels: Map<u64, nat>,
    dst: u64,
    pl: Map<u64, nat>,
    table: u64,
    level: nat,
    va: u64,
    i: nat,
) -> (more: Map<u64, nat>)
    requires
        buddy::lists_ok(s.mm.lists),
        own_space(s, levels, dst, pl),
        tables_ok(s, pl),
        pl.contains_key(table),
        pl[table] == level,
        level <= 2,
        i <= 512,
        va as int % (512 * fork::span(level)) == 0,
        va + 512 * fork::span(level) <= 0x80_0000_0000,
        fork::table_copied(s, table, level, va, i, dst).1,
    ensures
        ({
            let s1 = fork::table_copied(s, table, level, va, i, dst).0;
            &&& own_space(s1, more, dst, pl)
            &&& tables_ok(s1, pl)
            &&& untouched(s, s1, pl)
            &&& range_copied(
                s,
                s1,
                table,
                level,
                va + i * fork::span(level),
                va + 512 * fork::span(level),
                dst,
            )
        }),
    decreases level, 512 - i,
{
    let w = fork::span(level);
    if i >= 512 {
        levels
    } else {
        let addr = table.wrapping_add((i * 8) as u64);
        let pte = objects::at(s.ptes, addr);
        assert(0 <= i * w && i * w + w <= 512 * w) by (nonlinear_arith)
            requires
                0 <= i < 512,
                w > 0,
        ;
        let at = va.wrapping_add((i as u64).wrapping_mul(w));
        assert(at == va + i * w);
        assert((i + 1) * w == i * w + w) by (nonlinear_arith);
        let lo = va + i * w;
        let mid = va + (i + 1) * w;
        let hi = va + 512 * w;
        assert forall|a: u64| lo <= a < mid implies #[trigger] vspace::entry_at(table, a, level)
            == addr by {
            lemma_index(a, level, va as int, i as int);
        }
        space::lemma_entry_page(table, at, level);
        assert(vspace::entry_at(table, at, level) == addr);
        let (s1, ok) = if level == 0 {
            fork::page_copied(s, pte, at, dst)
        } else if pte & PTE_V == 0 || pte & PTE_RWX != 0 {
            (s, true)
        } else {
            fork::table_copied(s, vspace::entry_pa(pte), (level - 1) as nat, at, 0, dst)
        };
        assert(ok);
        let wider = if level == 0 {
            assert(at % 4096 == 0) by {
                lemma_aligned(va as int, w as int, i as int);
            }
            let m = lemma_page(s, levels, dst, pl, pte, at);
            assert(range_copied(s, s1, table, level, lo, mid, dst)) by {
                assert forall|a: u64| lo <= a < mid implies (#[trigger] walk::leaf_of(
                    s.ptes,
                    table,
                    a,
                    level,
                ) matches Some(p) ==> (is_user_leaf(p) && !buddy::is_free(
                    s.mm.lists,
                    place(p, a) as int,
                ) ==> reads_own(s, s1, dst, a, p))) by {
                    assert(vspace::entry_at(table, a, level) == addr);
                }
                assert forall|a: u64|
                    a < 0x1_0000_0000_0000 && !(lo <= a < mid) implies #[trigger] same_at(
                    s,
                    s1,
                    dst,
                    a,
                ) by {
                    assert(space::page_of(a) != at);
                }
            }
            m
        } else if pte & PTE_V == 0 || pte & PTE_RWX != 0 {
            assert(range_copied(s, s1, table, level, lo, mid, dst)) by {
                assert forall|a: u64| lo <= a < mid implies (#[trigger] walk::leaf_of(
                    s.ptes,
                    table,
                    a,
                    level,
                )) is None by {
                    assert(vspace::entry_at(table, a, level) == addr);
                }
            }
            levels
        } else {
            assert(space::link(s, pl, addr));
            let next = vspace::entry_pa(pte);
            let below = (level - 1) as nat;
            assert(512 * fork::span(below) == w);
            assert(at as int % (w as int) == 0) by {
                lemma_aligned(va as int, w as int, i as int);
            }
            let m = lemma_table(s, levels, dst, pl, next, below, at, 0);
            assert(range_copied(s, s1, table, level, lo, mid, dst)) by {
                assert(range_copied(s, s1, next, below, lo, mid, dst));
                assert forall|a: u64| lo <= a < mid implies (#[trigger] walk::leaf_of(
                    s.ptes,
                    table,
                    a,
                    level,
                ) matches Some(p) ==> (is_user_leaf(p) && !buddy::is_free(
                    s.mm.lists,
                    place(p, a) as int,
                ) ==> reads_own(s, s1, dst, a, p))) by {
                    assert(vspace::entry_at(table, a, level) == addr);
                    assert(walk::leaf_of(s.ptes, table, a, level) == walk::leaf_of(s.ptes, next, a, below));
                }
            }
            m
        };
        let more = lemma_table(s1, wider, dst, pl, table, level, va, i + 1);
        let s2 = fork::table_copied(s1, table, level, va, i + 1, dst).0;
        assert(s2 == fork::table_copied(s, table, level, va, i, dst).0);
        lemma_ranges(s, s1, s2, pl, table, level, lo, mid, hi, dst);
        more
    }
}

proof fn lemma_aligned(va: int, w: int, i: int)
    requires
        w > 0,
        0 <= va,
        va % (512 * w) == 0,
    ensures
        (va + i * w) % w == 0,
{
    let q = va / (512 * w);
    vstd::arithmetic::div_mod::lemma_fundamental_div_mod(va, 512 * w);
    assert(va + i * w == (512 * q + i) * w) by (nonlinear_arith)
        requires
            va == (512 * w) * q,
    ;
    vstd::arithmetic::div_mod::lemma_mod_multiples_basic(512 * q + i, w);
}

/// A leaf entry is what an address translates through.
proof fn lemma_leaf_translates(ptes: Map<u64, u64>, table: u64, a: u64, level: nat)
    ensures
        walk::leaf_of(ptes, table, a, level) matches Some(pte) ==> is_user_leaf(pte)
            ==> vspace::translated_from(ptes, table, a, level) == Some(place(pte, a)),
    decreases level,
{
    let pte = objects::at(ptes, vspace::entry_at(table, a, level));
    if level > 0 {
        lemma_leaf_translates(ptes, vspace::entry_pa(pte), a, (level - 1) as nat);
    } else {
        lemma_bits(a, pte, 0);
    }
}

/// Every address below 2^39 at which the parent reads `v` from a user page reads
/// `v` for the child too, once its pages are copied, and from memory that was
/// free before: neither sees what the other writes. It may do there what the
/// parent may. `levels` are the tables of the child's space, `pl` those of the
/// parent's lower half.
pub proof fn law_child_reads_the_same(
    s: State,
    src: u64,
    dst: u64,
    levels: Map<u64, nat>,
    pl: Map<u64, nat>,
    a: u64,
    v: u8,
)
    requires
        buddy::lists_ok(s.mm.lists),
        own_space(s, levels, dst, pl),
        tables_ok(s, pl),
        objects::at(s.ptes, src) & PTE_V != 0,
        objects::at(s.ptes, src) & PTE_RWX == 0,
        pl.contains_key(vspace::entry_pa(objects::at(s.ptes, src))),
        pl[vspace::entry_pa(objects::at(s.ptes, src))] == 2,
        a < 0x80_0000_0000,
        image::holds(s, src, a, v),
        walk::leaf_of(s.ptes, src, a, 3) matches Some(pte) && is_user_leaf(pte),
    ensures
        fork::user_pages_copied(s, src, dst) matches (s1, true) ==> {
            &&& image::holds(s1, dst, a, v)
            &&& vspace::translated(s1.ptes, dst, a) != vspace::translated(s.ptes, src, a)
            &&& walk::leaf_of(s1.ptes, dst, a, 3) matches Some(e)
            &&& e & 0x1e == walk::leaf_of(s.ptes, src, a, 3)->0 & 0x1e
        },
{
    let e = objects::at(s.ptes, src);
    let pud = vspace::entry_pa(e);
    lemma_bits(a, e, 0);
    assert(vspace::entry_at(src, a, 3) == src);
    let pte = walk::leaf_of(s.ptes, src, a, 3)->0;
    assert(walk::leaf_of(s.ptes, pud, a, 2) == Some(pte));
    lemma_leaf_translates(s.ptes, src, a, 3);
    assert(vspace::translated(s.ptes, src, a) == Some(place(pte, a)));
    if fork::user_pages_copied(s, src, dst).1 {
        let more = lemma_table(s, levels, dst, pl, pud, 2, 0, 0);
        let s1 = fork::table_copied(s, pud, 2, 0, 0, dst).0;
        assert(reads_own(s, s1, dst, a, pte));
    }
}

proof fn lemma_rebased_len(b: Seq<u8>, lo: u64, hi: u64, delta: u64)
    ensures
        fork::rebased(b, lo, hi, delta).len() == b.len(),
    decreases b.len(),
{
    if b.len() >= 8 {
        bytes::law_number_read_back(bytes::le64(b, 0).wrapping_add(delta));
        lemma_rebased_len(b.skip(8), lo, hi, delta);
    }
}

proof fn lemma_same_word(x: Seq<u8>, at: int, y: Seq<u8>, bt: int)
    requires
        0 <= at,
        at + 8 <= x.len(),
        0 <= bt,
        bt + 8 <= y.len(),
        x.subrange(at, at + 8) == y.subrange(bt, bt + 8),
    ensures
        bytes::le64(x, at) == bytes::le64(y, bt),
{
    bytes::lemma_le64_at(x, at);
    bytes::lemma_le64_at(y, bt);
}

/// The first word of a moved stack.
proof fn lemma_first_word(b: Seq<u8>, lo: u64, hi: u64, delta: u64)
    requires
        b.len() >= 8,
    ensures
        ({
            let w = bytes::le64(b, 0);
            bytes::le64(fork::rebased(b, lo, hi, delta), 0) == (if lo <= w < hi {
                w.wrapping_add(delta)
            } else {
                w
            })
        }),
{
    let w = bytes::le64(b, 0);
    let r = fork::rebased(b, lo, hi, delta);
    let moved = bytes::le_bytes(w.wrapping_add(delta) as nat, 8);
    bytes::law_number_read_back(w.wrapping_add(delta));
    lemma_rebased_len(b, lo, hi, delta);
    if lo <= w < hi {
        assert(r.subrange(0, 8) =~= moved.subrange(0, 8));
        lemma_same_word(r, 0, moved, 0);
    } else {
        assert(r.subrange(0, 8) =~= b.subrange(0, 8));
        lemma_same_word(r, 0, b, 0);
    }
}

/// Every word of a moved stack that pointed into the stack points to the same
/// place of its copy; every other word is the same.
#[verifier::rlimit(40)]
pub proof fn law_stack_words(b: Seq<u8>, lo: u64, hi: u64, delta: u64, i: int)
    requires
        0 <= i,
        8 * i + 8 <= b.len(),
    ensures
        fork::rebased(b, lo, hi, delta).len() == b.len(),
        ({
            let w = bytes::le64(b, 8 * i);
            bytes::le64(fork::rebased(b, lo, hi, delta), 8 * i) == (if lo <= w < hi {
                w.wrapping_add(delta)
            } else {
                w
            })
        }),
    decreases b.len(),
{
    lemma_rebased_len(b, lo, hi, delta);
    if i == 0 {
        lemma_first_word(b, lo, hi, delta);
    } else {
        let r = fork::rebased(b, lo, hi, delta);
        let rest = b.skip(8);
        let tail = fork::rebased(rest, lo, hi, delta);
        law_stack_words(rest, lo, hi, delta, i - 1);
        bytes::law_number_read_back(bytes::le64(b, 0).wrapping_add(delta));
        assert(r.subrange(8 * i, 8 * i + 8) =~= tail.subrange(8 * (i - 1), 8 * (i - 1) + 8));
        assert(b.subrange(8 * i, 8 * i + 8) =~= rest.subrange(8 * (i - 1), 8 * (i - 1) + 8));
        lemma_same_word(r, 8 * i, tail, 8 * (i - 1));
        lemma_same_word(b, 8 * i, rest, 8 * (i - 1));
    }
}

/// A child starts on a copy of its parent's stack: its stack pointer is as far
/// into its stack as the parent's is into the parent's, and word by word the
/// copy holds what the parent's stack held, with pointers into the stack moved.
pub proof fn law_child_stack(s: State, cur: u64, child: u64, f: TrapFrame, i: int)
    requires
        cells::cells_ok(s.mm),
        child != cur,
        occupancy::in_use(s.mm, cur),
        occupancy::in_use(s.mm, child),
        kernel::tcb(s, cur).kstack_pa + USER_MIRROR_OFFSET + KSTACK_SIZE <= u64::MAX,
        kernel::tcb(s, child).kstack_pa + KSTACK_SIZE <= u64::MAX,
        forall|a: u64|
            kernel::tcb(s, cur).kstack_pa <= a < kernel::tcb(s, cur).kstack_pa + KSTACK_SIZE
                ==> #[trigger] occupancy::in_use(s.mm, a),
        0 <= i < KSTACK_SIZE / 8,
    ensures
        ({
            let s1 = fork::child_started(s, cur, child, f).0;
            let from = kernel::tcb(s, cur).kstack_pa;
            let to = kernel::tcb(s, child).kstack_pa;
            let lo = from + USER_MIRROR_OFFSET;
            let w = bytes::le64(kernel::loaded(s.bytes, from, KSTACK_SIZE as nat), 8 * i);
            let v = bytes::le64(kernel::loaded(s1.bytes, to, KSTACK_SIZE as nat), 8 * i);
            let c = kernel::tcb(s1, child);
            &&& c.frame.x[2].wrapping_sub(to) == f.x[2].wrapping_sub(from)
            &&& lo <= w < lo + KSTACK_SIZE ==> v.wrapping_sub(to) == w.wrapping_sub(from)
            &&& !(lo <= w < lo + KSTACK_SIZE) ==> v == w
        }),
{
    let c = kernel::tcb(s, child);
    let from = kernel::tcb(s, cur).kstack_pa;
    let to = c.kstack_pa;
    let s1 = kernel::with_tcb(s, child, fork::inherited(c, kernel::tcb(s, cur)));
    let s2 = fork::fd_table_copied(s1, cur, child);
    let n = KSTACK_SIZE as nat;
    let data = kernel::loaded(s2.bytes, from, n);
    assert(data =~= kernel::loaded(s.bytes, from, n)) by {
        assert forall|j: int| 0 <= j < n implies data[j] == kernel::loaded(s.bytes, from, n)[j] by {
            let a = from.wrapping_add(j as u64);
            assert(occupancy::in_use(s.mm, a));
            occupancy::lemma_page_made_keeps(s1, a);
        }
    }
    occupancy::lemma_page_made_keeps(s1, child);
    let lo = (from + USER_MIRROR_OFFSET) as u64;
    let hi = (lo + KSTACK_SIZE) as u64;
    let moved = fork::rebased(data, lo, hi, to.wrapping_sub(from));
    law_stack_words(data, lo, hi, to.wrapping_sub(from), i);
    let s3 = fork::stack_copied(s2, from, to);
    assert(kernel::loaded(s3.bytes, to, n) =~= moved) by {
        assert forall|j: int| 0 <= j < n implies kernel::loaded(s3.bytes, to, n)[j] == moved[j] by {
            kernel::lemma_stored(s2.bytes, to, moved, (to + j) as u64);
        }
    }
}

} // verus!
