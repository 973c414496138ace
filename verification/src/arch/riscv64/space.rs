//! Address spaces as trees of tables: every table has its level and one entry
//! that leads to it.
use crate::arch::riscv64::mmu::{self, BootPaging, PTE_R, PTE_U, PTE_V, PTE_W, PTE_X};
use crate::arch::riscv64::vspace::{self, PTE_RWX};
use crate::arch::riscv64::walk;
use crate::boot;
use crate::kernel::{self, State};
use crate::mm::buddy;
use crate::objects;
use vstd::prelude::*;

verus! {

/// The page that `a` lies in.
pub open spec fn page_of(a: u64) -> u64 {
    (a - a % 4096) as u64
}

/// The entry at `a`, in a table above the last level, leads to another table.
/// `levels` gives the tables and their levels.
pub open spec fn link(s: State, levels: Map<u64, nat>, a: u64) -> bool {
    &&& levels.contains_key(page_of(a))
    &&& levels[page_of(a)] > 0
    &&& objects::at(s.ptes, a) & PTE_V != 0
    &&& objects::at(s.ptes, a) & PTE_RWX == 0
}

/// The tables of `levels` are pages in use, entries lead to tables one level
/// down, and no two entries lead to one table.
pub open spec fn space_ok(s: State, levels: Map<u64, nat>) -> bool {
    &&& forall|t: u64| #[trigger]
        levels.contains_key(t) ==> t % 4096 == 0 && kernel::page_in_use(s, t)
    &&& forall|a: u64| #[trigger]
        link(s, levels, a) ==> {
            let next = vspace::entry_pa(objects::at(s.ptes, a));
            levels.contains_key(next) && levels[next] + 1 == levels[page_of(a)]
        }
    &&& forall|a: u64, b: u64|
        #![trigger link(s, levels, a), link(s, levels, b)]
        link(s, levels, a) && link(s, levels, b) && vspace::entry_pa(objects::at(s.ptes, a))
            == vspace::entry_pa(objects::at(s.ptes, b)) ==> a == b
}

/// The address of an entry lies in its table.
pub(crate) proof fn lemma_entry_page(table: u64, va: u64, level: nat)
    requires
        table % 4096 == 0,
    ensures
        page_of(vspace::entry_at(table, va, level)) == table,
        table <= vspace::entry_at(table, va, level) < table + 4096,
{
    walk::lemma_entry_at(table, va, level);
}

/// Entries of one table for two addresses are one entry only where the indices
/// agree.
proof fn lemma_entry_index(table: u64, va: u64, va2: u64, level: nat)
    requires
        table % 4096 == 0,
        vspace::entry_at(table, va, level) == vspace::entry_at(table, va2, level),
    ensures
        vspace::vpn(va, level) == vspace::vpn(va2, level),
{
    walk::lemma_entry_at(table, va, level);
    walk::lemma_entry_at(table, va2, level);
}

/// Walks in a sound space are sound, and go down level by level.
pub(crate) proof fn lemma_space_walk(
    s: State,
    levels: Map<u64, nat>,
    table: u64,
    va: u64,
    level: nat,
)
    requires
        space_ok(s, levels),
        levels.contains_key(table),
        levels[table] == level,
    ensures
        walk::walk_ok(s, table, va, level),
        ({
            let w = walk::tables(s.ptes, table, va, level);
            &&& 0 < w.len() <= level + 1
            &&& forall|i: int|
                0 <= i < w.len() ==> levels.contains_key(#[trigger] w[i]) && levels[w[i]] == level
                    - i
        }),
    decreases level,
{
    let addr = vspace::entry_at(table, va, level);
    let entry = objects::at(s.ptes, addr);
    let w = walk::tables(s.ptes, table, va, level);
    lemma_entry_page(table, va, level);
    if level > 0 && entry & PTE_V != 0 && entry & PTE_RWX == 0 {
        assert(link(s, levels, addr));
        let next = vspace::entry_pa(entry);
        lemma_space_walk(s, levels, next, va, (level - 1) as nat);
        let r = walk::tables(s.ptes, next, va, (level - 1) as nat);
        assert(w == seq![table] + r);
        assert forall|i: int| 0 <= i < w.len() implies levels.contains_key(#[trigger] w[i])
            && levels[w[i]] == level - i by {
            if i > 0 {
                assert(w[i] == r[i - 1]);
            }
        }
    } else {
        assert(w == seq![table]);
    }
    assert forall|i: int| 0 <= i < w.len() implies #[trigger] w[i] % 4096 == 0
        && kernel::page_in_use(s, w[i]) by {
        assert(levels.contains_key(w[i]));
    }
    assert forall|i: int, j: int| 0 <= i < w.len() && 0 <= j < w.len() && i != j implies w[i]
        != w[j] by {
        assert(levels[w[i]] == level - i && levels[w[j]] == level - j);
    }
}

/// Walks from two tables of one level never meet.
proof fn lemma_walks_apart(
    s: State,
    levels: Map<u64, nat>,
    x: u64,
    y: u64,
    va: u64,
    va2: u64,
    level: nat,
    k: int,
)
    requires
        space_ok(s, levels),
        levels.contains_key(x),
        levels.contains_key(y),
        levels[x] == level,
        levels[y] == level,
        x != y,
        0 <= k < walk::tables(s.ptes, x, va, level).len(),
        k < walk::tables(s.ptes, y, va2, level).len(),
    ensures
        walk::tables(s.ptes, x, va, level)[k] != walk::tables(s.ptes, y, va2, level)[k],
    decreases level,
{
    if k > 0 {
        let a = vspace::entry_at(x, va, level);
        let b = vspace::entry_at(y, va2, level);
        lemma_entry_page(x, va, level);
        lemma_entry_page(y, va2, level);
        assert(link(s, levels, a));
        assert(link(s, levels, b));
        let nx = vspace::entry_pa(objects::at(s.ptes, a));
        let ny = vspace::entry_pa(objects::at(s.ptes, b));
        lemma_walks_apart(s, levels, nx, ny, va, va2, (level - 1) as nat, k - 1);
        let r = walk::tables(s.ptes, nx, va, (level - 1) as nat);
        let r2 = walk::tables(s.ptes, ny, va2, (level - 1) as nat);
        assert(walk::tables(s.ptes, x, va, level) == seq![x] + r);
        assert(walk::tables(s.ptes, y, va2, level) == seq![y] + r2);
    }
}

/// Where two walks share a table, they came to it by the same entries.
proof fn lemma_shared_table(
    s: State,
    levels: Map<u64, nat>,
    table: u64,
    va: u64,
    va2: u64,
    level: nat,
    i: int,
)
    requires
        space_ok(s, levels),
        levels.contains_key(table),
        levels[table] == level,
        0 <= i < walk::tables(s.ptes, table, va, level).len(),
        i < walk::tables(s.ptes, table, va2, level).len(),
        walk::tables(s.ptes, table, va, level)[i] == walk::tables(s.ptes, table, va2, level)[i],
    ensures
        walk::same_entries(va, va2, level, i),
    decreases level,
{
    if i > 0 {
        let a = vspace::entry_at(table, va, level);
        let b = vspace::entry_at(table, va2, level);
        lemma_entry_page(table, va, level);
        lemma_entry_page(table, va2, level);
        assert(link(s, levels, a));
        assert(link(s, levels, b));
        let low = (level - 1) as nat;
        let x = vspace::entry_pa(objects::at(s.ptes, a));
        let y = vspace::entry_pa(objects::at(s.ptes, b));
        let r = walk::tables(s.ptes, x, va, low);
        let r2 = walk::tables(s.ptes, y, va2, low);
        assert(walk::tables(s.ptes, table, va, level) == seq![table] + r);
        assert(walk::tables(s.ptes, table, va2, level) == seq![table] + r2);
        if x != y {
            lemma_walks_apart(s, levels, x, y, va, va2, low, i - 1);
        }
        assert(a == b);
        lemma_entry_index(table, va, va2, level);
        lemma_shared_table(s, levels, x, va, va2, low, i - 1);
        assert forall|k: int| 0 <= k < i && k <= level implies #[trigger] vspace::vpn(
            va,
            (level - k) as nat,
        ) == vspace::vpn(va2, (level - k) as nat) by {
            if k > 0 {
                assert(vspace::vpn(va, (low - (k - 1)) as nat) == vspace::vpn(
                    va2,
                    (low - (k - 1)) as nat,
                ));
            }
        }
    }
}

/// Two walks in a sound space share tables only as long as they take the same
/// entries.
pub(crate) proof fn lemma_space_branch(
    s: State,
    levels: Map<u64, nat>,
    table: u64,
    va: u64,
    va2: u64,
    level: nat,
)
    requires
        space_ok(s, levels),
        levels.contains_key(table),
        levels[table] == level,
    ensures
        walk::walks_branch(s, table, va, va2, level),
{
    let w = walk::tables(s.ptes, table, va, level);
    let w2 = walk::tables(s.ptes, table, va2, level);
    lemma_space_walk(s, levels, table, va, level);
    lemma_space_walk(s, levels, table, va2, level);
    assert forall|i: int, j: int|
        #![trigger w[i], w2[j]]
        0 <= i < w.len() && 0 <= j < w2.len() && w[i] == w2[j] implies i == j
        && walk::same_entries(va, va2, level, i) by {
        assert(levels[w[i]] == level - i && levels[w2[j]] == level - j);
        lemma_shared_table(s, levels, table, va, va2, level, i);
    }
}

/// Taking a fresh page changes no table.
pub(crate) proof fn lemma_space_page(s: State, levels: Map<u64, nat>)
    requires
        buddy::lists_ok(s.mm.lists),
        space_ok(s, levels),
    ensures
        kernel::page_made(s) matches (s1, Some(new)) ==> {
            &&& space_ok(s1, levels)
            &&& !levels.contains_key(new)
            &&& forall|t: u64, a: u64|
                #![trigger levels.contains_key(t), objects::at(s1.ptes, a)]
                levels.contains_key(t) && t <= a < t + 4096 ==> objects::at(s1.ptes, a)
                    == objects::at(s.ptes, a)
        },
{
    kernel::lemma_page_made(s);
    walk::lemma_fresh_table(s);
    let (s1, page) = kernel::page_made(s);
    if let Some(new) = page {
        assert(buddy::is_free(s.mm.lists, new as int));
        assert forall|t: u64| #[trigger] levels.contains_key(t) implies t % 4096 == 0
            && kernel::page_in_use(s1, t) by {
            assert(kernel::page_in_use(s, t));
        }
        assert forall|t: u64, a: u64|
            #![trigger levels.contains_key(t), objects::at(s1.ptes, a)]
            levels.contains_key(t) && t <= a < t + 4096 implies objects::at(s1.ptes, a)
            == objects::at(s.ptes, a) by {
            assert(!buddy::is_free(s.mm.lists, a as int));
        }
        assert forall|a: u64| #[trigger] link(s1, levels, a) implies link(s, levels, a)
            && objects::at(s1.ptes, a) == objects::at(s.ptes, a) by {
            assert(levels.contains_key(page_of(a)));
        }
    }
}

/// Mapping a page keeps the space sound; what it adds are tables in memory that
/// was free.
pub(crate) proof fn lemma_space_mapped(
    s: State,
    levels: Map<u64, nat>,
    table: u64,
    va: u64,
    pa: u64,
    flags: u64,
    level: nat,
) -> (more: Map<u64, nat>)
    requires
        buddy::lists_ok(s.mm.lists),
        space_ok(s, levels),
        levels.contains_key(table),
        levels[table] == level,
    ensures
        ({
            let s1 = vspace::mapped_from(s, table, va, pa, flags, level).0;
            &&& buddy::lists_ok(s1.mm.lists)
            &&& space_ok(s1, more)
            &&& forall|t: u64| #[trigger]
                levels.contains_key(t) ==> more.contains_key(t) && more[t] == levels[t]
            &&& forall|t: u64| #[trigger]
                more.contains_key(t) && !levels.contains_key(t) ==> buddy::is_free(
                    s.mm.lists,
                    t as int,
                )
            &&& forall|x: u64|
                !buddy::is_free(s.mm.lists, x as int) && !levels.contains_key(page_of(x))
                    ==> #[trigger] objects::at(s1.ptes, x) == objects::at(s.ptes, x)
            &&& forall|x: int| #[trigger]
                buddy::is_free(s1.mm.lists, x) ==> buddy::is_free(s.mm.lists, x)
        }),
    decreases level,
{
    let addr = vspace::entry_at(table, va, level);
    let entry = objects::at(s.ptes, addr);
    let s1 = vspace::mapped_from(s, table, va, pa, flags, level).0;
    lemma_entry_page(table, va, level);
    if level == 0 {
        assert forall|a: u64| #[trigger] link(s1, levels, a) implies link(s, levels, a)
            && objects::at(s1.ptes, a) == objects::at(s.ptes, a) by {}
        assert forall|t: u64| #[trigger] levels.contains_key(t) implies t % 4096 == 0
            && kernel::page_in_use(s1, t) by {
            assert(kernel::page_in_use(s, t));
        }
        levels
    } else if entry & PTE_V == 0 {
        kernel::lemma_page_made(s);
        lemma_space_page(s, levels);
        walk::lemma_fresh_table(s);
        let (t1, page) = kernel::page_made(s);
        if let Some(new) = page {
            walk::lemma_table_entry(new);
            let t2 = vspace::with_pte(t1, addr, mmu::table_entry(new));
            let wider = levels.insert(new, (level - 1) as nat);
            assert(new != table);
            assert forall|t: u64| #[trigger] wider.contains_key(t) implies t % 4096 == 0
                && kernel::page_in_use(t2, t) by {
                if t != new {
                    assert(levels.contains_key(t));
                    assert(kernel::page_in_use(t1, t));
                } else {
                    assert(kernel::page_in_use(t1, new));
                }
            }
            assert forall|a: u64| #[trigger] link(t2, wider, a) && a != addr implies link(
                s,
                levels,
                a,
            ) && objects::at(t2.ptes, a) == objects::at(s.ptes, a) by {
                if page_of(a) == new {
                    assert(objects::at(t1.ptes, a) == 0);
                    walk::lemma_flag_bits();
                } else {
                    assert(levels.contains_key(page_of(a)));
                    assert(objects::at(t1.ptes, a) == objects::at(s.ptes, a));
                }
            }
            let more = lemma_space_mapped(t2, wider, new, va, pa, flags, (level - 1) as nat);
            assert forall|t: u64| #[trigger] levels.contains_key(t) implies more.contains_key(t)
                && more[t] == levels[t] by {
                assert(wider.contains_key(t) && wider[t] == levels[t]);
            }
            assert forall|t: u64| #[trigger]
                more.contains_key(t) && !levels.contains_key(t) implies buddy::is_free(
                s.mm.lists,
                t as int,
            ) by {
                if !wider.contains_key(t) {
                    assert(buddy::is_free(t2.mm.lists, t as int));
                }
            }
            assert forall|x: u64|
                !buddy::is_free(s.mm.lists, x as int) && !levels.contains_key(
                    page_of(x),
                ) implies #[trigger] objects::at(s1.ptes, x) == objects::at(s.ptes, x) by {
                assert(!buddy::is_free(t2.mm.lists, x as int));
                assert(!(new <= x < new + 4096));
                assert(page_of(x) != new);
                assert(!wider.contains_key(page_of(x)));
                assert(x != addr);
                assert(objects::at(t1.ptes, x) == objects::at(s.ptes, x));
            }
            more
        } else {
            levels
        }
    } else if entry & PTE_RWX == 0 {
        assert(link(s, levels, addr));
        lemma_space_mapped(s, levels, vspace::entry_pa(entry), va, pa, flags, (level - 1) as nat)
    } else {
        levels
    }
}

/// Mapping goes by the page only.
pub(crate) proof fn lemma_mapped_page(
    s: State,
    table: u64,
    va: u64,
    va2: u64,
    pa: u64,
    flags: u64,
    level: nat,
)
    requires
        level <= 3,
        forall|l: nat| l <= 3 ==> #[trigger] vspace::vpn(va, l) == vspace::vpn(va2, l),
    ensures
        vspace::mapped_from(s, table, va, pa, flags, level) == vspace::mapped_from(
            s,
            table,
            va2,
            pa,
            flags,
            level,
        ),
    decreases level,
{
    let addr = vspace::entry_at(table, va, level);
    assert(vspace::vpn(va, level) == vspace::vpn(va2, level));
    let entry = objects::at(s.ptes, addr);
    if level > 0 && entry & PTE_V == 0 {
        let (s1, page) = kernel::page_made(s);
        if let Some(new) = page {
            let s2 = vspace::with_pte(s1, addr, mmu::table_entry(new));
            lemma_mapped_page(s2, new, va, va2, pa, flags, (level - 1) as nat);
        }
    } else if level > 0 && entry & PTE_RWX == 0 {
        lemma_mapped_page(s, vspace::entry_pa(entry), va, va2, pa, flags, (level - 1) as nat);
    }
}

/// Addresses below 2^48 take the same entries exactly where they share a page.
pub(crate) proof fn lemma_page_entries(va: u64, va2: u64)
    requires
        va < 0x1_0000_0000_0000,
        va2 < 0x1_0000_0000_0000,
    ensures
        page_of(va) == page_of(va2) <==> walk::same_entries(va, va2, 3, 4),
        page_of(va) == page_of(va2) ==> forall|l: nat|
            l <= 3 ==> #[trigger] vspace::vpn(va, l) == vspace::vpn(va2, l),
{
    let p = page_of(va);
    let q = page_of(va2);
    assert(p == q <==> ((va >> 12u64) & 0x1ff == (va2 >> 12u64) & 0x1ff && (va >> 21u64) & 0x1ff
        == (va2 >> 21u64) & 0x1ff && (va >> 30u64) & 0x1ff == (va2 >> 30u64) & 0x1ff && (va
        >> 39u64) & 0x1ff == (va2 >> 39u64) & 0x1ff)) by (bit_vector)
        requires
            p == va - va % 4096,
            q == va2 - va2 % 4096,
            va < 0x1_0000_0000_0000,
            va2 < 0x1_0000_0000_0000,
    ;
    if walk::same_entries(va, va2, 3, 4) {
        assert(vspace::vpn(va, (3 - 0) as nat) == vspace::vpn(va2, (3 - 0) as nat));
        assert(vspace::vpn(va, (3 - 1) as nat) == vspace::vpn(va2, (3 - 1) as nat));
        assert(vspace::vpn(va, (3 - 2) as nat) == vspace::vpn(va2, (3 - 2) as nat));
        assert(vspace::vpn(va, (3 - 3) as nat) == vspace::vpn(va2, (3 - 3) as nat));
    }
}

/// There are tables that make up a sound address space rooted at `pgd`.
pub open spec fn has_space(s: State, pgd: u64) -> bool {
    exists|levels: Map<u64, nat>| #[trigger]
        space_ok(s, levels) && levels.contains_key(pgd) && levels[pgd] == 3
}

/// Mapping a page keeps the address space sound. Addresses in the page translate
/// to it, and every other address translates as before.
pub proof fn law_mapping_keeps_space(s: State, pgd: u64, va: u64, pa: u64, flags: u64, a: u64)
    requires
        buddy::lists_ok(s.mm.lists),
        has_space(s, pgd),
        va < 0x1_0000_0000_0000,
        a < 0x1_0000_0000_0000,
        pa % 4096 == 0,
        pa < 0x100_0000_0000_0000,
        flags < 1024,
        flags & PTE_RWX != 0,
    ensures
        ({
            let (s1, ok) = vspace::mapped(s, pgd, va, pa, flags);
            &&& has_space(s1, pgd)
            &&& ok && page_of(a) == page_of(va) ==> vspace::translated(s1.ptes, pgd, a) == Some(
                pa | (a & 0xfff),
            )
            &&& page_of(a) != page_of(va) ==> vspace::translated(s1.ptes, pgd, a)
                == vspace::translated(s.ptes, pgd, a)
        }),
{
    let levels = choose|levels: Map<u64, nat>| #[trigger]
        space_ok(s, levels) && levels.contains_key(pgd) && levels[pgd] == 3;
    let more = lemma_space_mapped(s, levels, pgd, va, pa, flags, 3);
    assert(space_ok(vspace::mapped(s, pgd, va, pa, flags).0, more));
    lemma_page_entries(va, a);
    lemma_space_walk(s, levels, pgd, a, 3);
    lemma_space_walk(s, levels, pgd, va, 3);
    lemma_space_branch(s, levels, pgd, va, a, 3);
    if page_of(a) == page_of(va) {
        lemma_mapped_page(s, pgd, va, a, pa, flags, 3);
        walk::law_mapped_page_found(s, pgd, a, pa, flags);
    } else {
        walk::law_mapping_is_local(s, pgd, va, a, pa, flags);
    }
}

/// The shared entry for the user mirror leads to no table, or to one in use that
/// maps superpages only.
pub open spec fn mirror_ok(s: State) -> bool {
    let m = vspace::entry_pa(s.boot_user_pte);
    s.boot_user_pte & PTE_V != 0 && s.boot_user_pte & PTE_RWX == 0 ==> {
        &&& m % 4096 == 0
        &&& kernel::page_in_use(s, m)
        &&& forall|a: u64|
            m <= a < m + 4096 ==> (#[trigger] objects::at(s.ptes, a)) & PTE_V == 0 || objects::at(
                s.ptes,
                a,
            ) & PTE_RWX != 0
    }
}

/// The mirror that the boot mapping lays out is one that address spaces can
/// share.
pub proof fn law_boot_mirror_sound(s: State, p: BootPaging, pgd: u64, low: u64, user: u64)
    requires
        p.entries@ == mmu::boot_entries(pgd, low, user),
        pgd % 4096 == 0,
        low % 4096 == 0,
        user % 4096 == 0,
        user < 0x100_0000_0000_0000,
        pgd != user,
        low != user,
        kernel::page_in_use(s, user),
        forall|a: u64| user <= a < user + 4096 ==> #[trigger] objects::at(s.ptes, a) == 0,
    ensures
        mirror_ok(boot::paging_set(s, p, user)),
{
    let s1 = boot::paging_set(s, p, user);
    let leaf = mmu::boot_leaf(0x8000_0000, PTE_R | PTE_W | PTE_X | PTE_U);
    walk::lemma_table_entry(user);
    walk::lemma_flag_bits();
    assert(leaf & 0x0e != 0) by (bit_vector)
        requires
            leaf == (0x8000_0000u64 >> 12u64 << 10u64) | 1 | 0x40 | 0x80 | 0x20 | (2u64 | 4 | 8
                | 0x10),
    ;
    assert(kernel::page_in_use(s1, user)) by {
        assert(s1.mm == s.mm);
    }
    assert forall|a: u64| user <= a < user + 4096 implies (#[trigger] objects::at(s1.ptes, a))
        & PTE_V == 0 || objects::at(s1.ptes, a) & PTE_RWX != 0 by {
        if a != user + 16 {
            assert(objects::at(s.ptes, a) == 0);
            assert(objects::at(s1.ptes, a) == 0);
        }
    }
}

/// The tables of a new root: itself, the one for the low half, and that of the
/// mirror.
spec fn root_levels(s: State, pgd: u64, pud: u64) -> Map<u64, nat> {
    let two = Map::<u64, nat>::empty().insert(pgd, 3).insert(pud, 2);
    if s.boot_user_pte & PTE_V != 0 && s.boot_user_pte & PTE_RWX == 0 {
        two.insert(vspace::entry_pa(s.boot_user_pte), 2)
    } else {
        two
    }
}

/// A root whose low table holds superpages only is a sound address space.
proof fn lemma_root_space(s: State, low: u64, high: u64)
    requires
        buddy::lists_ok(s.mm.lists),
        mirror_ok(s),
        vspace::root_made(s).1 is Some,
        low & PTE_V == 0 || low & PTE_RWX != 0,
        high & PTE_V == 0 || high & PTE_RWX != 0,
    ensures
        ({
            let (s1, root) = vspace::root_made(s);
            let (pgd, pud) = root->0;
            let s2 = vspace::with_pte(s1, pud, low);
            let s3 = vspace::with_pte(s2, pud.wrapping_add(16), high);
            let s4 = vspace::with_pte(s3, pgd, mmu::table_entry(pud));
            let s5 = vspace::with_pte(s4, pgd.wrapping_add(8), s.boot_user_pte);
            let levels = root_levels(s, pgd, pud);
            &&& buddy::lists_ok(s5.mm.lists)
            &&& space_ok(s5, levels)
            &&& levels.contains_key(pgd)
            &&& levels[pgd] == 3
        }),
{
    let (s1, root) = vspace::root_made(s);
    let (pgd, pud) = root->0;
    kernel::lemma_page_made(s);
    let t1 = vspace::page_taken(s).0;
    kernel::lemma_page_made(t1);
    let s2 = vspace::with_pte(s1, pud, low);
    let s3 = vspace::with_pte(s2, pud.wrapping_add(16), high);
    let s4 = vspace::with_pte(s3, pgd, mmu::table_entry(pud));
    let s5 = vspace::with_pte(s4, pgd.wrapping_add(8), s.boot_user_pte);
    let levels = root_levels(s, pgd, pud);
    let m = vspace::entry_pa(s.boot_user_pte);
    assert(buddy::is_free(s.mm.lists, pgd as int));
    assert(buddy::is_free(t1.mm.lists, pud as int));
    assert(buddy::is_free(s.mm.lists, pud as int));
    assert(!buddy::is_free(t1.mm.lists, pgd as int));
    assert(pgd != pud);
    walk::lemma_table_entry(pud);
    walk::lemma_flag_bits();
    assert forall|t: u64| #[trigger] levels.contains_key(t) implies t % 4096 == 0
        && kernel::page_in_use(s5, t) by {
        assert forall|x: int| t <= x < t + 4096 implies !#[trigger] buddy::is_free(
            s5.mm.lists,
            x,
        ) by {
            if t == pgd {
                assert(!buddy::is_free(t1.mm.lists, x));
            } else if t != pud {
                assert(!buddy::is_free(s.mm.lists, x));
                assert(!buddy::is_free(t1.mm.lists, x));
            }
        }
    }
    assert(levels.contains_key(m) && m != pgd && m != pud ==> forall|a: u64|
        m <= a < m + 4096 ==> #[trigger] objects::at(s5.ptes, a) == objects::at(s.ptes, a)) by {
        if levels.contains_key(m) && m != pgd && m != pud {
            assert forall|a: u64| m <= a < m + 4096 implies #[trigger] objects::at(s5.ptes, a)
                == objects::at(s.ptes, a) by {
                assert(!buddy::is_free(s.mm.lists, a as int));
                assert(!(pgd <= a < pgd + 4096)) by {
                    assert(pgd <= a < pgd + 4096 ==> buddy::is_free(s.mm.lists, a as int));
                }
                assert(!(pud <= a < pud + 4096)) by {
                    assert(pud <= a < pud + 4096 ==> buddy::is_free(t1.mm.lists, a as int));
                }
            }
        }
    }
    assert forall|a: u64| #[trigger] link(s5, levels, a) implies (a == pgd && vspace::entry_pa(
        objects::at(s5.ptes, a),
    ) == pud) || (a == pgd + 8 && vspace::entry_pa(objects::at(s5.ptes, a)) == m
        && s.boot_user_pte & PTE_V != 0 && s.boot_user_pte & PTE_RWX == 0) by {
        let t = page_of(a);
        if t == pgd {
            if a != pgd && a != pgd + 8 {
                assert(objects::at(s5.ptes, a) == 0);
            }
        } else if t == pud {
            if a != pud && a != pud + 16 {
                assert(objects::at(s5.ptes, a) == 0);
            }
        } else {
            assert(t == m);
            assert(objects::at(s.ptes, a) & PTE_V == 0 || objects::at(s.ptes, a) & PTE_RWX != 0);
        }
    }
    if s.boot_user_pte & PTE_V != 0 && s.boot_user_pte & PTE_RWX == 0 {
        assert(!buddy::is_free(s.mm.lists, m as int));
    }
}

/// A new address space is sound, for a process and for an image.
pub proof fn law_new_space_sound(s: State)
    requires
        buddy::lists_ok(s.mm.lists),
        mirror_ok(s),
    ensures
        vspace::process_vspace_made(s) matches (s1, Some(pgd)) ==> has_space(s1, pgd),
        vspace::elf_vspace_made(s) matches (s1, Some(pgd)) ==> has_space(s1, pgd),
{
    if let Some((pgd, pud)) = vspace::root_made(s).1 {
        let s1 = vspace::root_made(s).0;
        walk::lemma_flag_bits();
        let all = vspace::leaf_entry(0x8000_0000, PTE_R | PTE_W | PTE_X);
        walk::lemma_leaf_entry(0x8000_0000, 14);
        walk::lemma_leaf_entry(0, 6);
        let levels = root_levels(s, pgd, pud);
        // A process: devices and memory as superpages.
        lemma_root_space(s, vspace::leaf_entry(0, PTE_R | PTE_W), all);
        let p = vspace::process_vspace_made(s).0;
        assert(space_ok(p, levels));
        // An image: memory as a superpage, and the interrupt controller's pages.
        lemma_root_space(s, 0, all);
        let e2 = vspace::with_pte(s1, pud.wrapping_add(16), all);
        let e3 = vspace::with_pte(e2, pgd, mmu::table_entry(pud));
        let e4 = vspace::with_pte(e3, pgd.wrapping_add(8), s.boot_user_pte);
        lemma_zero_entry(s, pgd, pud, all);
        let l5 = lemma_space_mapped(e4, levels, pgd, 0x0c00_0000, 0x0c00_0000, PTE_R | PTE_W, 3);
        let e5 = vspace::mapped(e4, pgd, 0x0c00_0000, 0x0c00_0000, PTE_R | PTE_W).0;
        let l6 = lemma_space_mapped(e5, l5, pgd, 0x0c00_2000, 0x0c00_2000, PTE_R | PTE_W, 3);
        let e6 = vspace::mapped(e5, pgd, 0x0c00_2000, 0x0c00_2000, PTE_R | PTE_W).0;
        let l7 = lemma_space_mapped(e6, l6, pgd, 0x0c20_1000, 0x0c20_1000, PTE_R | PTE_W, 3);
        let e7 = vspace::mapped(e6, pgd, 0x0c20_1000, 0x0c20_1000, PTE_R | PTE_W).0;
        assert(space_ok(e7, l7));
    }
}

/// An entry that is zero and one that was never written are alike.
proof fn lemma_zero_entry(s: State, pgd: u64, pud: u64, high: u64)
    requires
        buddy::lists_ok(s.mm.lists),
        mirror_ok(s),
        vspace::root_made(s).1 == Some((pgd, pud)),
        high & PTE_V == 0 || high & PTE_RWX != 0,
    ensures
        ({
            let s1 = vspace::root_made(s).0;
            let s2 = vspace::with_pte(s1, pud.wrapping_add(16), high);
            let s3 = vspace::with_pte(s2, pgd, mmu::table_entry(pud));
            let s4 = vspace::with_pte(s3, pgd.wrapping_add(8), s.boot_user_pte);
            space_ok(s4, root_levels(s, pgd, pud)) && buddy::lists_ok(s4.mm.lists)
        }),
{
    walk::lemma_flag_bits();
    lemma_root_space(s, 0, high);
    kernel::lemma_page_made(s);
    kernel::lemma_page_made(vspace::page_taken(s).0);
    let levels = root_levels(s, pgd, pud);
    let s1 = vspace::root_made(s).0;
    let z1 = vspace::with_pte(s1, pud, 0);
    let z2 = vspace::with_pte(z1, pud.wrapping_add(16), high);
    let z3 = vspace::with_pte(z2, pgd, mmu::table_entry(pud));
    let z = vspace::with_pte(z3, pgd.wrapping_add(8), s.boot_user_pte);
    let s2 = vspace::with_pte(s1, pud.wrapping_add(16), high);
    let s3 = vspace::with_pte(s2, pgd, mmu::table_entry(pud));
    let s4 = vspace::with_pte(s3, pgd.wrapping_add(8), s.boot_user_pte);
    assert(objects::at(s1.ptes, pud) == 0);
    assert forall|a: u64| #[trigger] objects::at(s4.ptes, a) == objects::at(z.ptes, a) by {}
    assert forall|a: u64| #[trigger] link(s4, levels, a) implies link(z, levels, a) by {
        assert(objects::at(s4.ptes, a) == objects::at(z.ptes, a));
    }
    assert forall|t: u64| #[trigger] levels.contains_key(t) implies t % 4096 == 0
        && kernel::page_in_use(s4, t) by {
        assert(kernel::page_in_use(z, t));
    }
}

} // verus!
