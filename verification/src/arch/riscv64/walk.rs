//! Page walks: the tables that a translation passes through, and what mapping a
//! page changes of it.
use crate::arch::riscv64::mmu::{self, PTE_R, PTE_V, PTE_W, PTE_X};
use crate::arch::riscv64::vspace::{self, PTE_RWX};
use crate::kernel::{self, State};
use crate::mm::buddy;
use crate::objects;
use vstd::prelude::*;

verus! {

/// The leaf entry of the last level that the walk for `a` ends at, from the
/// table of `level` at `table` on; none where a gap or a superpage comes before.
pub open spec fn leaf_of(ptes: Map<u64, u64>, table: u64, a: u64, level: nat) -> Option<u64>
    decreases level,
{
    let pte = objects::at(ptes, vspace::entry_at(table, a, level));
    if pte & PTE_V == 0 {
        None
    } else if level == 0 {
        if pte & PTE_RWX != 0 {
            Some(pte)
        } else {
            None
        }
    } else if pte & PTE_RWX != 0 {
        None
    } else {
        leaf_of(ptes, vspace::entry_pa(pte), a, (level - 1) as nat)
    }
}

/// Combinations of permission bits, and the entry without any.
pub(crate) proof fn lemma_flag_bits()
    ensures
        0u64 & 1 == 0,
        2u64 | 4 == 6,
        6u64 | 8 == 0x0e,
        0x0eu64 | 0x10 == 0x1e,
        6u64 & 0x0e != 0,
        0x0eu64 & 0x0e != 0,
{
    assert(0u64 & 1 == 0 && 2u64 | 4 == 6 && 6u64 | 8 == 0x0e && 0x0eu64 | 0x10 == 0x1e && 6u64
        & 0x0e != 0 && 0x0eu64 & 0x0e != 0) by (bit_vector);
}

/// The tables that the walk for `va` reads from the table of `level` at `table`
/// on.
pub open spec fn tables(ptes: Map<u64, u64>, table: u64, va: u64, level: nat) -> Seq<u64>
    decreases level,
{
    let pte = objects::at(ptes, vspace::entry_at(table, va, level));
    if level == 0 || pte & PTE_V == 0 || pte & PTE_RWX != 0 {
        seq![table]
    } else {
        seq![table] + tables(ptes, vspace::entry_pa(pte), va, (level - 1) as nat)
    }
}

/// Every table of the walk is a page in use, and the walk reads no table twice.
pub open spec fn walk_ok(s: State, table: u64, va: u64, level: nat) -> bool {
    let w = tables(s.ptes, table, va, level);
    &&& forall|i: int| 0 <= i < w.len() ==> #[trigger] w[i] % 4096 == 0
    &&& forall|i: int| 0 <= i < w.len() ==> kernel::page_in_use(s, #[trigger] w[i])
    &&& w.no_duplicates()
}

/// The walks for `va` and `va2` share a table only as long as both follow the
/// same entries.
pub open spec fn walks_branch(s: State, table: u64, va: u64, va2: u64, level: nat) -> bool {
    let w = tables(s.ptes, table, va, level);
    let w2 = tables(s.ptes, table, va2, level);
    forall|i: int, j: int|
        #![trigger w[i], w2[j]]
        0 <= i < w.len() && 0 <= j < w2.len() && w[i] == w2[j] ==> i == j && same_entries(
            va,
            va2,
            level,
            i,
        )
}

/// The walks for `va` and `va2` take the same index in the first `n` tables.
pub open spec fn same_entries(va: u64, va2: u64, level: nat, n: int) -> bool {
    forall|k: int|
        0 <= k < n && k <= level ==> #[trigger] vspace::vpn(va, (level - k) as nat) == vspace::vpn(
            va2,
            (level - k) as nat,
        )
}

/// The walk for `va` reads the entry at `a`.
pub open spec fn reads(ptes: Map<u64, u64>, table: u64, va: u64, level: nat, a: u64) -> bool
    decreases level,
{
    let pte = objects::at(ptes, vspace::entry_at(table, va, level));
    ||| a == vspace::entry_at(table, va, level)
    ||| level > 0 && pte & PTE_V != 0 && pte & PTE_RWX == 0 && reads(
        ptes,
        vspace::entry_pa(pte),
        va,
        (level - 1) as nat,
        a,
    )
}

/// An entry lies in its table's page.
pub(crate) proof fn lemma_entry_at(table: u64, va: u64, level: nat)
    requires
        table % 4096 == 0,
    ensures
        vspace::vpn(va, level) < 512,
        vspace::entry_at(table, va, level) == table + 8 * vspace::vpn(va, level),
        table <= vspace::entry_at(table, va, level) < table + 4096,
{
    assert((va >> 12u64) & 0x1ff < 512 && (va >> 21u64) & 0x1ff < 512 && (va >> 30u64) & 0x1ff
        < 512 && (va >> 39u64) & 0x1ff < 512) by (bit_vector);
    assert(table + 4096 <= 0x1_0000_0000_0000_0000);
}

/// What a table entry says of its table.
pub(crate) proof fn lemma_table_entry(pa: u64)
    requires
        pa % 4096 == 0,
        pa < 0x100_0000_0000_0000,
    ensures
        mmu::table_entry(pa) & PTE_V != 0,
        mmu::table_entry(pa) & PTE_RWX == 0,
        vspace::entry_pa(mmu::table_entry(pa)) == pa,
{
    assert(((pa >> 12u64 << 10u64) | 1u64) & 1 != 0 && ((pa >> 12u64 << 10u64) | 1u64) & 0x0e == 0
        && (((pa >> 12u64 << 10u64) | 1u64) >> 10u64) << 12u64 == pa) by (bit_vector)
        requires
            pa % 4096 == 0,
            pa < 0x100_0000_0000_0000,
    ;
}

/// What a leaf entry says of its page.
pub(crate) proof fn lemma_leaf_entry(pa: u64, flags: u64)
    requires
        pa % 4096 == 0,
        pa < 0x100_0000_0000_0000,
        flags < 1024,
        flags & PTE_RWX != 0,
    ensures
        vspace::leaf_entry(pa, flags) & PTE_V != 0,
        vspace::leaf_entry(pa, flags) & PTE_RWX != 0,
        vspace::entry_pa(vspace::leaf_entry(pa, flags)) == pa,
{
    let e = vspace::leaf_entry(pa, flags);
    assert(e & 1 != 0 && e & 0x0e != 0 && (e >> 10u64) << 12u64 == pa) by (bit_vector)
        requires
            e == (pa >> 12u64 << 10u64) | flags | 1 | 0x40 | 0x80,
            pa % 4096 == 0,
            pa < 0x100_0000_0000_0000,
            flags < 1024,
            flags & 0x0e != 0,
    ;
}

/// The rest of a sound walk is sound.
proof fn lemma_walk_rest(s: State, table: u64, va: u64, level: nat)
    requires
        walk_ok(s, table, va, level),
        level > 0,
        objects::at(s.ptes, vspace::entry_at(table, va, level)) & PTE_V != 0,
        objects::at(s.ptes, vspace::entry_at(table, va, level)) & PTE_RWX == 0,
    ensures
        ({
            let next = vspace::entry_pa(objects::at(s.ptes, vspace::entry_at(table, va, level)));
            let rest = tables(s.ptes, next, va, (level - 1) as nat);
            &&& walk_ok(s, next, va, (level - 1) as nat)
            &&& tables(s.ptes, table, va, level) == seq![table] + rest
            &&& !rest.contains(table)
            &&& table % 4096 == 0
            &&& kernel::page_in_use(s, table)
        }),
{
    let next = vspace::entry_pa(objects::at(s.ptes, vspace::entry_at(table, va, level)));
    let rest = tables(s.ptes, next, va, (level - 1) as nat);
    let w = tables(s.ptes, table, va, level);
    assert(w == seq![table] + rest);
    assert(w[0] == table);
    assert forall|i: int| 0 <= i < rest.len() implies #[trigger] rest[i] == w[i + 1] by {}
    assert forall|i: int| 0 <= i < rest.len() implies #[trigger] rest[i] % 4096 == 0 by {
        assert(w[i + 1] % 4096 == 0);
    }
    assert forall|i: int| 0 <= i < rest.len() implies kernel::page_in_use(
        s,
        #[trigger] rest[i],
    ) by {
        assert(kernel::page_in_use(s, w[i + 1]));
    }
    assert forall|i: int, j: int| 0 <= i < rest.len() && 0 <= j < rest.len() && i != j implies rest[i]
        != rest[j] by {
        assert(w[i + 1] != w[j + 1]);
    }
    if rest.contains(table) {
        let i = choose|i: int| 0 <= i < rest.len() && rest[i] == table;
        assert(w[i + 1] == w[0]);
    }
}

/// What the walk reads lies in its tables.
pub(crate) proof fn lemma_reads_in_tables(s: State, table: u64, va: u64, level: nat, a: u64) -> (i: int)
    requires
        walk_ok(s, table, va, level),
        reads(s.ptes, table, va, level, a),
    ensures
        0 <= i < tables(s.ptes, table, va, level).len(),
        tables(s.ptes, table, va, level)[i] <= a < tables(s.ptes, table, va, level)[i] + 4096,
    decreases level,
{
    let w = tables(s.ptes, table, va, level);
    assert(w[0] == table);
    if a == vspace::entry_at(table, va, level) {
        lemma_entry_at(table, va, level);
        0
    } else {
        lemma_walk_rest(s, table, va, level);
        let next = vspace::entry_pa(objects::at(s.ptes, vspace::entry_at(table, va, level)));
        let i = lemma_reads_in_tables(s, next, va, (level - 1) as nat, a);
        assert(w[i + 1] == tables(s.ptes, next, va, (level - 1) as nat)[i]);
        i + 1
    }
}

/// Page-aligned pages that share an address are one page.
pub(crate) proof fn lemma_same_page(p: u64, q: u64, a: u64)
    requires
        p % 4096 == 0,
        q % 4096 == 0,
        p <= a < p + 4096,
        q <= a < q + 4096,
    ensures
        p == q,
{
}

/// Zeroing a fresh page leaves what lies elsewhere.
pub(crate) proof fn lemma_fresh_table(s: State)
    requires
        buddy::lists_ok(s.mm.lists),
    ensures
        kernel::page_made(s) matches (s1, Some(new)) ==> {
            &&& forall|a: u64|
                !buddy::is_free(s.mm.lists, a as int) ==> #[trigger] objects::at(s1.ptes, a)
                    == objects::at(s.ptes, a)
            &&& forall|a: u64| new <= a < new + 4096 ==> #[trigger] objects::at(s1.ptes, a) == 0
        },
{
    kernel::lemma_page_made(s);
}

/// The state after a fresh table has been entered for `va` in the table of
/// `level` at `table`.
spec fn with_table(s: State, table: u64, va: u64, level: nat) -> State {
    let (s1, page) = kernel::page_made(s);
    vspace::with_pte(s1, vspace::entry_at(table, va, level), mmu::table_entry(page->0))
}

/// A fresh table maps nothing, and its walk ends in it.
proof fn lemma_new_table(s: State, table: u64, va: u64, va2: u64, level: nat)
    requires
        buddy::lists_ok(s.mm.lists),
        table % 4096 == 0,
        kernel::page_in_use(s, table),
        level > 0,
        kernel::page_made(s).1 is Some,
    ensures
        ({
            let new = kernel::page_made(s).1->0;
            let s2 = with_table(s, table, va, level);
            let addr = vspace::entry_at(table, va, level);
            &&& buddy::lists_ok(s2.mm.lists)
            &&& new % 4096 == 0
            &&& new < 0x100_0000_0000_0000
            &&& new != table
            &&& objects::at(s2.ptes, addr) == mmu::table_entry(new)
            &&& tables(s2.ptes, new, va2, (level - 1) as nat) == seq![new]
            &&& walk_ok(s2, new, va2, (level - 1) as nat)
            &&& vspace::translated_from(s2.ptes, new, va2, (level - 1) as nat) is None
            &&& leaf_of(s2.ptes, new, va2, (level - 1) as nat) is None
            &&& !reads(s2.ptes, new, va2, (level - 1) as nat, addr)
            &&& forall|a: u64|
                reads(s2.ptes, new, va2, (level - 1) as nat, a) ==> #[trigger] buddy::is_free(
                    s.mm.lists,
                    a as int,
                )
            &&& forall|a: int|
                !buddy::is_free(s.mm.lists, a) ==> !#[trigger] buddy::is_free(s2.mm.lists, a)
            &&& forall|a: u64|
                a != addr && !buddy::is_free(s.mm.lists, a as int) ==> #[trigger] objects::at(
                    s2.ptes,
                    a,
                ) == objects::at(s.ptes, a)
        }),
{
    kernel::lemma_page_made(s);
    lemma_fresh_table(s);
    let (s1, page) = kernel::page_made(s);
    let new = page->0;
    let addr = vspace::entry_at(table, va, level);
    let s2 = with_table(s, table, va, level);
    lemma_entry_at(table, va, level);
    lemma_entry_at(new, va2, (level - 1) as nat);
    assert(!buddy::is_free(s.mm.lists, addr as int));
    assert(buddy::is_free(s.mm.lists, new as int));
    assert(!buddy::is_free(s.mm.lists, table as int));
    let e2 = vspace::entry_at(new, va2, (level - 1) as nat);
    assert(buddy::is_free(s.mm.lists, e2 as int));
    assert(objects::at(s2.ptes, e2) == 0);
    lemma_flag_bits();
    let w = tables(s2.ptes, new, va2, (level - 1) as nat);
    assert(w =~= seq![new]);
    assert(kernel::page_in_use(s2, new));
}

/// Mapping a page changes only the entries that its own walk reads, and memory
/// that was free.
proof fn lemma_mapped_frame(s: State, table: u64, va: u64, pa: u64, flags: u64, level: nat, a: u64)
    requires
        buddy::lists_ok(s.mm.lists),
        walk_ok(s, table, va, level),
        !reads(s.ptes, table, va, level, a),
        !buddy::is_free(s.mm.lists, a as int),
    ensures
        objects::at(vspace::mapped_from(s, table, va, pa, flags, level).0.ptes, a) == objects::at(
            s.ptes,
            a,
        ),
    decreases level,
{
    let addr = vspace::entry_at(table, va, level);
    let entry = objects::at(s.ptes, addr);
    assert(tables(s.ptes, table, va, level)[0] == table);
    if level > 0 && entry & PTE_V == 0 {
        if let Some(new) = kernel::page_made(s).1 {
            lemma_new_table(s, table, va, va, level);
            let s2 = with_table(s, table, va, level);
            lemma_mapped_frame(s2, new, va, pa, flags, (level - 1) as nat, a);
        }
    } else if level > 0 && entry & PTE_RWX == 0 {
        lemma_walk_rest(s, table, va, level);
        lemma_mapped_frame(s, vspace::entry_pa(entry), va, pa, flags, (level - 1) as nat, a);
    }
}

proof fn lemma_mapped_translates(
    s: State,
    table: u64,
    va: u64,
    pa: u64,
    flags: u64,
    level: nat,
)
    requires
        buddy::lists_ok(s.mm.lists),
        walk_ok(s, table, va, level),
        pa % 4096 == 0,
        pa < 0x100_0000_0000_0000,
        flags < 1024,
        flags & PTE_RWX != 0,
    ensures
        vspace::mapped_from(s, table, va, pa, flags, level) matches (s1, true) ==> {
            &&& vspace::translated_from(s1.ptes, table, va, level) == Some(pa | (va & 0xfff))
            &&& leaf_of(s1.ptes, table, va, level) == Some(vspace::leaf_entry(pa, flags))
        },
    decreases level,
{
    let addr = vspace::entry_at(table, va, level);
    let entry = objects::at(s.ptes, addr);
    assert(tables(s.ptes, table, va, level)[0] == table);
    lemma_entry_at(table, va, level);
    if level == 0 {
        lemma_leaf_entry(pa, flags);
    } else if entry & PTE_V == 0 {
        if let Some(new) = kernel::page_made(s).1 {
            lemma_new_table(s, table, va, va, level);
            lemma_table_entry(new);
            let s2 = with_table(s, table, va, level);
            lemma_mapped_translates(s2, new, va, pa, flags, (level - 1) as nat);
            assert(!buddy::is_free(s.mm.lists, addr as int));
            lemma_mapped_frame(s2, new, va, pa, flags, (level - 1) as nat, addr);
        }
    } else if entry & PTE_RWX == 0 {
        lemma_walk_rest(s, table, va, level);
        let next = vspace::entry_pa(entry);
        lemma_mapped_translates(s, next, va, pa, flags, (level - 1) as nat);
        if reads(s.ptes, next, va, (level - 1) as nat, addr) {
            let i = lemma_reads_in_tables(s, next, va, (level - 1) as nat, addr);
            let rest = tables(s.ptes, next, va, (level - 1) as nat);
            lemma_same_page(rest[i], table, addr);
            assert(rest.contains(table));
        }
        assert(!buddy::is_free(s.mm.lists, addr as int));
        lemma_mapped_frame(s, next, va, pa, flags, (level - 1) as nat, addr);
    }
}

/// A page that was mapped is found where it was put: its whole range translates
/// to the page's own addresses.
pub proof fn law_mapped_page_found(s: State, pgd_pa: u64, va: u64, pa: u64, flags: u64)
    requires
        buddy::lists_ok(s.mm.lists),
        walk_ok(s, pgd_pa, va, 3),
        pa % 4096 == 0,
        pa < 0x100_0000_0000_0000,
        flags < 1024,
        flags & PTE_RWX != 0,
    ensures
        vspace::mapped(s, pgd_pa, va, pa, flags) matches (s1, true) ==> vspace::translated(
            s1.ptes,
            pgd_pa,
            va,
        ) == Some(pa | (va & 0xfff)),
{
    lemma_mapped_translates(s, pgd_pa, va, pa, flags, 3);
}

/// A page that was mapped has the rights it was mapped with, no more and no
/// less: to read, write and execute, and for user mode.
pub proof fn law_mapped_rights(s: State, pgd_pa: u64, va: u64, pa: u64, flags: u64)
    requires
        buddy::lists_ok(s.mm.lists),
        walk_ok(s, pgd_pa, va, 3),
        pa % 4096 == 0,
        pa < 0x100_0000_0000_0000,
        flags < 1024,
        flags & PTE_RWX != 0,
    ensures
        vspace::mapped(s, pgd_pa, va, pa, flags) matches (s1, true) ==> {
            &&& leaf_of(s1.ptes, pgd_pa, va, 3) matches Some(e)
            &&& e & 0x1e == flags & 0x1e
        },
{
    lemma_mapped_translates(s, pgd_pa, va, pa, flags, 3);
    assert(((pa >> 12u64 << 10u64) | flags | 1u64 | 0x40 | 0x80) & 0x1e == flags & 0x1e)
        by (bit_vector);
}

/// A translation depends only on the entries that its walk reads.
pub(crate) proof fn lemma_same_reads(p: Map<u64, u64>, q: Map<u64, u64>, table: u64, va: u64, level: nat)
    requires
        forall|a: u64|
            reads(p, table, va, level, a) ==> #[trigger] objects::at(p, a) == objects::at(q, a),
    ensures
        vspace::translated_from(p, table, va, level) == vspace::translated_from(
            q,
            table,
            va,
            level,
        ),
        leaf_of(p, table, va, level) == leaf_of(q, table, va, level),
    decreases level,
{
    let addr = vspace::entry_at(table, va, level);
    let entry = objects::at(p, addr);
    assert(reads(p, table, va, level, addr));
    if level > 0 && entry & PTE_V != 0 && entry & PTE_RWX == 0 {
        let next = vspace::entry_pa(entry);
        assert forall|a: u64| reads(p, next, va, (level - 1) as nat, a) implies #[trigger] objects::at(
            p,
            a,
        ) == objects::at(q, a) by {
            assert(reads(p, table, va, level, a));
        }
        lemma_same_reads(p, q, next, va, (level - 1) as nat);
    }
}

/// The rest of two walks that branch, where both take the same entry.
proof fn lemma_branch_rest(s: State, table: u64, va: u64, va2: u64, level: nat)
    requires
        walk_ok(s, table, va, level),
        walk_ok(s, table, va2, level),
        walks_branch(s, table, va, va2, level),
        level > 0,
        vspace::vpn(va, level) == vspace::vpn(va2, level),
        objects::at(s.ptes, vspace::entry_at(table, va, level)) & PTE_V != 0,
        objects::at(s.ptes, vspace::entry_at(table, va, level)) & PTE_RWX == 0,
    ensures
        walks_branch(
            s,
            vspace::entry_pa(objects::at(s.ptes, vspace::entry_at(table, va, level))),
            va,
            va2,
            (level - 1) as nat,
        ),
{
    lemma_walk_rest(s, table, va, level);
    lemma_walk_rest(s, table, va2, level);
    let next = vspace::entry_pa(objects::at(s.ptes, vspace::entry_at(table, va, level)));
    let w = tables(s.ptes, table, va, level);
    let w2 = tables(s.ptes, table, va2, level);
    let r = tables(s.ptes, next, va, (level - 1) as nat);
    let r2 = tables(s.ptes, next, va2, (level - 1) as nat);
    assert forall|i: int, j: int|
        #![trigger r[i], r2[j]]
        0 <= i < r.len() && 0 <= j < r2.len() && r[i] == r2[j] implies i == j && same_entries(
        va,
        va2,
        (level - 1) as nat,
        i,
    ) by {
        assert(w[i + 1] == r[i] && w2[j + 1] == r2[j]);
        assert(same_entries(va, va2, level, i + 1));
        assert forall|k: int| 0 <= k < i && k <= level - 1 implies #[trigger] vspace::vpn(
            va,
            (level - 1 - k) as nat,
        ) == vspace::vpn(va2, (level - 1 - k) as nat) by {
            assert(vspace::vpn(va, (level - (k + 1)) as nat) == vspace::vpn(
                va2,
                (level - (k + 1)) as nat,
            ));
        }
    }
}

/// Where the walks for `va` and `va2` part, mapping `va` reads nothing that the
/// walk for `va2` goes on to read.
proof fn lemma_branch_apart(s: State, table: u64, va: u64, va2: u64, level: nat, a: u64)
    requires
        walk_ok(s, table, va, level),
        walk_ok(s, table, va2, level),
        walks_branch(s, table, va, va2, level),
        vspace::vpn(va, level) != vspace::vpn(va2, level),
        reads(s.ptes, table, va2, level, a),
    ensures
        !reads(s.ptes, table, va, level, a),
        !buddy::is_free(s.mm.lists, a as int),
{
    let w = tables(s.ptes, table, va, level);
    let w2 = tables(s.ptes, table, va2, level);
    assert(w[0] == table && w2[0] == table);
    lemma_entry_at(table, va, level);
    lemma_entry_at(table, va2, level);
    let j = lemma_reads_in_tables(s, table, va2, level, a);
    assert(kernel::page_in_use(s, w2[j]));
    assert(!buddy::is_free(s.mm.lists, a as int));
    if reads(s.ptes, table, va, level, a) {
        let i = lemma_reads_in_tables(s, table, va, level, a);
        lemma_same_page(w[i], w2[j], a);
        assert(same_entries(va, va2, level, i));
        if i > 0 {
            assert(vspace::vpn(va, (level - 0) as nat) == vspace::vpn(va2, (level - 0) as nat));
        } else {
            lemma_reads_first(s, table, va, level, a);
            lemma_reads_first(s, table, va2, level, a);
        }
    }
}

/// The one entry that a walk reads in its first table.
proof fn lemma_reads_first(s: State, table: u64, va: u64, level: nat, a: u64)
    requires
        walk_ok(s, table, va, level),
        reads(s.ptes, table, va, level, a),
        table <= a < table + 4096,
    ensures
        a == vspace::entry_at(table, va, level),
{
    assert(tables(s.ptes, table, va, level)[0] == table);
    if a != vspace::entry_at(table, va, level) {
        lemma_walk_rest(s, table, va, level);
        let next = vspace::entry_pa(objects::at(s.ptes, vspace::entry_at(table, va, level)));
        let rest = tables(s.ptes, next, va, (level - 1) as nat);
        let i = lemma_reads_in_tables(s, next, va, (level - 1) as nat, a);
        lemma_same_page(rest[i], table, a);
        assert(rest.contains(table));
    }
}

proof fn lemma_mapped_elsewhere(
    s: State,
    table: u64,
    va: u64,
    va2: u64,
    pa: u64,
    flags: u64,
    level: nat,
)
    requires
        buddy::lists_ok(s.mm.lists),
        walk_ok(s, table, va, level),
        walk_ok(s, table, va2, level),
        walks_branch(s, table, va, va2, level),
        !same_entries(va, va2, level, (level + 1) as int),
    ensures
        vspace::translated_from(
            vspace::mapped_from(s, table, va, pa, flags, level).0.ptes,
            table,
            va2,
            level,
        ) == vspace::translated_from(s.ptes, table, va2, level),
        leaf_of(vspace::mapped_from(s, table, va, pa, flags, level).0.ptes, table, va2, level)
            == leaf_of(s.ptes, table, va2, level),
    decreases level,
{
    let addr = vspace::entry_at(table, va, level);
    let entry = objects::at(s.ptes, addr);
    let s1 = vspace::mapped_from(s, table, va, pa, flags, level).0;
    assert(tables(s.ptes, table, va, level)[0] == table);
    lemma_entry_at(table, va, level);
    lemma_entry_at(table, va2, level);
    if vspace::vpn(va, level) != vspace::vpn(va2, level) {
        assert forall|a: u64| reads(s.ptes, table, va2, level, a) implies #[trigger] objects::at(
            s.ptes,
            a,
        ) == objects::at(s1.ptes, a) by {
            lemma_branch_apart(s, table, va, va2, level, a);
            lemma_mapped_frame(s, table, va, pa, flags, level, a);
        }
        lemma_same_reads(s.ptes, s1.ptes, table, va2, level);
    } else {
        if level == 0 {
            assert(same_entries(va, va2, 0, 1));
        }
        let low = (level - 1) as nat;
        let k = choose|k: int|
            0 <= k < level + 1 && k <= level && #[trigger] vspace::vpn(va, (level - k) as nat)
                != vspace::vpn(va2, (level - k) as nat);
        assert(vspace::vpn(va, (low - (k - 1)) as nat) != vspace::vpn(va2, (low - (k - 1)) as nat));
        assert(!same_entries(va, va2, low, (low + 1) as int));
        if entry & PTE_V == 0 {
            if let Some(new) = kernel::page_made(s).1 {
                lemma_new_table(s, table, va, va, level);
                lemma_new_table(s, table, va, va2, level);
                lemma_table_entry(new);
                let s2 = with_table(s, table, va, level);
                assert(walks_branch(s2, new, va, va2, low)) by {
                    let w = tables(s2.ptes, new, va, low);
                    let w2 = tables(s2.ptes, new, va2, low);
                    assert(w == seq![new] && w2 == seq![new]);
                    assert forall|i: int, j: int|
                        #![trigger w[i], w2[j]]
                        0 <= i < w.len() && 0 <= j < w2.len() && w[i] == w2[j] implies i == j
                        && same_entries(va, va2, low, i) by {}
                }
                lemma_mapped_elsewhere(s2, new, va, va2, pa, flags, low);
                assert(!buddy::is_free(s.mm.lists, addr as int));
                lemma_mapped_frame(s2, new, va, pa, flags, low, addr);
            } else {
                assert(s1 == s);
            }
        } else if entry & PTE_RWX == 0 {
            lemma_walk_rest(s, table, va, level);
            lemma_walk_rest(s, table, va2, level);
            lemma_branch_rest(s, table, va, va2, level);
            let next = vspace::entry_pa(entry);
            lemma_mapped_elsewhere(s, next, va, va2, pa, flags, low);
            if reads(s.ptes, next, va, low, addr) {
                let i = lemma_reads_in_tables(s, next, va, low, addr);
                let rest = tables(s.ptes, next, va, low);
                lemma_same_page(rest[i], table, addr);
                assert(rest.contains(table));
            }
            assert(!buddy::is_free(s.mm.lists, addr as int));
            lemma_mapped_frame(s, next, va, pa, flags, low, addr);
        }
    }
}

/// Mapping one page leaves the translation of every other page as it was.
pub proof fn law_mapping_is_local(s: State, pgd_pa: u64, va: u64, va2: u64, pa: u64, flags: u64)
    requires
        buddy::lists_ok(s.mm.lists),
        walk_ok(s, pgd_pa, va, 3),
        walk_ok(s, pgd_pa, va2, 3),
        walks_branch(s, pgd_pa, va, va2, 3),
        !same_entries(va, va2, 3, 4),
    ensures
        vspace::translated(
            vspace::mapped(s, pgd_pa, va, pa, flags).0.ptes,
            pgd_pa,
            va2,
        ) == vspace::translated(s.ptes, pgd_pa, va2),
        leaf_of(vspace::mapped(s, pgd_pa, va, pa, flags).0.ptes, pgd_pa, va2, 3) == leaf_of(
            s.ptes,
            pgd_pa,
            va2,
            3,
        ),
{
    lemma_mapped_elsewhere(s, pgd_pa, va, va2, pa, flags, 3);
}

pub(crate) proof fn lemma_mapped_bytes(s: State, table: u64, va: u64, pa: u64, flags: u64, level: nat, a: u64)
    requires
        buddy::lists_ok(s.mm.lists),
        !buddy::is_free(s.mm.lists, a as int),
    ensures
        ({
            let s1 = vspace::mapped_from(s, table, va, pa, flags, level).0;
            &&& objects::at(s1.bytes, a) == objects::at(s.bytes, a)
            &&& buddy::lists_ok(s1.mm.lists)
            &&& !buddy::is_free(s1.mm.lists, a as int)
        }),
    decreases level,
{
    let addr = vspace::entry_at(table, va, level);
    let entry = objects::at(s.ptes, addr);
    if level > 0 && entry & PTE_V == 0 {
        kernel::lemma_page_made(s);
        let (s1, page) = kernel::page_made(s);
        if let Some(new) = page {
            let s2 = vspace::with_pte(s1, addr, mmu::table_entry(new));
            lemma_mapped_bytes(s2, new, va, pa, flags, (level - 1) as nat, a);
        }
    } else if level > 0 && entry & PTE_RWX == 0 {
        lemma_mapped_bytes(s, vspace::entry_pa(entry), va, pa, flags, (level - 1) as nat, a);
    }
}

/// Mapping a page leaves what memory in use holds as it was.
pub proof fn law_mapping_keeps_contents(s: State, pgd_pa: u64, va: u64, pa: u64, flags: u64, a: u64)
    requires
        buddy::lists_ok(s.mm.lists),
        !buddy::is_free(s.mm.lists, a as int),
    ensures
        objects::at(vspace::mapped(s, pgd_pa, va, pa, flags).0.bytes, a) == objects::at(
            s.bytes,
            a,
        ),
{
    lemma_mapped_bytes(s, pgd_pa, va, pa, flags, 3, a);
}

/// `ts` are tables in use, and what their entries point to are tables of `ts`.
pub open spec fn closed_tables(s: State, ts: Set<u64>) -> bool {
    &&& forall|t: u64| #[trigger] ts.contains(t) ==> t % 4096 == 0 && kernel::page_in_use(s, t)
    &&& forall|t: u64, a: u64|
        #![trigger ts.contains(t), objects::at(s.ptes, a)]
        ts.contains(t) && t <= a < t + 4096 && objects::at(s.ptes, a) & PTE_V != 0 && objects::at(
            s.ptes,
            a,
        ) & PTE_RWX == 0 ==> ts.contains(vspace::entry_pa(objects::at(s.ptes, a)))
}

/// Mapping a page from one of `ts` on changes no page in use outside of `ts`, and
/// adds to `ts` only pages that were free.
proof fn lemma_mapped_closed(
    s: State,
    ts: Set<u64>,
    table: u64,
    va: u64,
    pa: u64,
    flags: u64,
    level: nat,
    avoid: u64,
) -> (rs: Set<u64>)
    requires
        buddy::lists_ok(s.mm.lists),
        closed_tables(s, ts),
        ts.contains(table),
        !ts.contains(avoid),
        avoid % 4096 == 0,
        kernel::page_in_use(s, avoid),
        pa % 4096 == 0,
        pa < 0x100_0000_0000_0000,
        flags < 1024,
        flags & PTE_RWX != 0,
    ensures
        ({
            let s1 = vspace::mapped_from(s, table, va, pa, flags, level).0;
            &&& buddy::lists_ok(s1.mm.lists)
            &&& closed_tables(s1, rs)
            &&& ts.subset_of(rs)
            &&& !rs.contains(avoid)
            &&& kernel::page_in_use(s1, avoid)
            &&& s1.boot_user_pte == s.boot_user_pte
            &&& forall|a: u64|
                avoid <= a < avoid + 4096 ==> #[trigger] objects::at(s1.ptes, a) == objects::at(
                    s.ptes,
                    a,
                )
        }),
    decreases level,
{
    let addr = vspace::entry_at(table, va, level);
    let entry = objects::at(s.ptes, addr);
    lemma_entry_at(table, va, level);
    if level == 0 {
        let s1 = vspace::mapped_from(s, table, va, pa, flags, level).0;
        lemma_leaf_entry(pa, flags);
        assert forall|a: u64| avoid <= a < avoid + 4096 implies #[trigger] objects::at(s1.ptes, a)
            == objects::at(s.ptes, a) by {
            if a == addr {
                lemma_same_page(table, avoid, a);
            }
        }
        assert forall|t: u64, a: u64|
            #![trigger ts.contains(t), objects::at(s1.ptes, a)]
            ts.contains(t) && t <= a < t + 4096 && objects::at(s1.ptes, a) & PTE_V != 0
                && objects::at(s1.ptes, a) & PTE_RWX == 0 implies ts.contains(
            vspace::entry_pa(objects::at(s1.ptes, a)),
        ) by {
            if a != addr {
                assert(objects::at(s1.ptes, a) == objects::at(s.ptes, a));
            }
        }
        ts
    } else if entry & PTE_V == 0 {
        kernel::lemma_page_made(s);
        lemma_fresh_table(s);
        let (s1, page) = kernel::page_made(s);
        if let Some(new) = page {
            lemma_table_entry(new);
            let s2 = vspace::with_pte(s1, addr, mmu::table_entry(new));
            let more = ts.insert(new);
            assert(buddy::is_free(s.mm.lists, new as int));
            assert(!buddy::is_free(s.mm.lists, avoid as int));
            assert forall|t: u64| #[trigger] more.contains(t) implies t % 4096 == 0
                && kernel::page_in_use(s2, t) by {
                if t != new {
                    assert(ts.contains(t));
                    assert(kernel::page_in_use(s, t));
                }
            }
            assert forall|t: u64, a: u64|
                #![trigger more.contains(t), objects::at(s2.ptes, a)]
                more.contains(t) && t <= a < t + 4096 && objects::at(s2.ptes, a) & PTE_V != 0
                    && objects::at(s2.ptes, a) & PTE_RWX == 0 implies more.contains(
                vspace::entry_pa(objects::at(s2.ptes, a)),
            ) by {
                if a != addr {
                    assert(objects::at(s2.ptes, a) == objects::at(s1.ptes, a));
                    if t == new {
                        lemma_flag_bits();
                    } else {
                        assert(ts.contains(t));
                        assert(!buddy::is_free(s.mm.lists, a as int));
                        assert(objects::at(s.ptes, a) == objects::at(s1.ptes, a));
                    }
                }
            }
            assert forall|a: u64| avoid <= a < avoid + 4096 implies #[trigger] objects::at(
                s2.ptes,
                a,
            ) == objects::at(s.ptes, a) by {
                assert(!buddy::is_free(s.mm.lists, a as int));
                if a == addr {
                    lemma_same_page(table, avoid, a);
                }
            }
            lemma_mapped_closed(s2, more, new, va, pa, flags, (level - 1) as nat, avoid)
        } else {
            ts
        }
    } else if entry & PTE_RWX == 0 {
        let next = vspace::entry_pa(entry);
        lemma_mapped_closed(s, ts, next, va, pa, flags, (level - 1) as nat, avoid)
    } else {
        ts
    }
}

/// The same from a root whose first entry leads to one of `ts`, for an address
/// below the user mirror.
proof fn lemma_root_mapped(s: State, ts: Set<u64>, pgd: u64, pud: u64, va: u64) -> (rs: Set<u64>)
    requires
        buddy::lists_ok(s.mm.lists),
        closed_tables(s, ts),
        ts.contains(pud),
        !ts.contains(pgd),
        pgd % 4096 == 0,
        pud < 0x100_0000_0000_0000,
        kernel::page_in_use(s, pgd),
        objects::at(s.ptes, pgd) == mmu::table_entry(pud),
        va % 4096 == 0,
        va < 0x80_0000_0000,
    ensures
        ({
            let s1 = vspace::mapped(s, pgd, va, va, PTE_R | PTE_W).0;
            &&& buddy::lists_ok(s1.mm.lists)
            &&& closed_tables(s1, rs)
            &&& rs.contains(pud)
            &&& !rs.contains(pgd)
            &&& kernel::page_in_use(s1, pgd)
            &&& s1.boot_user_pte == s.boot_user_pte
            &&& objects::at(s1.ptes, pgd) == objects::at(s.ptes, pgd)
            &&& objects::at(s1.ptes, (pgd + 8) as u64) == objects::at(s.ptes, (pgd + 8) as u64)
        }),
{
    assert((va >> 39u64) & 0x1ff == 0) by (bit_vector)
        requires
            va < 0x80_0000_0000,
    ;
    lemma_flag_bits();
    lemma_entry_at(pgd, va, 3);
    assert(ts.contains(pud));
    lemma_table_entry(pud);
    lemma_mapped_closed(s, ts, pud, va, va, PTE_R | PTE_W, 2, pgd)
}

/// Every process address space shares the entry for the user mirror.
pub proof fn law_spaces_share_mirror(s: State)
    requires
        buddy::lists_ok(s.mm.lists),
    ensures
        vspace::process_vspace_made(s) matches (s1, Some(pgd)) ==> objects::at(
            s1.ptes,
            (pgd + 8) as u64,
        ) == s.boot_user_pte,
        vspace::elf_vspace_made(s) matches (s1, Some(pgd)) ==> objects::at(
            s1.ptes,
            (pgd + 8) as u64,
        ) == s.boot_user_pte,
{
    let (s1, root) = vspace::root_made(s);
    if let Some((pgd, pud)) = root {
        kernel::lemma_page_made(s);
        let t1 = vspace::page_taken(s).0;
        kernel::lemma_page_made(t1);
        let s2 = vspace::with_pte(
            s1,
            pud.wrapping_add(16),
            vspace::leaf_entry(0x8000_0000, PTE_R | PTE_W | PTE_X),
        );
        let s3 = vspace::with_pte(s2, pgd, mmu::table_entry(pud));
        let s4 = vspace::with_pte(s3, pgd.wrapping_add(8), s3.boot_user_pte);
        let ts = Set::<u64>::empty().insert(pud);
        assert(buddy::is_free(t1.mm.lists, pud as int));
        assert(!buddy::is_free(t1.mm.lists, pgd as int));
        assert(pgd != pud);
        lemma_flag_bits();
        lemma_leaf_entry(0x8000_0000, 14);
        assert(closed_tables(s4, ts)) by {
            assert forall|t: u64| #[trigger] ts.contains(t) implies t % 4096 == 0
                && kernel::page_in_use(s4, t) by {}
            assert forall|t: u64, a: u64|
                #![trigger ts.contains(t), objects::at(s4.ptes, a)]
                ts.contains(t) && t <= a < t + 4096 && objects::at(s4.ptes, a) & PTE_V != 0
                    && objects::at(s4.ptes, a) & PTE_RWX == 0 implies ts.contains(
                vspace::entry_pa(objects::at(s4.ptes, a)),
            ) by {
                assert(t == pud);
                if pgd <= a < pgd + 4096 {
                    lemma_same_page(pgd, pud, a);
                }
                if a != pud + 16 {
                    assert(objects::at(s4.ptes, a) == 0);
                }
            }
        }
        let r1 = lemma_root_mapped(s4, ts, pgd, pud, 0x0c00_0000);
        let s5 = vspace::mapped(s4, pgd, 0x0c00_0000, 0x0c00_0000, PTE_R | PTE_W).0;
        let r2 = lemma_root_mapped(s5, r1, pgd, pud, 0x0c00_2000);
        let s6 = vspace::mapped(s5, pgd, 0x0c00_2000, 0x0c00_2000, PTE_R | PTE_W).0;
        let r3 = lemma_root_mapped(s6, r2, pgd, pud, 0x0c20_1000);
    }
}

} // verus!
