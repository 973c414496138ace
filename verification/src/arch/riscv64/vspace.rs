//! Per-process Sv48 address spaces.
//!
//! Every process root shares the entry for the user mirror, so that trap frames
//! saved on user-mirror stacks stay reachable after any address-space switch.
use crate::arch::riscv64::mmu::{self, table_pte, PTE_A, PTE_D, PTE_R, PTE_V, PTE_W, PTE_X, SATP_SV48};
use crate::kernel::{self, fresh_page, Kernel, State};
use crate::objects;
use vstd::prelude::*;

verus! {

/// R, W or X: the entry is a leaf.
pub const PTE_RWX: u64 = 0x0e;

/// Physical page number field of satp.
pub const SATP_PPN: u64 = 0xfff_ffff_ffff;

pub open spec fn satp_of(pgd_pa: u64) -> u64 {
    SATP_SV48 | (pgd_pa >> 12u64)
}

pub open spec fn pgd_of(satp: u64) -> u64 {
    (satp & SATP_PPN) << 12u64
}

/// Leaf entry for the page at `pa`.
pub open spec fn leaf_entry(pa: u64, flags: u64) -> u64 {
    (pa >> 12u64 << 10u64) | flags | PTE_V | PTE_A | PTE_D
}

/// The page that an entry points to.
pub open spec fn entry_pa(pte: u64) -> u64 {
    (pte >> 10u64) << 12u64
}

/// Index of `va` in the table of `level`.
pub open spec fn vpn(va: u64, level: nat) -> u64 {
    if level == 0 {
        (va >> 12u64) & 0x1ff
    } else if level == 1 {
        (va >> 21u64) & 0x1ff
    } else if level == 2 {
        (va >> 30u64) & 0x1ff
    } else {
        (va >> 39u64) & 0x1ff
    }
}

/// Offset bits of a leaf at `level`.
pub open spec fn offset_mask(level: nat) -> u64 {
    if level == 0 {
        0xfff
    } else if level == 1 {
        0x1f_ffff
    } else if level == 2 {
        0x3fff_ffff
    } else {
        0x7f_ffff_ffff
    }
}

/// Address of the entry for `va` in the table of `level` at `table`.
pub open spec fn entry_at(table: u64, va: u64, level: nat) -> u64 {
    table.wrapping_add((vpn(va, level) * 8) as u64)
}

/// Translation of `va` from the table of `level` at `table` on.
pub open spec fn translated_from(ptes: Map<u64, u64>, table: u64, va: u64, level: nat) -> Option<
    u64,
>
    decreases level,
{
    let pte = objects::at(ptes, entry_at(table, va, level));
    if pte & PTE_V == 0 {
        None
    } else if pte & PTE_RWX != 0 {
        Some(entry_pa(pte) | (va & offset_mask(level)))
    } else if level == 0 {
        None
    } else {
        translated_from(ptes, entry_pa(pte), va, (level - 1) as nat)
    }
}

/// Physical address of `va` in the address space rooted at `pgd_pa`.
pub open spec fn translated(ptes: Map<u64, u64>, pgd_pa: u64, va: u64) -> Option<u64> {
    translated_from(ptes, pgd_pa, va, 3)
}

pub open spec fn with_pte(s: State, addr: u64, pte: u64) -> State {
    State { ptes: s.ptes.insert(addr, pte), ..s }
}

/// Mapping `va` to the page `pa` from the table of `level` on: a missing table
/// is allocated, a superpage in the way is refused.
pub open spec fn mapped_from(
    s: State,
    table: u64,
    va: u64,
    pa: u64,
    flags: u64,
    level: nat,
) -> (State, bool)
    decreases level,
{
    let addr = entry_at(table, va, level);
    let entry = objects::at(s.ptes, addr);
    if level == 0 {
        (with_pte(s, addr, leaf_entry(pa, flags)), true)
    } else if entry & PTE_V == 0 {
        let (s1, page) = kernel::page_made(s);
        match page {
            None => (s1, false),
            Some(new) => mapped_from(
                with_pte(s1, addr, mmu::table_entry(new)),
                new,
                va,
                pa,
                flags,
                (level - 1) as nat,
            ),
        }
    } else if entry & PTE_RWX != 0 {
        (s, false)
    } else {
        mapped_from(s, entry_pa(entry), va, pa, flags, (level - 1) as nat)
    }
}

/// Mapping the page `pa` at `va` in the address space rooted at `pgd_pa`.
pub open spec fn mapped(s: State, pgd_pa: u64, va: u64, pa: u64, flags: u64) -> (State, bool) {
    mapped_from(s, pgd_pa, va, pa, flags, 3)
}

/// Remember the satp value of the boot address space.
pub fn save_boot_satp(k: &mut Kernel, satp: u64)
    requires
        old(k).wf(),
    ensures
        final(k).wf(),
        final(k)@ == (State { boot_satp: satp, ..old(k)@ }),
{
    k.boot_satp = satp;
}

pub fn boot_satp(k: &Kernel) -> (r: u64)
    ensures
        r == k@.boot_satp,
{
    k.boot_satp
}

pub fn pgd_to_satp(pgd_pa: u64) -> (r: u64)
    ensures
        r == satp_of(pgd_pa),
{
    SATP_SV48 | (pgd_pa >> 12u64)
}

/// Root table of the address space that `satp` selects.
pub fn satp_to_pgd_pa(satp: u64) -> (r: u64)
    ensures
        r == pgd_of(satp),
{
    (satp & SATP_PPN) << 12u64
}

/// The root table is read back from satp.
pub proof fn law_satp_round_trip(pgd_pa: u64)
    requires
        pgd_pa % 4096 == 0,
        pgd_pa < 0x100_0000_0000_0000,
    ensures
        pgd_of(satp_of(pgd_pa)) == pgd_pa,
        satp_of(pgd_pa) >> 60 == 9,
{
    assert(((0x9000_0000_0000_0000u64 | (pgd_pa >> 12u64)) & 0xfff_ffff_ffff) << 12u64 == pgd_pa
        && (0x9000_0000_0000_0000u64 | (pgd_pa >> 12u64)) >> 60 == 9) by (bit_vector)
        requires
            pgd_pa % 4096 == 0,
            pgd_pa < 0x100_0000_0000_0000,
    ;
}

/// Ask for a flush of all TLB entries.
pub fn flush_tlb_all(k: &mut Kernel)
    requires
        old(k).wf(),
    ensures
        final(k).wf(),
        final(k)@ == (State { flush_tlb: true, ..old(k)@ }),
{
    k.flush_tlb = true;
}

fn leaf_pte(pa: u64, flags: u64) -> (r: u64)
    ensures
        r == leaf_entry(pa, flags),
{
    (pa >> 12u64 << 10u64) | flags | PTE_V | PTE_A | PTE_D
}

fn entry_addr(table: u64, va: u64, level: usize) -> (r: u64)
    requires
        level <= 3,
    ensures
        r == entry_at(table, va, level as nat),
{
    let index: u64 = if level == 0 {
        (va >> 12u64) & 0x1ff
    } else if level == 1 {
        (va >> 21u64) & 0x1ff
    } else if level == 2 {
        (va >> 30u64) & 0x1ff
    } else {
        (va >> 39u64) & 0x1ff
    };
    proof {
        lemma_index_bound(va);
    }
    table.wrapping_add(index * 8)
}

proof fn lemma_index_bound(va: u64)
    ensures
        (va >> 12u64) & 0x1ff < 512,
        (va >> 21u64) & 0x1ff < 512,
        (va >> 30u64) & 0x1ff < 512,
        (va >> 39u64) & 0x1ff < 512,
{
    assert((va >> 12u64) & 0x1ff < 512 && (va >> 21u64) & 0x1ff < 512 && (va >> 30u64) & 0x1ff
        < 512 && (va >> 39u64) & 0x1ff < 512) by (bit_vector);
}

fn set_pte(k: &mut Kernel, addr: u64, pte: u64)
    requires
        old(k).wf(),
    ensures
        final(k).wf(),
        final(k)@ == with_pte(old(k)@, addr, pte),
{
    k.ptes.write(addr, pte);
}

/// Map a 4 KiB page: the physical page `pa` at the virtual address `va` in the
/// address space rooted at `pgd_pa`, with permission flags `pte_flags`.
///
/// Intermediate tables are allocated as needed. Fails when memory runs out or
/// when a superpage covers `va`.
pub fn map_page(k: &mut Kernel, pgd_pa: u64, va: u64, pa: u64, pte_flags: u64) -> (r: Result<
    (),
    (),
>)
    requires
        old(k).wf(),
    ensures
        final(k).wf(),
        (final(k)@, r is Ok) == mapped(old(k)@, pgd_pa, va, pa, pte_flags),
{
    let mut table: u64 = pgd_pa;
    let mut level: usize = 3;
    while level > 0
        invariant
            k.wf(),
            level <= 3,
            mapped_from(k@, table, va, pa, pte_flags, level as nat) == mapped(
                old(k)@,
                pgd_pa,
                va,
                pa,
                pte_flags,
            ),
        decreases level,
    {
        let addr: u64 = entry_addr(table, va, level);
        let entry: u64 = k.ptes.read(addr);
        if entry & PTE_V == 0 {
            match fresh_page(k) {
                None => {
                    return Err(());
                },
                Some(new) => {
                    set_pte(k, addr, table_pte(new));
                    table = new;
                },
            }
        } else if entry & PTE_RWX != 0 {
            return Err(());
        } else {
            table = (entry >> 10u64) << 12u64;
        }
        level -= 1;
    }
    let addr: u64 = entry_addr(table, va, 0);
    set_pte(k, addr, leaf_pte(pa, pte_flags));
    Ok(())
}

/// Walk the page table rooted at `pgd_pa` and return the physical address of
/// `va`, or None if it is not mapped. Superpages are followed at any level.
pub fn va_to_pa(k: &Kernel, pgd_pa: u64, va: u64) -> (r: Option<u64>)
    ensures
        r == translated(k@.ptes, pgd_pa, va),
{
    let mut table: u64 = pgd_pa;
    let mut level: usize = 3;
    loop
        invariant
            level <= 3,
            translated_from(k@.ptes, table, va, level as nat) == translated(k@.ptes, pgd_pa, va),
        decreases level,
    {
        let pte: u64 = k.ptes.read(entry_addr(table, va, level));
        if pte & PTE_V == 0 {
            return None;
        }
        if pte & PTE_RWX != 0 {
            let mask: u64 = if level == 0 {
                0xfff
            } else if level == 1 {
                0x1f_ffff
            } else if level == 2 {
                0x3fff_ffff
            } else {
                0x7f_ffff_ffff
            };
            return Some(((pte >> 10u64) << 12u64) | (va & mask));
        }
        if level == 0 {
            return None;
        }
        table = (pte >> 10u64) << 12u64;
        level -= 1;
    }
}

/// A root with its first table, zeroed, and the shared entries of every
/// process: the boot user mirror, and `pud` entries for the kernel.
pub open spec fn root_made(s: State) -> (State, Option<(u64, u64)>) {
    let (s1, pgd) = page_taken(s);
    match pgd {
        None => (s1, None),
        Some(pgd_pa) => {
            let (s2, pud) = page_taken(s1);
            match pud {
                None => (s2, None),
                Some(pud_pa) => {
                    let s3 = crate::kernel::zeroed_range(s2, pgd_pa as int, pgd_pa + 4096);
                    let s4 = crate::kernel::zeroed_range(s3, pud_pa as int, pud_pa + 4096);
                    (s4, Some((pgd_pa, pud_pa)))
                },
            }
        },
    }
}

/// Taking a page without zeroing it.
pub open spec fn page_taken(s: State) -> (State, Option<u64>) {
    let (m, page) = crate::mm::pages_taken(s.mm, 0);
    (State { mm: m, ..s }, page)
}

fn make_root(k: &mut Kernel) -> (r: Option<(u64, u64)>)
    requires
        old(k).wf(),
    ensures
        final(k).wf(),
        (final(k)@, r) == root_made(old(k)@),
{
    let pgd_pa: u64 = match crate::mm::alloc_page(&mut k.mm) {
        Some(p) => p,
        None => {
            return None;
        },
    };
    let pud_pa: u64 = match crate::mm::alloc_page(&mut k.mm) {
        Some(p) => p,
        None => {
            return None;
        },
    };
    k.zero_range(pgd_pa, 4096);
    k.zero_range(pud_pa, 4096);
    Some((pgd_pa, pud_pa))
}

/// Creating an address space that runs from the user mirror: device registers
/// and kernel RAM as kernel-only superpages, and the shared user mirror.
pub open spec fn process_vspace_made(s: State) -> (State, Option<u64>) {
    let (s1, root) = root_made(s);
    match root {
        None => (s1, None),
        Some((pgd, pud)) => {
            let s2 = with_pte(s1, pud, leaf_entry(0, PTE_R | PTE_W));
            let s3 = with_pte(
                s2,
                pud.wrapping_add(16),
                leaf_entry(0x8000_0000, PTE_R | PTE_W | PTE_X),
            );
            let s4 = with_pte(s3, pgd, mmu::table_entry(pud));
            (with_pte(s4, pgd.wrapping_add(8), s4.boot_user_pte), Some(pgd))
        },
    }
}

/// Create a fresh address space for a user process on the user mirror.
pub fn create_process_vspace(k: &mut Kernel) -> (r: Option<u64>)
    requires
        old(k).wf(),
    ensures
        final(k).wf(),
        (final(k)@, r) == process_vspace_made(old(k)@),
{
    let (pgd, pud): (u64, u64) = match make_root(k) {
        Some(p) => p,
        None => {
            return None;
        },
    };
    set_pte(k, pud, leaf_pte(0, PTE_R | PTE_W));
    set_pte(k, pud.wrapping_add(16), leaf_pte(0x8000_0000, PTE_R | PTE_W | PTE_X));
    set_pte(k, pgd, table_pte(pud));
    let mirror: u64 = k.boot_user_pte;
    set_pte(k, pgd.wrapping_add(8), mirror);
    Some(pgd)
}

/// The device pages that the kernel touches in interrupt handlers.
pub open spec fn plic_mapped(s: State, pgd: u64) -> (State, bool) {
    let (s1, ok1) = mapped(s, pgd, 0x0c00_0000, 0x0c00_0000, PTE_R | PTE_W);
    if !ok1 {
        (s1, false)
    } else {
        let (s2, ok2) = mapped(s1, pgd, 0x0c00_2000, 0x0c00_2000, PTE_R | PTE_W);
        if !ok2 {
            (s2, false)
        } else {
            mapped(s2, pgd, 0x0c20_1000, 0x0c20_1000, PTE_R | PTE_W)
        }
    }
}

/// Creating an address space for separately loaded pages: kernel RAM as a
/// kernel-only superpage, the shared user mirror, and the interrupt-controller
/// pages.
pub open spec fn elf_vspace_made(s: State) -> (State, Option<u64>) {
    let (s1, root) = root_made(s);
    match root {
        None => (s1, None),
        Some((pgd, pud)) => {
            let s2 = with_pte(
                s1,
                pud.wrapping_add(16),
                leaf_entry(0x8000_0000, PTE_R | PTE_W | PTE_X),
            );
            let s3 = with_pte(s2, pgd, mmu::table_entry(pud));
            let s4 = with_pte(s3, pgd.wrapping_add(8), s3.boot_user_pte);
            let (s5, ok) = plic_mapped(s4, pgd);
            (
                s5,
                if ok {
                    Some(pgd)
                } else {
                    None
                },
            )
        },
    }
}

/// Create a fresh address space for loading a program image.
///
/// The caller maps the UART page (kernel-only) and the segments.
pub fn create_elf_vspace(k: &mut Kernel) -> (r: Option<u64>)
    requires
        old(k).wf(),
    ensures
        final(k).wf(),
        (final(k)@, r) == elf_vspace_made(old(k)@),
{
    let (pgd, pud): (u64, u64) = match make_root(k) {
        Some(p) => p,
        None => {
            return None;
        },
    };
    set_pte(k, pud.wrapping_add(16), leaf_pte(0x8000_0000, PTE_R | PTE_W | PTE_X));
    set_pte(k, pgd, table_pte(pud));
    let mirror: u64 = k.boot_user_pte;
    set_pte(k, pgd.wrapping_add(8), mirror);
    if map_page(k, pgd, 0x0c00_0000, 0x0c00_0000, PTE_R | PTE_W).is_err() {
        return None;
    }
    if map_page(k, pgd, 0x0c00_2000, 0x0c00_2000, PTE_R | PTE_W).is_err() {
        return None;
    }
    if map_page(k, pgd, 0x0c20_1000, 0x0c20_1000, PTE_R | PTE_W).is_err() {
        return None;
    }
    Some(pgd)
}

} // verus!
