//! Sv48 boot page tables.
//!
//! Three tables map the machine before any allocator exists: the root, a table
//! with 1 GiB superpages for device registers and kernel RAM, and a table that
//! mirrors kernel RAM at `USER_MIRROR_OFFSET` for U-mode.
use vstd::prelude::*;

verus! {

pub const PTE_V: u64 = 0x01;

pub const PTE_R: u64 = 0x02;

pub const PTE_W: u64 = 0x04;

pub const PTE_X: u64 = 0x08;

pub const PTE_U: u64 = 0x10;

pub const PTE_G: u64 = 0x20;

pub const PTE_A: u64 = 0x40;

pub const PTE_D: u64 = 0x80;

/// MODE = Sv48 in satp.
pub const SATP_SV48: u64 = 0x9000_0000_0000_0000;

/// SUM in sstatus: S-mode may access user pages.
pub const SSTATUS_SUM: u64 = 0x4_0000;

/// Added to the entry points and stacks of U-mode threads that run from the
/// mirror of kernel RAM.
pub const USER_MIRROR_OFFSET: u64 = 0x80_0000_0000;

pub const ENTRIES: usize = 512;

/// Entry that points to the next-level table at `pa`.
pub open spec fn table_entry(pa: u64) -> u64 {
    (pa >> 12u64 << 10u64) | PTE_V
}

/// Global leaf entry for the page or superpage at `pa`.
pub open spec fn boot_leaf(pa: u64, flags: u64) -> u64 {
    (pa >> 12u64 << 10u64) | PTE_V | PTE_A | PTE_D | PTE_G | flags
}

pub fn table_pte(pa: u64) -> (r: u64)
    ensures
        r == table_entry(pa),
{
    (pa >> 12u64 << 10u64) | PTE_V
}

fn leaf_pte(pa: u64, flags: u64) -> (r: u64)
    ensures
        r == boot_leaf(pa, flags),
{
    (pa >> 12u64 << 10u64) | PTE_V | PTE_A | PTE_D | PTE_G | flags
}

/// One entry of the boot tables.
#[derive(Clone, Copy, Debug, PartialEq, Eq, Structural)]
pub struct BootEntry {
    /// Physical address of the table.
    pub table: u64,
    pub index: u64,
    pub pte: u64,
}

/// What turning paging on takes: the entries to write, then the registers.
pub struct BootPaging {
    pub entries: [BootEntry; 5],
    /// Bits to set in sstatus before satp is written.
    pub sstatus_set: u64,
    pub satp: u64,
}

/// The entries of the boot tables: the kernel's own mapping, and the user mirror.
pub open spec fn boot_entries(pgd_pa: u64, pud_low_pa: u64, pud_user_pa: u64) -> Seq<BootEntry> {
    seq![
        BootEntry { table: pgd_pa, index: 0, pte: table_entry(pud_low_pa) },
        BootEntry { table: pud_low_pa, index: 0, pte: boot_leaf(0, PTE_R | PTE_W) },
        BootEntry {
            table: pud_low_pa,
            index: 2,
            pte: boot_leaf(0x8000_0000, PTE_R | PTE_W | PTE_X),
        },
        BootEntry { table: pgd_pa, index: 1, pte: table_entry(pud_user_pa) },
        BootEntry {
            table: pud_user_pa,
            index: 2,
            pte: boot_leaf(0x8000_0000, PTE_R | PTE_W | PTE_X | PTE_U),
        },
    ]
}

/// Lay out the boot mapping for tables at the given addresses: device registers
/// and kernel RAM one to one for the kernel alone, kernel RAM again at the user
/// mirror for U-mode.
pub fn enable_paging(pgd_pa: u64, pud_low_pa: u64, pud_user_pa: u64) -> (r: BootPaging)
    ensures
        r.entries@ == boot_entries(pgd_pa, pud_low_pa, pud_user_pa),
        r.sstatus_set == SSTATUS_SUM,
        r.satp == SATP_SV48 | (pgd_pa >> 12),
{
    let entries: [BootEntry; 5] = [
        BootEntry { table: pgd_pa, index: 0, pte: table_pte(pud_low_pa) },
        BootEntry { table: pud_low_pa, index: 0, pte: leaf_pte(0, PTE_R | PTE_W) },
        BootEntry {
            table: pud_low_pa,
            index: 2,
            pte: leaf_pte(0x8000_0000, PTE_R | PTE_W | PTE_X),
        },
        BootEntry { table: pgd_pa, index: 1, pte: table_pte(pud_user_pa) },
        BootEntry {
            table: pud_user_pa,
            index: 2,
            pte: leaf_pte(0x8000_0000, PTE_R | PTE_W | PTE_X | PTE_U),
        },
    ];
    let r = BootPaging { entries, sstatus_set: SSTATUS_SUM, satp: SATP_SV48 | (pgd_pa >> 12) };
    assert(r.entries@ =~= boot_entries(pgd_pa, pud_low_pa, pud_user_pa));
    r
}

/// The entry of the boot root that maps the user mirror, shared by every
/// process.
pub fn boot_pgd_user_pte(pud_user_pa: u64) -> (r: u64)
    ensures
        r == table_entry(pud_user_pa),
{
    table_pte(pud_user_pa)
}

/// `satp` selects Sv48.
pub fn assert_sv48_active(satp: u64) -> (r: bool)
    ensures
        r == (satp >> 60 == 9),
{
    satp >> 60 == 9
}

} // verus!
