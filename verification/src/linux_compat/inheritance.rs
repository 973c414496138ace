//! What a child of clone has from its parent.
use crate::arch::riscv64::mmu;
use crate::arch::riscv64::trap::TrapFrame;
use crate::arch::riscv64::vspace;
use crate::fs::ramfs;
use crate::kernel::{self, State};
use crate::linux_compat::{errno, fork};
use crate::mm::{self, buddy, cells, occupancy, slab};
use crate::objects;
use crate::sched;
use crate::thread::{self, Tcb};
use vstd::prelude::*;

verus! {

/// What is in use stays as it is.
pub proof fn lemma_mapped_keeps(s: State, table: u64, va: u64, pa: u64, flags: u64, level: nat, a: u64)
    requires
        cells::cells_ok(s.mm),
        occupancy::in_use(s.mm, a),
    ensures
        ({
            let s1 = vspace::mapped_from(s, table, va, pa, flags, level).0;
            occupancy::kept(s, s1, a) && cells::cells_ok(s1.mm)
        }),
    decreases level,
{
    let addr = vspace::entry_at(table, va, level);
    let entry = objects::at(s.ptes, addr);
    if level > 0 {
        if entry & mmu::PTE_V == 0 {
            let (s1, page) = kernel::page_made(s);
            occupancy::lemma_page_made_keeps(s, a);
            if let Some(new) = page {
                let s2 = vspace::with_pte(s1, addr, mmu::table_entry(new));
                lemma_mapped_keeps(s2, new, va, pa, flags, (level - 1) as nat, a);
            }
        } else {
            lemma_mapped_keeps(s, vspace::entry_pa(entry), va, pa, flags, (level - 1) as nat, a);
        }
    }
}

proof fn lemma_page_taken_keeps(s: State, a: u64)
    requires
        cells::cells_ok(s.mm),
        occupancy::in_use(s.mm, a),
    ensures
        ({
            let (s1, page) = vspace::page_taken(s);
            &&& occupancy::kept(s, s1, a)
            &&& cells::cells_ok(s1.mm)
            &&& page matches Some(pa) ==> !(pa <= a < pa + 4096)
        }),
{
    occupancy::lemma_pages_taken(s.mm, 0, a);
    buddy::lemma_order_table(0);
}

/// What is in use stays as it is.
pub proof fn lemma_zeroed_keeps(s: State, lo: int, hi: int, a: u64)
    requires
        occupancy::in_use(s.mm, a),
        !(lo <= a < hi),
    ensures
        occupancy::kept(s, kernel::zeroed_range(s, lo, hi), a),
{
}

proof fn lemma_plic_keeps(s: State, pgd: u64, a: u64)
    requires
        cells::cells_ok(s.mm),
        occupancy::in_use(s.mm, a),
    ensures
        ({
            let s1 = vspace::plic_mapped(s, pgd).0;
            occupancy::kept(s, s1, a) && cells::cells_ok(s1.mm)
        }),
{
    let rw = mmu::PTE_R | mmu::PTE_W;
    lemma_mapped_keeps(s, pgd, 0x0c00_0000, 0x0c00_0000, rw, 3, a);
    let s1 = vspace::mapped(s, pgd, 0x0c00_0000, 0x0c00_0000, rw).0;
    lemma_mapped_keeps(s1, pgd, 0x0c00_2000, 0x0c00_2000, rw, 3, a);
    let s2 = vspace::mapped(s1, pgd, 0x0c00_2000, 0x0c00_2000, rw).0;
    lemma_mapped_keeps(s2, pgd, 0x0c20_1000, 0x0c20_1000, rw, 3, a);
}

/// Making an address space keeps what is in use.
pub proof fn lemma_vspace_keeps(s: State, a: u64)
    requires
        cells::cells_ok(s.mm),
        occupancy::in_use(s.mm, a),
    ensures
        ({
            let s1 = vspace::elf_vspace_made(s).0;
            occupancy::kept(s, s1, a) && cells::cells_ok(s1.mm)
        }),
{
    let (s1, pgd) = vspace::page_taken(s);
    lemma_page_taken_keeps(s, a);
    if let Some(p) = pgd {
        let (s2, pud) = vspace::page_taken(s1);
        lemma_page_taken_keeps(s1, a);
        if let Some(d) = pud {
            lemma_zeroed_keeps(s2, p as int, p + 4096, a);
            let s3 = kernel::zeroed_range(s2, p as int, p + 4096);
            lemma_zeroed_keeps(s3, d as int, d + 4096, a);
            let s4 = kernel::zeroed_range(s3, d as int, d + 4096);
            let s5 = vspace::with_pte(
                s4,
                d.wrapping_add(16),
                vspace::leaf_entry(0x8000_0000, mmu::PTE_R | mmu::PTE_W | mmu::PTE_X),
            );
            let s6 = vspace::with_pte(s5, p, mmu::table_entry(d));
            let s7 = vspace::with_pte(s6, p.wrapping_add(8), s6.boot_user_pte);
            assert(occupancy::kept(s, s7, a));
            lemma_plic_keeps(s7, p, a);
        }
    }
}

proof fn lemma_page_copied_keeps(s: State, pte: u64, va: u64, dst: u64, a: u64)
    requires
        cells::cells_ok(s.mm),
        occupancy::in_use(s.mm, a),
    ensures
        ({
            let s1 = fork::page_copied(s, pte, va, dst).0;
            occupancy::kept(s, s1, a) && cells::cells_ok(s1.mm)
        }),
{
    let (s1, page) = vspace::page_taken(s);
    lemma_page_taken_keeps(s, a);
    if let Some(new) = page {
        let data = kernel::loaded(s1.bytes, vspace::entry_pa(pte), 4096);
        let s2 = kernel::with_bytes(s1, new, data);
        lemma_mapped_keeps(s2, dst, va, new, pte & fork::PTE_FLAGS, 3, a);
    }
    lemma_mapped_keeps(s, dst, va, vspace::entry_pa(pte), pte & fork::PTE_FLAGS, 3, a);
}

proof fn lemma_table_copied_keeps(
    s: State,
    table: u64,
    level: nat,
    va: u64,
    i: nat,
    dst: u64,
    a: u64,
)
    requires
        cells::cells_ok(s.mm),
        occupancy::in_use(s.mm, a),
    ensures
        ({
            let s1 = fork::table_copied(s, table, level, va, i, dst).0;
            occupancy::kept(s, s1, a) && cells::cells_ok(s1.mm)
        }),
    decreases level, 512 - i,
{
    if i < 512 {
        let pte = objects::at(s.ptes, table.wrapping_add((i * 8) as u64));
        let at = va.wrapping_add((i as u64).wrapping_mul(fork::span(level)));
        if level == 0 {
            lemma_page_copied_keeps(s, pte, at, dst, a);
            let s1 = fork::page_copied(s, pte, at, dst).0;
            lemma_table_copied_keeps(s1, table, level, va, i + 1, dst, a);
        } else {
            lemma_table_copied_keeps(s, table, level, va, i + 1, dst, a);
            let below = (level - 1) as nat;
            lemma_table_copied_keeps(s, vspace::entry_pa(pte), below, at, 0, dst, a);
            let s1 = fork::table_copied(s, vspace::entry_pa(pte), below, at, 0, dst).0;
            lemma_table_copied_keeps(s1, table, level, va, i + 1, dst, a);
        }
    }
}

/// A new thread is at an address that was not in use, and what was stays.
pub proof fn lemma_thread_keeps(s: State, entry: u64, satp: u64, parent: u64, a: u64)
    requires
        cells::cells_ok(s.mm),
        occupancy::in_use(s.mm, a),
    ensures
        ({
            let (s1, t) = thread::linux_thread_made(s, entry, satp, parent);
            t matches Some(pa) ==> {
                &&& occupancy::kept(s, s1, a)
                &&& cells::cells_ok(s1.mm)
                &&& pa != a
                &&& occupancy::in_use(s1.mm, pa)
                &&& kernel::tcb(s1, pa).fd_table_pa == 0
                &&& kernel::tcb(s1, pa).parent_pa == parent
                &&& kernel::tcb(s1, pa).linux_compat
                &&& kernel::tcb(s1, pa).satp == satp
                &&& kernel::tcb(s1, pa).pid == s.next_pid
                &&& kernel::tcb(s1, pa).frame.sepc == entry
                &&& kernel::tcb(s1, pa).kstack_pa % 16384 == 0
                &&& kernel::tcb(s1, pa).kstack_pa + thread::KSTACK_SIZE <= buddy::PA_LIMIT
                &&& s1.threads == s.threads.push(pa)
            }
        }),
{
    let (m, stack) = mm::pages_taken(s.mm, thread::KSTACK_ORDER as nat);
    occupancy::lemma_pages_taken(s.mm, thread::KSTACK_ORDER as nat, a);
    buddy::lemma_order_table(thread::KSTACK_ORDER as nat);
    if let Some(kstack) = stack {
        let s0 = State { mm: m, ..s };
        occupancy::lemma_cell_taken(m, thread::TCB_BYTES as int, a);
        let (s1, cell) = kernel::cell_made(s0, thread::TCB_BYTES as int);
        if let Some(pa) = cell {
            assert(slab::class_for(thread::TCB_BYTES as int) is Some);
            lemma_zeroed_keeps(s1, kstack as int, kstack + thread::KSTACK_SIZE, a);
        }
    }
}

/// The child of clone: the newest thread.
pub open spec fn child_of(s: State) -> u64 {
    s.threads.last()
}

/// Copying the descriptor table of thread `cur` to thread `child`.
proof fn lemma_fd_table_copied(s: State, cur: u64, child: u64)
    requires
        cells::cells_ok(s.mm),
        child != cur,
        occupancy::in_use(s.mm, cur),
        occupancy::in_use(s.mm, child),
        kernel::tcb(s, cur).fd_table_pa != 0 ==> occupancy::in_use(
            s.mm,
            kernel::tcb(s, cur).fd_table_pa,
        ),
        kernel::tcb(s, child).fd_table_pa == 0,
    ensures
        ({
            let from = kernel::tcb(s, cur).fd_table_pa;
            let s1 = fork::fd_table_copied(s, cur, child);
            let c = kernel::tcb(s1, child);
            &&& kernel::tcb(s1, cur) == kernel::tcb(s, cur)
            &&& c == (Tcb { fd_table_pa: c.fd_table_pa, ..kernel::tcb(s, child) })
            &&& from == 0 ==> c.fd_table_pa == 0
            &&& from != 0 && c.fd_table_pa == 0 ==> kernel::page_made(s1).1 is None
            &&& from != 0 && c.fd_table_pa != 0 ==> {
                &&& c.fd_table_pa != from
                &&& ramfs::fd_table(s1, c.fd_table_pa) == ramfs::fd_table(s, from)
                &&& ramfs::fd_table(s1, from) == ramfs::fd_table(s, from)
            }
            &&& s1.threads == s.threads
        }),
{
    let from = kernel::tcb(s, cur).fd_table_pa;
    if from != 0 {
        occupancy::lemma_page_made_keeps(s, cur);
        occupancy::lemma_page_made_keeps(s, child);
        occupancy::lemma_page_made_keeps(s, from);
    }
}

/// A child has a copy of its parent's descriptor table, of its own: every open
/// file with its position and flags, and the working directory. It has none only
/// where the parent has none, or where no page is left for it. The parent keeps
/// its table.
pub proof fn law_child_has_files(s: State, flags: u64, f: TrapFrame, fd: u64)
    requires
        cells::cells_ok(s.mm),
        sched::current(s) != 0,
        occupancy::in_use(s.mm, sched::current(s)),
        kernel::tcb(s, sched::current(s)).fd_table_pa != 0,
        occupancy::in_use(s.mm, kernel::tcb(s, sched::current(s)).fd_table_pa),
    ensures
        ({
            let parent = kernel::tcb(s, sched::current(s)).fd_table_pa;
            let (s1, r) = fork::clone_called(s, flags, f);
            let table = kernel::tcb(s1, child_of(s1)).fd_table_pa;
            r >= 0 ==> {
                &&& table != 0 ==> {
                    &&& table != parent
                    &&& ramfs::fd_entry(s1, table, fd) == ramfs::fd_entry(s, parent, fd)
                    &&& ramfs::cwd_of(ramfs::fd_table(s1, table)) == ramfs::cwd_of(
                        ramfs::fd_table(s, parent),
                    )
                    &&& ramfs::fd_entry(s1, parent, fd) == ramfs::fd_entry(s, parent, fd)
                }
                &&& table == 0 ==> kernel::page_made(s1).1 is None
            }
        }),
{
    let cur = sched::current(s);
    let from = kernel::tcb(s, cur).fd_table_pa;
    if flags & errno::CLONE_VM == 0 {
        let src = vspace::pgd_of(kernel::tcb(s, cur).satp);
        let (s1, pgd) = vspace::elf_vspace_made(s);
        lemma_vspace_keeps(s, cur);
        lemma_vspace_keeps(s, from);
        if let Some(p) = pgd {
            let (s2, ok) = fork::user_pages_copied(s1, src, p);
            let e = objects::at(s1.ptes, src);
            lemma_table_copied_keeps(s1, vspace::entry_pa(e), 2, 0, 0, p, cur);
            lemma_table_copied_keeps(s1, vspace::entry_pa(e), 2, 0, 0, p, from);
            if ok {
                let (s3, child) = thread::linux_thread_made(s2, 0, vspace::satp_of(p), cur);
                lemma_thread_keeps(s2, 0, vspace::satp_of(p), cur, cur);
                lemma_thread_keeps(s2, 0, vspace::satp_of(p), cur, from);
                if let Some(c) = child {
                    lemma_started(s3, cur, c, f);
                }
            }
        }
    }
}

/// Starting the child.
proof fn lemma_started(s: State, cur: u64, child: u64, f: TrapFrame)
    requires
        cells::cells_ok(s.mm),
        child != cur,
        occupancy::in_use(s.mm, cur),
        occupancy::in_use(s.mm, child),
        kernel::tcb(s, cur).fd_table_pa != 0,
        occupancy::in_use(s.mm, kernel::tcb(s, cur).fd_table_pa),
        kernel::tcb(s, child).fd_table_pa == 0,
        s.threads.len() > 0,
        s.threads.last() == child,
    ensures
        ({
            let from = kernel::tcb(s, cur).fd_table_pa;
            let (s1, r) = fork::child_started(s, cur, child, f);
            let table = kernel::tcb(s1, child).fd_table_pa;
            &&& child_of(s1) == child
            &&& table != 0 ==> {
                &&& table != from
                &&& ramfs::fd_table(s1, table) == ramfs::fd_table(s, from)
                &&& ramfs::fd_table(s1, from) == ramfs::fd_table(s, from)
            }
            &&& table == 0 ==> kernel::page_made(s1).1 is None
        }),
{
    let c = kernel::tcb(s, child);
    let s1 = kernel::with_tcb(s, child, fork::inherited(c, kernel::tcb(s, cur)));
    lemma_fd_table_copied(s1, cur, child);
    let s2 = fork::fd_table_copied(s1, cur, child);
    let s3 = fork::stack_copied(s2, kernel::tcb(s, cur).kstack_pa, c.kstack_pa);
    assert(s3.tcbs == s2.tcbs && s3.fd_tables == s2.fd_tables && s3.mm == s2.mm);
    let s4 = kernel::with_tcb(
        s3,
        child,
        Tcb {
            frame: fork::child_frame(
                f,
                c.kstack_pa.wrapping_sub(kernel::tcb(s, cur).kstack_pa),
            ),
            ..kernel::tcb(s3, child)
        },
    );
    let s5 = sched::enqueued(s4, child, 0);
    assert(s5.fd_tables == s2.fd_tables && s5.mm == s2.mm && s5.threads == s.threads);
}

} // verus!
