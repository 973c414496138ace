//! clone: a child with a copy of its parent's memory.
//!
//! Every user page of the parent is copied, kernel-only pages are shared. The
//! kernel stack, which is also the user stack through the user mirror, is
//! copied too, and words that point into the parent's stack are moved to the
//! child's, so that stack pointer and frame pointers stay valid.
use crate::arch::riscv64::mmu::{PTE_U, PTE_V, USER_MIRROR_OFFSET};
use crate::arch::riscv64::trap::{self, TrapFrame};
use crate::arch::riscv64::vspace::{self, create_elf_vspace, map_page, pgd_to_satp, satp_to_pgd_pa, PTE_RWX};
use crate::arch::riscv64::walk;
use crate::bytes::{self, copied, read_u64, to_le_bytes};
use crate::fs::ramfs::{self, alloc_fd_table, FdTable};
use crate::kernel::{self, Kernel, State};
use crate::linux_compat::errno;
use crate::mm::{alloc_page, buddy};
use crate::objects;
use crate::sched;
use crate::thread::{self, create_linux_thread, Tcb, KSTACK_SIZE};
use vstd::prelude::*;

verus! {

/// Permission bits of an entry.
pub const PTE_FLAGS: u64 = 0x3ff;

/// Bytes that one entry of a table of `level` covers.
pub open spec fn span(level: nat) -> u64 {
    if level == 0 {
        0x1000
    } else if level == 1 {
        0x20_0000
    } else {
        0x4000_0000
    }
}

/// Copying the page behind the entry `pte` to `va` of another address space: a
/// user page is copied, a kernel-only page is shared.
pub open spec fn page_copied(s: State, pte: u64, va: u64, dst_pgd: u64) -> (State, bool) {
    if pte & PTE_V == 0 || pte & PTE_RWX == 0 {
        (s, true)
    } else if pte & PTE_U != 0 {
        let (s1, page) = vspace::page_taken(s);
        match page {
            None => (s1, false),
            Some(new) => {
                let data = kernel::loaded(s1.bytes, vspace::entry_pa(pte), 4096);
                vspace::mapped(
                    kernel::with_bytes(s1, new, data),
                    dst_pgd,
                    va,
                    new,
                    pte & PTE_FLAGS,
                )
            },
        }
    } else {
        vspace::mapped(s, dst_pgd, va, vspace::entry_pa(pte), pte & PTE_FLAGS)
    }
}

/// Copying what the table of `level` at `table` maps, from entry `i` on. The
/// table covers addresses from `va` on. Superpages above level 0 are shared by
/// every address space already.
pub open spec fn table_copied(s: State, table: u64, level: nat, va: u64, i: nat, dst_pgd: u64) -> (
    State,
    bool,
)
    decreases level, 512 - i,
{
    if i >= 512 {
        (s, true)
    } else {
        let pte = objects::at(s.ptes, table.wrapping_add((i * 8) as u64));
        let at = va.wrapping_add((i as u64).wrapping_mul(span(level)));
        let (s1, ok) = if level == 0 {
            page_copied(s, pte, at, dst_pgd)
        } else if pte & PTE_V == 0 || pte & PTE_RWX != 0 {
            (s, true)
        } else {
            table_copied(s, vspace::entry_pa(pte), (level - 1) as nat, at, 0, dst_pgd)
        };
        if ok {
            table_copied(s1, table, level, va, i + 1, dst_pgd)
        } else {
            (s1, false)
        }
    }
}

/// Copying everything below 2^39.
pub open spec fn user_pages_copied(s: State, src_pgd: u64, dst_pgd: u64) -> (State, bool) {
    let e = objects::at(s.ptes, src_pgd);
    if e & PTE_V == 0 {
        (s, true)
    } else {
        table_copied(s, vspace::entry_pa(e), 2, 0, 0, dst_pgd)
    }
}

fn copy_page(k: &mut Kernel, pte: u64, va: u64, dst_pgd: u64) -> (r: bool)
    requires
        old(k).wf(),
    ensures
        final(k).wf(),
        (final(k)@, r) == page_copied(old(k)@, pte, va, dst_pgd),
{
    if pte & PTE_V == 0 || pte & PTE_RWX == 0 {
        return true;
    }
    let src: u64 = (pte >> 10u64) << 12u64;
    if pte & PTE_U != 0 {
        match alloc_page(&mut k.mm) {
            None => false,
            Some(new) => {
                let data: Vec<u8> = k.read_bytes(src, 4096);
                k.write_bytes(new, &data);
                map_page(k, dst_pgd, va, new, pte & PTE_FLAGS).is_ok()
            },
        }
    } else {
        map_page(k, dst_pgd, va, src, pte & PTE_FLAGS).is_ok()
    }
}

fn copy_table(k: &mut Kernel, table: u64, level: usize, va: u64, dst_pgd: u64) -> (r: bool)
    requires
        old(k).wf(),
        level <= 2,
    ensures
        final(k).wf(),
        (final(k)@, r) == table_copied(old(k)@, table, level as nat, va, 0, dst_pgd),
    decreases level,
{
    let step: u64 = if level == 0 {
        0x1000
    } else if level == 1 {
        0x20_0000
    } else {
        0x4000_0000
    };
    let mut i: u64 = 0;
    while i < 512
        invariant
            k.wf(),
            i <= 512,
            level <= 2,
            step == span(level as nat),
            table_copied(k@, table, level as nat, va, i as nat, dst_pgd) == table_copied(
                old(k)@,
                table,
                level as nat,
                va,
                0,
                dst_pgd,
            ),
        decreases 512 - i,
    {
        let pte: u64 = k.ptes.read(table.wrapping_add(i * 8));
        let at: u64 = va.wrapping_add(i.wrapping_mul(step));
        let ok: bool = if level == 0 {
            copy_page(k, pte, at, dst_pgd)
        } else if pte & PTE_V == 0 || pte & PTE_RWX != 0 {
            true
        } else {
            copy_table(k, (pte >> 10u64) << 12u64, level - 1, at, dst_pgd)
        };
        if !ok {
            return false;
        }
        i += 1;
    }
    true
}

/// Copy every user page of `src_pgd` below 2^39 to `dst_pgd`.
pub fn copy_user_pages(k: &mut Kernel, src_pgd: u64, dst_pgd: u64) -> (r: bool)
    requires
        old(k).wf(),
    ensures
        final(k).wf(),
        (final(k)@, r) == user_pages_copied(old(k)@, src_pgd, dst_pgd),
{
    let e: u64 = k.ptes.read(src_pgd);
    if e & PTE_V == 0 {
        return true;
    }
    copy_table(k, (e >> 10u64) << 12u64, 2, 0, dst_pgd)
}

/// The 64-bit words of `b`, those in `[lo, hi)` moved by `delta`.
pub open spec fn rebased(b: Seq<u8>, lo: u64, hi: u64, delta: u64) -> Seq<u8>
    decreases b.len(),
{
    if b.len() < 8 {
        b
    } else {
        let w = bytes::le64(b, 0);
        let word = if lo <= w < hi {
            bytes::le_bytes(w.wrapping_add(delta) as nat, 8)
        } else {
            b.take(8)
        };
        word + rebased(b.skip(8), lo, hi, delta)
    }
}

fn rebase(b: &Vec<u8>, lo: u64, hi: u64, delta: u64) -> (r: Vec<u8>)
    ensures
        r@ == rebased(b@, lo, hi, delta),
{
    let mut out: Vec<u8> = Vec::new();
    let mut i: usize = 0;
    assert(b@.skip(0) =~= b@);
    assert(out@ + rebased(b@, lo, hi, delta) =~= rebased(b@, lo, hi, delta));
    while b.len() - i >= 8
        invariant
            i <= b@.len(),
            out@ + rebased(b@.skip(i as int), lo, hi, delta) == rebased(b@, lo, hi, delta),
        decreases b@.len() - i,
    {
        let ghost before = out@;
        let ghost rest = b@.skip(i as int);
        let w: u64 = read_u64(b, i);
        assert(w == bytes::le64(rest, 0));
        let mut word: Vec<u8> = if lo <= w && w < hi {
            to_le_bytes(w.wrapping_add(delta), 8)
        } else {
            let same: Vec<u8> = copied(b, i, i + 8);
            assert(same@ =~= rest.take(8));
            same
        };
        proof {
            let tail = rebased(rest.skip(8), lo, hi, delta);
            assert(before + (word@ + tail) =~= (before + word@) + tail);
            assert(rest.skip(8) =~= b@.skip(i + 8));
        }
        out.append(&mut word);
        i += 8;
    }
    let mut tail: Vec<u8> = copied(b, i, b.len());
    assert(tail@ =~= b@.skip(i as int));
    out.append(&mut tail);
    out
}

/// The descriptor table of a child: a copy of its parent's.
pub open spec fn fd_table_copied(s: State, cur: u64, child: u64) -> State {
    let from = kernel::tcb(s, cur).fd_table_pa;
    if from == 0 {
        s
    } else {
        let (s1, page) = kernel::page_made(s);
        match page {
            None => s1,
            Some(pa) => {
                let s2 = ramfs::with_fd_table(s1, pa, ramfs::fd_table(s1, from));
                kernel::with_tcb(s2, child, Tcb { fd_table_pa: pa, ..kernel::tcb(s2, child) })
            },
        }
    }
}

/// What a child takes over from its parent: heap, mappings and capabilities.
pub open spec fn inherited(c: Tcb, p: Tcb) -> Tcb {
    Tcb {
        brk_base: p.brk_base,
        brk_next: p.brk_next,
        brk_mapped: p.brk_mapped,
        mmap_bump: p.mmap_bump,
        cspace_pa: p.cspace_pa,
        cspace_sb: p.cspace_sb,
        ..c
    }
}

/// The stack of a child: the parent's, moved.
pub open spec fn stack_copied(s: State, from: u64, to: u64) -> State {
    let lo = (from + USER_MIRROR_OFFSET) as u64;
    let hi = (lo + KSTACK_SIZE) as u64;
    let data = kernel::loaded(s.bytes, from, KSTACK_SIZE as nat);
    kernel::with_bytes(s, to, rebased(data, lo, hi, to.wrapping_sub(from)))
}

/// The context a child starts with: the parent's with result 0, on its own
/// stack.
pub open spec fn child_frame(f: TrapFrame, delta: u64) -> TrapFrame {
    trap::with_x(trap::with_x(f, 10, 0), 2, f.x[2].wrapping_add(delta))
}

/// Filling in the new thread `child` of the current thread and making it
/// runnable.
pub open spec fn child_started(s: State, cur: u64, child: u64, f: TrapFrame) -> (State, i64) {
    let c = kernel::tcb(s, child);
    let from = kernel::tcb(s, cur).kstack_pa;
    let s1 = kernel::with_tcb(s, child, inherited(c, kernel::tcb(s, cur)));
    let s2 = stack_copied(fd_table_copied(s1, cur, child), from, c.kstack_pa);
    let s3 = kernel::with_tcb(
        s2,
        child,
        Tcb {
            frame: child_frame(f, c.kstack_pa.wrapping_sub(from)),
            ..kernel::tcb(s2, child)
        },
    );
    (sched::enqueued(s3, child, 0), c.pid as i64)
}

/// clone(flags): the process number of the child.
pub open spec fn clone_called(s: State, flags: u64, f: TrapFrame) -> (State, i64) {
    let cur = sched::current(s);
    if flags & errno::CLONE_VM != 0 {
        (s, errno::ENOSYS)
    } else if cur == 0 {
        (s, errno::ENOMEM)
    } else {
        let src_pgd = vspace::pgd_of(kernel::tcb(s, cur).satp);
        let (s1, pgd) = vspace::elf_vspace_made(s);
        match pgd {
            None => (s1, errno::ENOMEM),
            Some(pgd) => {
                let (s2, ok) = user_pages_copied(s1, src_pgd, pgd);
                if !ok {
                    (s2, errno::ENOMEM)
                } else {
                    let (s3, child) = thread::linux_thread_made(s2, 0, vspace::satp_of(pgd), cur);
                    match child {
                        None => (s3, errno::ENOMEM),
                        Some(child) => child_started(s3, cur, child, f),
                    }
                }
            },
        }
    }
}

fn copy_fd_table(k: &mut Kernel, cur: u64, child: u64)
    requires
        old(k).wf(),
    ensures
        final(k).wf(),
        final(k)@ == fd_table_copied(old(k)@, cur, child),
{
    let from: u64 = k.tcb(cur).fd_table_pa;
    if from != 0 {
        if let Some(pa) = alloc_fd_table(k) {
            let table: FdTable = k.fd_tables.read(from);
            k.fd_tables.write(pa, table);
            let mut c: Tcb = k.tcb(child);
            c.fd_table_pa = pa;
            k.set_tcb(child, c);
        }
    }
}

fn copy_stack(k: &mut Kernel, from: u64, to: u64)
    requires
        old(k).wf(),
        from + KSTACK_SIZE + USER_MIRROR_OFFSET <= u64::MAX,
    ensures
        final(k).wf(),
        final(k)@ == stack_copied(old(k)@, from, to),
{
    let data: Vec<u8> = k.read_bytes(from, KSTACK_SIZE);
    let lo: u64 = from + USER_MIRROR_OFFSET;
    let moved: Vec<u8> = rebase(&data, lo, lo + KSTACK_SIZE, to.wrapping_sub(from));
    k.write_bytes(to, &moved);
}

fn start_child(k: &mut Kernel, cur: u64, child: u64, frame: &TrapFrame) -> (r: i64)
    requires
        old(k).wf(),
    ensures
        final(k).wf(),
        (final(k)@, r) == child_started(old(k)@, cur, child, *frame),
{
    let p: Tcb = k.tcb(cur);
    let mut c: Tcb = k.tcb(child);
    let pid: u64 = c.pid;
    let from: u64 = p.kstack_pa;
    let to: u64 = c.kstack_pa;
    c.brk_base = p.brk_base;
    c.brk_next = p.brk_next;
    c.brk_mapped = p.brk_mapped;
    c.mmap_bump = p.mmap_bump;
    c.cspace_pa = p.cspace_pa;
    c.cspace_sb = p.cspace_sb;
    k.set_tcb(child, c);
    copy_fd_table(k, cur, child);
    copy_stack(k, from, to);
    let delta: u64 = to.wrapping_sub(from);
    let mut c: Tcb = k.tcb(child);
    let mut f: TrapFrame = *frame;
    f.set_a0(0);
    f.x[2] = frame.x[2].wrapping_add(delta);
    assert(f.x =~= child_frame(*frame, delta).x);
    c.frame = f;
    k.set_tcb(child, c);
    sched::enqueue(k, child, 0);
    pid as i64
}

/// Create a child process. Only fork-style clones are supported.
pub fn sys_clone(k: &mut Kernel, flags: u64, frame: &TrapFrame) -> (r: i64)
    requires
        old(k).wf(),
    ensures
        final(k).wf(),
        (final(k)@, r) == clone_called(old(k)@, flags, *frame),
{
    if flags & errno::CLONE_VM != 0 {
        return errno::ENOSYS;
    }
    let cur: u64 = sched::current_pa(k);
    if cur == 0 {
        return errno::ENOMEM;
    }
    let src_pgd: u64 = satp_to_pgd_pa(k.tcb(cur).satp);
    let pgd: u64 = match create_elf_vspace(k) {
        Some(p) => p,
        None => {
            return errno::ENOMEM;
        },
    };
    if !copy_user_pages(k, src_pgd, pgd) {
        return errno::ENOMEM;
    }
    match create_linux_thread(k, 0, pgd_to_satp(pgd), cur) {
        None => errno::ENOMEM,
        Some(child) => start_child(k, cur, child, frame),
    }
}

/// A user page that was copied holds what the page it was copied from held.
pub proof fn law_copied_page_equal(s: State, pte: u64, va: u64, dst_pgd: u64)
    requires
        buddy::lists_ok(s.mm.lists),
        pte & PTE_V != 0,
        pte & PTE_RWX != 0,
        pte & PTE_U != 0,
    ensures
        page_copied(s, pte, va, dst_pgd) matches (s1, true) ==> vspace::page_taken(s).1 matches Some(
            new,
        ) && kernel::loaded(s1.bytes, new, 4096) == kernel::loaded(
            s.bytes,
            vspace::entry_pa(pte),
            4096,
        ),
{
    let (s1, page) = vspace::page_taken(s);
    if let Some(new) = page {
        let data = kernel::loaded(s1.bytes, vspace::entry_pa(pte), 4096);
        let s2 = kernel::with_bytes(s1, new, data);
        kernel::lemma_page_made(s);
        let s3 = vspace::mapped(s2, dst_pgd, va, new, pte & PTE_FLAGS).0;
        let got = kernel::loaded(s3.bytes, new, 4096);
        assert forall|i: int| 0 <= i < 4096 implies got[i] == data[i] by {
            let a = (new + i) as u64;
            kernel::lemma_stored(s1.bytes, new, data, a);
            walk::law_mapping_keeps_contents(s2, dst_pgd, va, new, pte & PTE_FLAGS, a);
        }
        assert(got =~= data);
    }
}

} // verus!
