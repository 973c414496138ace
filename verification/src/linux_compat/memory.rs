//! Heap and anonymous mappings.
use crate::arch::riscv64::mmu::{PTE_R, PTE_U, PTE_W};
use crate::arch::riscv64::vspace::{self, map_page, satp_to_pgd_pa};
use crate::kernel::{self, fresh_page, Kernel, State};
use crate::linux_compat::errno;
use crate::sched;
use crate::thread::Tcb;
use vstd::prelude::*;

verus! {

/// Anonymous mappings without a hint start here.
pub const MMAP_BASE: u64 = 0x4000_0000;

/// Readable and writable by the user.
pub const USER_DATA: u64 = 0x16;

/// `x` rounded up to a page boundary, modulo the word size.
pub open spec fn page_up(x: u64) -> u64 {
    let y = x.wrapping_add(4095);
    (y - y % 4096) as u64
}

fn round_up(x: u64) -> (r: u64)
    ensures
        r == page_up(x),
        r % 4096 == 0,
{
    let y: u64 = x.wrapping_add(4095);
    y - y % 4096
}

/// Mapping a zeroed page at `va`.
pub open spec fn zero_page_mapped(s: State, pgd: u64, va: u64) -> (State, bool) {
    let (s1, page) = kernel::page_made(s);
    match page {
        None => (s1, false),
        Some(pa) => vspace::mapped(s1, pgd, va, pa, USER_DATA),
    }
}

fn map_zero_page(k: &mut Kernel, pgd: u64, va: u64) -> (r: bool)
    requires
        old(k).wf(),
    ensures
        final(k).wf(),
        (final(k)@, r) == zero_page_mapped(old(k)@, pgd, va),
{
    match fresh_page(k) {
        None => false,
        Some(pa) => {
            assert(USER_DATA == PTE_R | PTE_W | PTE_U) by (bit_vector);
            map_page(k, pgd, va, pa, PTE_R | PTE_W | PTE_U).is_ok()
        },
    }
}

/// Mapping pages from `from` up to `to`, as far as memory goes. Returns the end
/// of what is mapped.
pub open spec fn heap_grown(s: State, pgd: u64, from: u64, to: u64) -> (State, u64)
    decreases
            if from < to {
                to - from
            } else {
                0
            },
{
    if from >= to {
        (s, from)
    } else {
        let (s1, ok) = zero_page_mapped(s, pgd, from);
        if ok && from + 4096 <= u64::MAX {
            heap_grown(s1, pgd, (from + 4096) as u64, to)
        } else {
            (s1, from)
        }
    }
}

/// brk(addr): the end of the heap after growing it up to `addr`.
pub open spec fn brk_called(s: State, addr: u64) -> (State, i64) {
    let cur = sched::current(s);
    let t = kernel::tcb(s, cur);
    if cur == 0 {
        (s, errno::ENOMEM)
    } else if addr == 0 || addr <= t.brk_base {
        (s, t.brk_next as i64)
    } else {
        let (s1, end) = heap_grown(s, vspace::pgd_of(t.satp), t.brk_mapped, page_up(addr));
        let next = if addr < end {
            addr
        } else {
            end
        };
        (
            kernel::with_tcb(
                s1,
                cur,
                Tcb { brk_mapped: end, brk_next: next, ..kernel::tcb(s1, cur) },
            ),
            next as i64,
        )
    }
}

pub fn sys_brk(k: &mut Kernel, addr: u64) -> (r: i64)
    requires
        old(k).wf(),
    ensures
        final(k).wf(),
        (final(k)@, r) == brk_called(old(k)@, addr),
{
    let cur: u64 = sched::current_pa(k);
    if cur == 0 {
        return errno::ENOMEM;
    }
    let t: Tcb = k.tcb(cur);
    if addr == 0 || addr <= t.brk_base {
        return t.brk_next as i64;
    }
    let up: u64 = round_up(addr);
    let pgd: u64 = satp_to_pgd_pa(t.satp);
    let mut end: u64 = t.brk_mapped;
    while end < up
        invariant_except_break
            k.wf(),
            up % 4096 == 0,
            heap_grown(k@, pgd, end, up) == heap_grown(old(k)@, pgd, t.brk_mapped, up),
        ensures
            k.wf(),
            heap_grown(old(k)@, pgd, t.brk_mapped, up) == (k@, end),
        decreases
            if end < up {
                up - end
            } else {
                0
            },
    {
        if !map_zero_page(k, pgd, end) {
            break;
        }
        end += 4096;
    }
    let next: u64 = if addr < end {
        addr
    } else {
        end
    };
    let mut t: Tcb = k.tcb(cur);
    t.brk_mapped = end;
    t.brk_next = next;
    k.set_tcb(cur, t);
    next as i64
}

/// Mapping `n` zeroed pages from `va` on.
pub open spec fn pages_mapped(s: State, pgd: u64, va: u64, n: nat) -> (State, bool)
    decreases n,
{
    if n == 0 {
        (s, true)
    } else {
        let (s1, ok) = zero_page_mapped(s, pgd, va);
        if ok {
            pages_mapped(s1, pgd, va.wrapping_add(4096), (n - 1) as nat)
        } else {
            (s1, false)
        }
    }
}

/// Anonymous mmap of `length` bytes at `hint`, or at the next free address of
/// the process where there is no hint.
pub open spec fn mmap_called(s: State, hint: u64, length: u64) -> (State, i64) {
    let cur = sched::current(s);
    if length == 0 {
        (s, errno::EINVAL)
    } else if cur == 0 {
        (s, errno::ENOMEM)
    } else {
        let t0 = kernel::tcb(s, cur);
        let s1 = if t0.mmap_bump == 0 {
            kernel::with_tcb(s, cur, Tcb { mmap_bump: MMAP_BASE, ..t0 })
        } else {
            s
        };
        let t = kernel::tcb(s1, cur);
        let n = page_up(length) / 4096;
        let va = if hint != 0 {
            page_up(hint)
        } else {
            t.mmap_bump
        };
        let (s2, ok) = pages_mapped(s1, vspace::pgd_of(t.satp), va, n as nat);
        if !ok {
            (s2, errno::ENOMEM)
        } else if hint != 0 {
            (s2, va as i64)
        } else {
            (
                kernel::with_tcb(
                    s2,
                    cur,
                    Tcb {
                        mmap_bump: va.wrapping_add(n.wrapping_mul(4096)),
                        ..kernel::tcb(s2, cur)
                    },
                ),
                va as i64,
            )
        }
    }
}

pub fn sys_mmap_anon(k: &mut Kernel, hint: u64, length: u64) -> (r: i64)
    requires
        old(k).wf(),
    ensures
        final(k).wf(),
        (final(k)@, r) == mmap_called(old(k)@, hint, length),
{
    if length == 0 {
        return errno::EINVAL;
    }
    let cur: u64 = sched::current_pa(k);
    if cur == 0 {
        return errno::ENOMEM;
    }
    let n: u64 = round_up(length) / 4096;
    let mut t: Tcb = k.tcb(cur);
    if t.mmap_bump == 0 {
        t.mmap_bump = MMAP_BASE;
        k.set_tcb(cur, t);
    }
    let va: u64 = if hint != 0 {
        round_up(hint)
    } else {
        t.mmap_bump
    };
    let pgd: u64 = satp_to_pgd_pa(t.satp);
    let ghost s1 = k@;
    let mut at: u64 = va;
    let mut i: u64 = 0;
    #[verifier::loop_isolation(false)]
    while i < n
        invariant
            k.wf(),
            i <= n,
            n < 0x10_0000_0000_0000,
            at == va.wrapping_add((i * 4096) as u64),
            pages_mapped(k@, pgd, at, (n - i) as nat) == pages_mapped(s1, pgd, va, n as nat),
        decreases n - i,
    {
        if !map_zero_page(k, pgd, at) {
            return errno::ENOMEM;
        }
        at = at.wrapping_add(4096);
        i += 1;
    }
    if hint == 0 {
        let mut t: Tcb = k.tcb(cur);
        t.mmap_bump = at;
        k.set_tcb(cur, t);
    }
    va as i64
}

} // verus!
