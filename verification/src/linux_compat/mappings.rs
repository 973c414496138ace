//! Memory that a process asks for: it is there, zeroed, and its own.
use crate::arch::riscv64::space;
use crate::arch::riscv64::vspace;
use crate::elf::{self, Segment};
use crate::image;
use crate::kernel::{self, State};
use crate::linux_compat::memory;
use crate::mm::buddy;
use crate::sched;
use crate::thread::Tcb;
use vstd::prelude::*;

verus! {

/// User addresses: below 2^48, where every page has entries of its own.
pub const USER_END: u64 = 0x1_0000_0000_0000;

/// A segment without content, readable and writable.
spec fn blank() -> Segment {
    Segment { offset: 0, vaddr: 0, filesz: 0, memsz: 0, flags: 6 }
}

proof fn lemma_blank(s: State, va: int, pa: u64)
    ensures
        elf::pte_flags_of(6) == memory::USER_DATA,
        elf::page_filled(s, Seq::empty(), blank(), va, pa) == s,
        6u32 & 7 != 0,
{
    assert(6u32 & 7 != 0 && 6u32 & 4 != 0 && 6u32 & 2 != 0 && 6u32 & 1 == 0 && 0x10u64 | 2 == 0x12
        && 0x12u64 | 4 == 0x16) by (bit_vector);
}

/// A page that is mapped zeroed reads as zeros, and every other address of the
/// space reads as before.
proof fn lemma_zero_page(s: State, pgd: u64, levels: Map<u64, nat>, va: u64) -> (more: Map<
    u64,
    nat,
>)
    requires
        buddy::lists_ok(s.mm.lists),
        space::space_ok(s, levels),
        levels.contains_key(pgd),
        levels[pgd] == 3,
        va % 4096 == 0,
        va < USER_END,
        memory::zero_page_mapped(s, pgd, va).1,
    ensures
        ({
            let s1 = memory::zero_page_mapped(s, pgd, va).0;
            &&& buddy::lists_ok(s1.mm.lists)
            &&& space::space_ok(s1, more)
            &&& more.contains_key(pgd)
            &&& more[pgd] == 3
            &&& forall|a: u64| va <= a < va + 4096 ==> #[trigger] image::holds(s1, pgd, a, 0)
            &&& forall|a: u64, v: u8|
                a < USER_END && !(va <= a < va + 4096) && image::holds(s, pgd, a, v)
                    ==> #[trigger] image::holds(s1, pgd, a, v)
        }),
{
    let (s1, page) = kernel::page_made(s);
    lemma_blank(s1, va as int, page->0);
    let d = Seq::<u8>::empty();
    let more = image::lemma_page_loaded(s, d, pgd, levels, blank(), va);
    let s3 = memory::zero_page_mapped(s, pgd, va).0;
    assert forall|a: u64| va <= a < va + 4096 implies #[trigger] image::holds(s3, pgd, a, 0) by {
        assert(image::holds(s3, pgd, a, image::image_byte(d, blank(), a)));
    }
    more
}

/// Every address from `lo` to `hi` reads as zero.
pub open spec fn zeros_from(s: State, pgd: u64, lo: int, hi: int) -> bool {
    forall|a: u64| lo <= a < hi ==> #[trigger] image::holds(s, pgd, a, 0)
}

/// Every address outside of `lo` to `hi` reads in `t` as in `s`.
pub open spec fn same_elsewhere(s: State, t: State, pgd: u64, lo: int, hi: int) -> bool {
    forall|a: u64, v: u8|
        a < USER_END && !(lo <= a < hi) && image::holds(s, pgd, a, v) ==> #[trigger] image::holds(
            t,
            pgd,
            a,
            v,
        )
}

proof fn lemma_pages(s: State, pgd: u64, levels: Map<u64, nat>, va: u64, n: nat) -> (more: Map<
    u64,
    nat,
>)
    requires
        buddy::lists_ok(s.mm.lists),
        space::space_ok(s, levels),
        levels.contains_key(pgd),
        levels[pgd] == 3,
        va % 4096 == 0,
        va + n * 4096 <= USER_END,
        memory::pages_mapped(s, pgd, va, n).1,
    ensures
        ({
            let s1 = memory::pages_mapped(s, pgd, va, n).0;
            &&& space::space_ok(s1, more)
            &&& more.contains_key(pgd)
            &&& more[pgd] == 3
            &&& zeros_from(s1, pgd, va as int, va + n * 4096)
            &&& same_elsewhere(s, s1, pgd, va as int, va + n * 4096)
        }),
    decreases n,
{
    if n == 0 {
        levels
    } else {
        let wider = lemma_zero_page(s, pgd, levels, va);
        let s1 = memory::zero_page_mapped(s, pgd, va).0;
        let next = va.wrapping_add(4096);
        assert(next == va + 4096);
        let more = lemma_pages(s1, pgd, wider, next, (n - 1) as nat);
        let s2 = memory::pages_mapped(s, pgd, va, n).0;
        assert(s2 == memory::pages_mapped(s1, pgd, next, (n - 1) as nat).0);
        assert(next + (n - 1) * 4096 == va + n * 4096);
        assert forall|a: u64| va <= a < va + n * 4096 implies #[trigger] image::holds(
            s2,
            pgd,
            a,
            0,
        ) by {
            if a < next {
                assert(image::holds(s1, pgd, a, 0));
            }
        }
        assert forall|a: u64, v: u8|
            a < USER_END && !(va <= a < va + n * 4096) && image::holds(
                s,
                pgd,
                a,
                v,
            ) implies #[trigger] image::holds(s2, pgd, a, v) by {
            assert(image::holds(s1, pgd, a, v));
        }
        more
    }
}

proof fn lemma_heap(s: State, pgd: u64, levels: Map<u64, nat>, from: u64, to: u64) -> (more: Map<
    u64,
    nat,
>)
    requires
        buddy::lists_ok(s.mm.lists),
        space::space_ok(s, levels),
        levels.contains_key(pgd),
        levels[pgd] == 3,
        from % 4096 == 0,
        to % 4096 == 0,
        to <= USER_END,
    ensures
        ({
            let (s1, end) = memory::heap_grown(s, pgd, from, to);
            &&& from <= end
            &&& zeros_from(s1, pgd, from as int, end as int)
        }),
    decreases
            if from < to {
                to - from
            } else {
                0
            },
{
    if from < to {
        let (s1, ok) = memory::zero_page_mapped(s, pgd, from);
        if ok {
            let wider = lemma_zero_page(s, pgd, levels, from);
            let more = lemma_heap(s1, pgd, wider, (from + 4096) as u64, to);
            let (s2, end) = memory::heap_grown(s, pgd, from, to);
            lemma_heap_keeps(s1, pgd, wider, (from + 4096) as u64, to, from);
            assert forall|a: u64| from <= a < end implies #[trigger] image::holds(
                s2,
                pgd,
                a,
                0,
            ) by {
                if a < from + 4096 {
                    assert(image::holds(s1, pgd, a, 0));
                }
            }
            more
        } else {
            levels
        }
    } else {
        levels
    }
}

/// Growing the heap keeps what lies below it, even where the last page fails.
proof fn lemma_heap_keeps(
    s: State,
    pgd: u64,
    levels: Map<u64, nat>,
    from: u64,
    to: u64,
    low: u64,
)
    requires
        buddy::lists_ok(s.mm.lists),
        space::space_ok(s, levels),
        levels.contains_key(pgd),
        levels[pgd] == 3,
        from % 4096 == 0,
        to % 4096 == 0,
        to <= USER_END,
        low <= from,
    ensures
        ({
            let s1 = memory::heap_grown(s, pgd, from, to).0;
            forall|a: u64, v: u8|
                low <= a < from && image::holds(s, pgd, a, v) ==> #[trigger] image::holds(
                    s1,
                    pgd,
                    a,
                    v,
                )
        }),
    decreases
            if from < to {
                to - from
            } else {
                0
            },
{
    if from < to {
        let (s1, ok) = memory::zero_page_mapped(s, pgd, from);
        if ok {
            let wider = lemma_zero_page(s, pgd, levels, from);
            lemma_heap_keeps(s1, pgd, wider, (from + 4096) as u64, to, low);
            let s2 = memory::heap_grown(s, pgd, from, to).0;
            assert(s2 == memory::heap_grown(s1, pgd, (from + 4096) as u64, to).0);
            assert forall|a: u64, v: u8| low <= a < from && image::holds(s, pgd, a, v) implies #[trigger] image::holds(
                s2,
                pgd,
                a,
                v,
            ) by {
                assert(image::holds(s1, pgd, a, v));
            }
        } else {
            lemma_failed_page_keeps(s, pgd, levels, from, low);
        }
    }
}

/// A page that cannot be mapped leaves all other addresses as they were.
proof fn lemma_failed_page_keeps(s: State, pgd: u64, levels: Map<u64, nat>, va: u64, low: u64)
    requires
        buddy::lists_ok(s.mm.lists),
        space::space_ok(s, levels),
        levels.contains_key(pgd),
        levels[pgd] == 3,
        va % 4096 == 0,
        va < USER_END,
        low <= va,
    ensures
        ({
            let s1 = memory::zero_page_mapped(s, pgd, va).0;
            forall|a: u64, v: u8|
                low <= a < va && image::holds(s, pgd, a, v) ==> #[trigger] image::holds(
                    s1,
                    pgd,
                    a,
                    v,
                )
        }),
{
    let (s1, page) = kernel::page_made(s);
    kernel::lemma_page_made(s);
    space::lemma_space_page(s, levels);
    if let Some(pa) = page {
        let flags = memory::USER_DATA;
        let s3 = vspace::mapped(s1, pgd, va, pa, flags).0;
        assert forall|a: u64, v: u8| low <= a < va && image::holds(s, pgd, a, v) implies #[trigger] image::holds(
            s3,
            pgd,
            a,
            v,
        ) by {
            image::lemma_held_elsewhere(s, s1, pgd, levels, va, pa, flags, a);
        }
    }
}

/// An anonymous mapping of `length` bytes reads as zeros from the address that is
/// returned, over whole pages, and changes nothing else that the process has
/// mapped. The next one without a hint lies behind it.
pub proof fn law_mmap_gives_zeros(s: State, hint: u64, length: u64)
    requires
        sched::current(s) != 0,
        0 < length < USER_END,
        hint % 4096 == 0,
        hint < USER_END,
        buddy::lists_ok(s.mm.lists),
        space::has_space(s, vspace::pgd_of(kernel::tcb(s, sched::current(s)).satp)),
        kernel::tcb(s, sched::current(s)).mmap_bump % 4096 == 0,
        kernel::tcb(s, sched::current(s)).mmap_bump < USER_END,
    ensures
        ({
            let cur = sched::current(s);
            let t = kernel::tcb(s, cur);
            let pgd = vspace::pgd_of(t.satp);
            let (s1, r) = memory::mmap_called(s, hint, length);
            let size = memory::page_up(length);
            &&& length <= size < length + 4096
            &&& r >= 0 && r + size <= USER_END ==> {
                &&& hint != 0 ==> r == hint
                &&& hint == 0 && t.mmap_bump != 0 ==> r == t.mmap_bump
                &&& hint == 0 && t.mmap_bump == 0 ==> r == memory::MMAP_BASE
                &&& zeros_from(s1, pgd, r as int, r + size)
                &&& same_elsewhere(s, s1, pgd, r as int, r + size)
                &&& hint == 0 ==> kernel::tcb(s1, cur).mmap_bump == r + size
            }
        }),
{
    let cur = sched::current(s);
    let t0 = kernel::tcb(s, cur);
    let pgd = vspace::pgd_of(t0.satp);
    let s1 = if t0.mmap_bump == 0 {
        kernel::with_tcb(s, cur, Tcb { mmap_bump: memory::MMAP_BASE, ..t0 })
    } else {
        s
    };
    let t = kernel::tcb(s1, cur);
    let size = memory::page_up(length);
    let n = size / 4096;
    let y = length.wrapping_add(4095);
    assert(y == length + 4095);
    assert(n * 4096 == size);
    let va = if hint != 0 {
        memory::page_up(hint)
    } else {
        t.mmap_bump
    };
    assert(hint != 0 ==> va == hint) by {
        let z = hint.wrapping_add(4095);
        assert(z == hint + 4095);
    }
    let levels = choose|levels: Map<u64, nat>| #[trigger]
        space::space_ok(s, levels) && levels.contains_key(pgd) && levels[pgd] == 3;
    lemma_same_space(s, s1, levels);
    let (s2, ok) = memory::pages_mapped(s1, pgd, va, n as nat);
    if ok && va + size <= USER_END {
        let more = lemma_pages(s1, pgd, levels, va, n as nat);
        let s3 = memory::mmap_called(s, hint, length).0;
        assert(s3.ptes == s2.ptes && s3.bytes == s2.bytes && s3.mm == s2.mm);
        assert forall|a: u64| va <= a < va + size implies #[trigger] image::holds(s3, pgd, a, 0) by {
            assert(image::holds(s2, pgd, a, 0));
        }
        assert forall|a: u64, v: u8|
            a < USER_END && !(va <= a < va + size) && image::holds(s, pgd, a, v) implies #[trigger] image::holds(
            s3,
            pgd,
            a,
            v,
        ) by {
            assert(image::holds(s1, pgd, a, v));
            assert(image::holds(s2, pgd, a, v));
        }
        assert(va.wrapping_add(n.wrapping_mul(4096)) == va + size);
    }
}

/// Soundness of a space is a matter of tables and of what is in use.
proof fn lemma_same_space(s: State, t: State, levels: Map<u64, nat>)
    requires
        space::space_ok(s, levels),
        t.ptes == s.ptes,
        t.mm == s.mm,
    ensures
        space::space_ok(t, levels),
{
    assert forall|a: u64| #[trigger] space::link(t, levels, a) implies space::link(s, levels, a) by {}
    assert forall|x: u64| #[trigger] levels.contains_key(x) implies x % 4096 == 0
        && kernel::page_in_use(t, x) by {
        assert(kernel::page_in_use(s, x));
    }
}

/// brk moves the end of the heap to where it is asked for, as far as there is
/// memory: what it adds reads as zeros, and the new end is returned and kept.
pub proof fn law_brk_grows(s: State, addr: u64)
    requires
        sched::current(s) != 0,
        buddy::lists_ok(s.mm.lists),
        space::has_space(s, vspace::pgd_of(kernel::tcb(s, sched::current(s)).satp)),
        kernel::tcb(s, sched::current(s)).brk_mapped % 4096 == 0,
        kernel::tcb(s, sched::current(s)).brk_base < addr,
        addr + 4096 <= USER_END,
    ensures
        ({
            let cur = sched::current(s);
            let t = kernel::tcb(s, cur);
            let (s1, r) = memory::brk_called(s, addr);
            let t1 = kernel::tcb(s1, cur);
            &&& r == t1.brk_next as i64
            &&& t1.brk_next <= addr
            &&& t1.brk_next <= t1.brk_mapped
            &&& t1.brk_mapped >= addr ==> t1.brk_next == addr
            &&& t.brk_mapped <= t1.brk_mapped
            &&& addr <= t.brk_mapped ==> t1.brk_next == addr && t1.brk_mapped == t.brk_mapped
            &&& zeros_from(
                s1,
                vspace::pgd_of(t.satp),
                t.brk_mapped as int,
                t1.brk_mapped as int,
            )
        }),
{
    let cur = sched::current(s);
    let t = kernel::tcb(s, cur);
    let pgd = vspace::pgd_of(t.satp);
    let up = memory::page_up(addr);
    assert(addr.wrapping_add(4095) == addr + 4095);
    let levels = choose|levels: Map<u64, nat>| #[trigger]
        space::space_ok(s, levels) && levels.contains_key(pgd) && levels[pgd] == 3;
    let more = lemma_heap(s, pgd, levels, t.brk_mapped, up);
    let (s1, end) = memory::heap_grown(s, pgd, t.brk_mapped, up);
    let s2 = memory::brk_called(s, addr).0;
    assert(s2.ptes == s1.ptes && s2.bytes == s1.bytes && s2.mm == s1.mm);
    assert forall|a: u64| t.brk_mapped <= a < end implies #[trigger] image::holds(s2, pgd, a, 0) by {
        assert(image::holds(s1, pgd, a, 0));
    }
}

} // verus!
