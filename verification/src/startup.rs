//! What bringing the system up establishes: the boot mapping, the root CSpace,
//! the checks that ran, and the order in which programs start.
use crate::arch::riscv64::mmu::{self, BootPaging, PTE_V, USER_MIRROR_OFFSET};
use crate::arch::riscv64::trap::{self, TrapFrame};
use crate::arch::riscv64::vspace::{self, PTE_RWX};
use crate::arch::riscv64::walk;
use crate::boot::{self, Check};
use crate::cap::cnode;
use crate::cap::{Cap, CapType, Rights};
use crate::kernel::{self, State};
use crate::mm::buddy;
use crate::objects::{self, Zeroed};
use crate::sched::{contexts, queue};
use crate::syscall;
use crate::thread::MLFQ_LEVELS;
use vstd::prelude::*;

verus! {

proof fn lemma_boot_bits(va: u64)
    requires
        va < 0x4000_0000 || 0x8000_0000 <= va < 0xc000_0000,
    ensures
        (va >> 39u64) & 0x1ff == 0,
        (va >> 30u64) & 0x1ff == (if va < 0x4000_0000 {
            0u64
        } else {
            2
        }),
        ((va + 0x80_0000_0000) as u64 >> 39u64) & 0x1ff == 1,
        ((va + 0x80_0000_0000) as u64 >> 30u64) & 0x1ff == (va >> 30u64) & 0x1ff,
        ((va + 0x80_0000_0000) as u64) & 0x3fff_ffff == va & 0x3fff_ffff,
{
    assert((va >> 39u64) & 0x1ff == 0 && (va < 0x4000_0000 ==> (va >> 30u64) & 0x1ff == 0) && (va
        >= 0x4000_0000 ==> (va >> 30u64) & 0x1ff == 2) && ((va + 0x80_0000_0000) as u64 >> 39u64)
        & 0x1ff == 1 && ((va + 0x80_0000_0000) as u64 >> 30u64) & 0x1ff == (va >> 30u64) & 0x1ff
        && ((va + 0x80_0000_0000) as u64) & 0x3fff_ffff == va & 0x3fff_ffff) by (bit_vector)
        requires
            va < 0x4000_0000 || 0x8000_0000 <= va < 0xc000_0000,
    ;
}

/// A boot leaf maps its gigabyte, with the rights it was given.
proof fn lemma_boot_leaf(pa: u64, flags: u64, va: u64)
    requires
        pa == 0 || pa == 0x8000_0000,
        pa <= va < pa + 0x4000_0000,
        flags == 0x06 || flags == 0x0e || flags == 0x1e,
    ensures
        mmu::boot_leaf(pa, flags) & PTE_V != 0,
        mmu::boot_leaf(pa, flags) & PTE_RWX != 0,
        mmu::boot_leaf(pa, flags) & 0x1e == flags,
        vspace::entry_pa(mmu::boot_leaf(pa, flags)) | (va & 0x3fff_ffff) == va,
{
    let e = mmu::boot_leaf(pa, flags);
    assert(e & 1 != 0 && e & 0x0e != 0 && e & 0x1e == flags && ((e >> 10u64) << 12u64) | (va
        & 0x3fff_ffff) == va) by (bit_vector)
        requires
            e == (pa >> 12u64 << 10u64) | 1u64 | 0x40 | 0x80 | 0x20 | flags,
            pa == 0 || pa == 0x8000_0000,
            pa <= va < pa + 0x4000_0000,
            flags == 0x06 || flags == 0x0e || flags == 0x1e,
    ;
}

/// The boot mapping has the device registers and kernel RAM at their own
/// addresses, out of reach of user mode, and kernel RAM again at the mirror for
/// user mode.
pub proof fn law_boot_mapping(s: State, p: BootPaging, pgd: u64, low: u64, user: u64, va: u64)
    requires
        p.entries@ == mmu::boot_entries(pgd, low, user),
        pgd % 4096 == 0,
        low % 4096 == 0,
        user % 4096 == 0,
        pgd < 0x100_0000_0000_0000,
        low < 0x100_0000_0000_0000,
        user < 0x100_0000_0000_0000,
        pgd != low,
        pgd != user,
        low != user,
        va < 0x4000_0000 || 0x8000_0000 <= va < 0xc000_0000,
    ensures
        ({
            let ptes = boot::paging_set(s, p, user).ptes;
            &&& vspace::translated(ptes, pgd, va) == Some(va)
            &&& 0x8000_0000 <= va ==> vspace::translated(
                ptes,
                pgd,
                (va + USER_MIRROR_OFFSET) as u64,
            ) == Some(va)
            &&& objects::at(ptes, low) & 0x1e == 0x06
            &&& objects::at(ptes, (low + 16) as u64) & 0x1e == 0x0e
            &&& objects::at(ptes, (user + 16) as u64) & 0x1e == 0x1e
        }),
{
    reveal_with_fuel(vspace::translated_from, 3);
    let ptes = boot::paging_set(s, p, user).ptes;
    lemma_boot_bits(va);
    walk::lemma_table_entry(low);
    walk::lemma_table_entry(user);
    walk::lemma_flag_bits();
    lemma_boot_leaf(0, 0x06, 0);
    lemma_boot_leaf(0x8000_0000, 0x0e, 0x8000_0000);
    lemma_boot_leaf(0x8000_0000, 0x1e, 0x8000_0000);
    assert(objects::at(ptes, pgd) == mmu::table_entry(low));
    assert(objects::at(ptes, (pgd + 8) as u64) == mmu::table_entry(user));
    assert(objects::at(ptes, low) == mmu::boot_leaf(0, 0x06));
    assert(objects::at(ptes, (low + 16) as u64) == mmu::boot_leaf(0x8000_0000, 0x0e));
    assert(objects::at(ptes, (user + 16) as u64) == mmu::boot_leaf(0x8000_0000, 0x1e));
    assert(vspace::entry_at(pgd, va, 3) == pgd);
    if va < 0x4000_0000 {
        lemma_boot_leaf(0, 0x06, va);
        assert(vspace::entry_at(low, va, 2) == low);
    } else {
        let high = (va + USER_MIRROR_OFFSET) as u64;
        lemma_boot_leaf(0x8000_0000, 0x0e, va);
        lemma_boot_leaf(0x8000_0000, 0x1e, va);
        assert(vspace::entry_at(low, va, 2) == low + 16);
        assert(vspace::entry_at(pgd, high, 3) == pgd + 8);
        assert(vspace::entry_at(user, high, 2) == user + 16);
    }
}

/// The kernel's own calls pass a0 to a7 and read the reply from there.
pub proof fn law_kernel_call_registers(s: State, a: [u64; 8], i: int)
    requires
        0 <= i < 8,
    ensures
        ({
            let f = trap::replied(TrapFrame::zeroed(), a);
            let (s1, f1) = syscall::dispatched(s, f);
            let (s2, r) = boot::kernel_invoked(s, a);
            &&& f.x[10 + i] == a[i]
            &&& s2 == s1
            &&& r[i] == f1.x[10 + i]
        }),
{
    reveal(boot::kernel_invoked);
    trap::law_reply_read_back(TrapFrame::zeroed(), a);
}

/// Where checks have passed, each of them got the reply that was due, in the
/// state that the checks before it had left.
pub proof fn law_checks_passed(s: State, checks: Seq<Check>, i: int)
    requires
        boot::checks_run(s, checks).1,
        0 <= i < checks.len(),
    ensures
        ({
            let before = boot::checks_run(s, checks.take(i));
            let r = boot::kernel_invoked(before.0, checks[i].args).1;
            &&& before.1
            &&& r[0] == checks[i].code
            &&& checks[i].value matches Some(v) ==> r[1] == v
        }),
    decreases checks.len(),
{
    if i == 0 {
        assert(checks.take(0) =~= Seq::<Check>::empty());
    } else {
        let s1 = boot::kernel_invoked(s, checks[0].args).0;
        law_checks_passed(s1, checks.drop_first(), i - 1);
        assert(checks.take(i)[0] == checks[0]);
        assert(checks.take(i).drop_first() =~= checks.drop_first().take(i - 1));
    }
}

/// A CSpace that is stocked has the capabilities in slots 1 and up, in their
/// order, and every other of its slots as it was.
pub proof fn law_capabilities_granted(s: State, cs: u64, caps: Seq<Cap>, i: int)
    requires
        caps.len() < 8,
        cs + 192 <= u64::MAX,
        0 <= i < 8,
    ensures
        ({
            let s1 = boot::granted(s, cs, caps);
            &&& s1 == (State { caps: s1.caps, ..s })
            &&& 1 <= i <= caps.len() ==> cnode::slot(s1.caps, cs, i as u64) == caps[i - 1]
            &&& i == 0 || i > caps.len() ==> cnode::slot(s1.caps, cs, i as u64) == cnode::slot(
                s.caps,
                cs,
                i as u64,
            )
        }),
    decreases caps.len(),
{
    if caps.len() > 0 {
        law_capabilities_granted(s, cs, caps.drop_last(), i);
        let n = caps.len() as u64;
        assert(cnode::slot_addr(cs, n) == cs + 24 * n);
        assert(cnode::slot_addr(cs, i as u64) == cs + 24 * i);
    }
}

/// The root CSpace has itself in slot 0 and a megabyte of untyped memory in
/// slot 1, unused but for its header, both with all rights.
pub proof fn law_root_space(s: State)
    ensures
        boot::root_made(s) matches (s1, true) ==> {
            let own = cnode::slot(s1.caps, s1.root_pa, 0);
            let ut = cnode::slot(s1.caps, s1.root_pa, 1);
            let h = objects::at(s1.untypeds, ut.ptr);
            &&& own == (Cap {
                cap_type: CapType::CNode,
                rights: Rights(0x1f),
                ptr: s1.root_pa,
                extra: 6,
            })
            &&& ut.cap_type is UntypedMemory
            &&& ut.rights == Rights(0x1f)
            &&& ut.extra == 0x10_0000
            &&& s1.root_sb == 6
            &&& h.start == ut.ptr
            &&& h.end == (ut.ptr + 0x10_0000) as u64
            &&& h.watermark == (ut.ptr + 24) as u64
        },
{
    reveal_with_fuel(buddy::order_pages, 9);
    assert(buddy::block_bytes(8) == 0x10_0000);
}

/// A confined program runs in the CSpace it was given, and in no other.
pub proof fn law_confined_program(s: State, image: Seq<u8>, cs: u64, size_bits: u64)
    ensures
        boot::confined(s, image, cs, size_bits) matches (s1, Some(pa)) ==> {
            &&& kernel::tcb(s1, pa).cspace_pa == cs
            &&& kernel::tcb(s1, pa).cspace_sb == size_bits
        },
{
}

/// Threads that are made runnable together stand in the run queue in their
/// order, behind those that were there.
pub proof fn law_started_in_order(s: State, qs: Seq<Seq<u64>>, threads: Seq<u64>)
    requires
        queue::run_queues(s, qs),
        threads.no_duplicates(),
        !threads.contains(0),
        forall|l: int, pa: u64|
            0 <= l < MLFQ_LEVELS && #[trigger] threads.contains(pa) ==> !(
            #[trigger] qs[l]).contains(pa),
    ensures
        queue::run_queues(boot::all_enqueued(s, threads), qs.update(0, qs[0] + threads)),
        boot::all_enqueued(s, threads).sched.current == s.sched.current,
    decreases threads.len(),
{
    if threads.len() == 0 {
        assert(qs.update(0, qs[0] + threads) =~= qs) by {
            assert(qs[0] + threads =~= qs[0]);
        }
    } else {
        let rest = threads.drop_last();
        let pa = threads.last();
        assert(threads.contains(pa));
        assert(rest.no_duplicates());
        assert forall|x: u64| #[trigger] rest.contains(x) implies threads.contains(x) by {
            let k = choose|k: int| 0 <= k < rest.len() && rest[k] == x;
            assert(threads[k] == x);
        }
        law_started_in_order(s, qs, rest);
        let s1 = boot::all_enqueued(s, rest);
        let q1 = qs.update(0, qs[0] + rest);
        assert forall|l: int| 0 <= l < MLFQ_LEVELS implies !(#[trigger] q1[l]).contains(pa) by {
            assert(!qs[l].contains(pa));
            if l == 0 && q1[0].contains(pa) {
                let k = choose|k: int| 0 <= k < q1[0].len() && q1[0][k] == pa;
                if k < qs[0].len() {
                    assert(qs[0][k] == pa);
                    assert(qs[0].contains(pa));
                } else {
                    assert(threads[k - qs[0].len()] == pa);
                }
            }
        }
        contexts::law_admit_queues(s1, q1, pa, 0);
        assert(q1.update(0, q1[0].push(pa)) =~= qs.update(0, qs[0] + threads)) by {
            assert(q1[0].push(pa) =~= qs[0] + threads);
        }
    }
}

} // verus!
