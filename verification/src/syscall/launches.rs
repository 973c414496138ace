//! New threads and new programs: what they start with.
use crate::arch::riscv64::mmu::{self, USER_MIRROR_OFFSET};
use crate::arch::riscv64::vspace;
use crate::cap::cnode;
use crate::cap::{self, Cap, CapType};
use crate::elf;
use crate::fs::ramfs;
use crate::kernel::{self, State};
use crate::linux_compat::{arrival, errno, exec, inheritance};
use crate::mm::{cells, occupancy};
use crate::objects;
use crate::proc;
use crate::sched::{self, contexts, queue};
use crate::syscall::{self, error, spawn};
use crate::thread::{self, Tcb, KSTACK_SIZE, MLFQ_LEVELS};
use vstd::prelude::*;

verus! {

/// A kernel thread starts at its entry point in supervisor mode, on the top of a
/// stack of its own, in the boot address space.
pub proof fn law_kernel_thread_starts(s: State, entry: u64)
    ensures
        thread::tcb_made(s, entry, thread::SSTATUS_KTHREAD) matches (s1, Some(pa)) ==> {
            let t = kernel::tcb(s1, pa);
            &&& t.frame.sepc == entry
            &&& t.frame.sstatus & sched::SSTATUS_SPP != 0
            &&& t.frame.x[2] == (t.kstack_pa + KSTACK_SIZE) as u64
            &&& forall|i: int| 0 <= i < 32 && i != 2 ==> #[trigger] t.frame.x[i] == 0
            &&& t.satp == s.boot_satp
            &&& !t.linux_compat
            &&& t.ticks_rem == 1 && t.priority == 0 && t.state is Runnable
        },
{
    assert(0x120u64 & 0x100 != 0) by (bit_vector);
}

/// A user thread starts in user mode at its entry point in the user mirror, on
/// the top of its own stack in the user mirror. A process thread has the address
/// space that it was given.
pub proof fn law_user_thread_starts(s: State, entry: u64, satp: u64)
    requires
        entry + USER_MIRROR_OFFSET <= u64::MAX,
    ensures
        thread::process_thread_made(s, entry, satp) matches (s1, Some(pa)) ==> {
            let t = kernel::tcb(s1, pa);
            &&& t.frame.sepc == entry + USER_MIRROR_OFFSET
            &&& t.frame.sstatus & sched::SSTATUS_SPP == 0
            &&& t.frame.x[2] == (t.kstack_pa + KSTACK_SIZE + USER_MIRROR_OFFSET) as u64
            &&& t.satp == satp
            &&& t.state is Runnable
        },
        thread::uthread_made(s, entry) matches (s1, Some(pa)) ==> {
            let t = kernel::tcb(s1, pa);
            &&& t.frame.sepc == entry + USER_MIRROR_OFFSET
            &&& t.frame.sstatus & sched::SSTATUS_SPP == 0
            &&& t.frame.x[2] == (t.kstack_pa + KSTACK_SIZE + USER_MIRROR_OFFSET) as u64
            &&& t.satp == s.boot_satp
        },
{
    lemma_user_mode();
}

proof fn lemma_user_mode()
    ensures
        thread::SSTATUS_UTHREAD & sched::SSTATUS_SPP == 0,
{
    assert(0x4_0020u64 & 0x100 == 0) by (bit_vector);
}

/// A thread for a loaded image starts in user mode at the image's own entry
/// point, in the image's address space, on its own stack in the user mirror.
pub proof fn law_image_thread_starts(s: State, entry: u64, satp: u64, parent: u64)
    ensures
        thread::elf_thread_made(s, entry, satp) matches (s1, Some(pa)) ==> {
            let t = kernel::tcb(s1, pa);
            &&& t.frame.sepc == entry
            &&& t.frame.sstatus & sched::SSTATUS_SPP == 0
            &&& t.frame.x[2] == (t.kstack_pa + KSTACK_SIZE + USER_MIRROR_OFFSET) as u64
            &&& t.satp == satp
            &&& !t.linux_compat
        },
        thread::linux_thread_made(s, entry, satp, parent) matches (s1, Some(pa)) ==> {
            let t = kernel::tcb(s1, pa);
            &&& t.frame.sepc == entry
            &&& t.satp == satp
            &&& t.linux_compat
            &&& t.parent_pa == parent
        },
{
    lemma_user_mode();
}

/// A program that is spawned is the registered one of that name: a name that
/// cannot be read is answered FAILED_LOOKUP, an unknown one INVALID_ARGUMENT, and
/// nothing changes then.
pub proof fn law_spawn_needs_program(s: State, va: u64, len: u64, slot: u64)
    ensures
        syscall::caller_bytes(s, va, len) is None ==> spawn::program_spawned(s, va, len, slot) == (
            s,
            error::FAILED_LOOKUP,
        ) && spawn::linux_program_spawned(s, va, len, slot) == (s, error::FAILED_LOOKUP),
        syscall::caller_bytes(s, va, len) matches Some(name) && proc::image_named(
            s.images,
            name,
        ) is None ==> spawn::program_spawned(s, va, len, slot) == (s, error::INVALID_ARGUMENT)
            && spawn::linux_program_spawned(s, va, len, slot) == (s, error::INVALID_ARGUMENT),
{
}

/// A program starts at the entry point of its image: its thread is new, the last
/// of all, and runs in an address space of its own.
pub proof fn law_image_started(s: State, image: Seq<u8>)
    ensures
        spawn::image_started(s, image) matches (s1, Ok(pa)) ==> {
            let t = kernel::tcb(s1, pa);
            &&& elf::header_error(image) is None
            &&& t.frame.sepc == elf::entry_point(image)
            &&& vspace::elf_vspace_made(s).1 matches Some(pgd) && t.satp == vspace::satp_of(pgd)
            &&& t.frame.x[2] == (t.kstack_pa + KSTACK_SIZE + USER_MIRROR_OFFSET) as u64
            &&& s1.threads.len() > 0 && s1.threads.last() == pa
        },
{
    let (s1, pgd) = vspace::elf_vspace_made(s);
    if let Some(p) = pgd {
        let flags = mmu::PTE_R | mmu::PTE_W;
        let s2 = vspace::mapped(s1, p, spawn::UART_PAGE, spawn::UART_PAGE, flags).0;
        let (s3, r) = elf::image_loaded(s2, image, p);
        if let Ok((entry, end)) = r {
            law_image_thread_starts(s3, entry, vspace::satp_of(p), 0);
            let (s4, t) = thread::elf_thread_made(s3, entry, vspace::satp_of(p));
            if let Some(pa) = t {
                assert(s4.threads == s3.threads.push(pa));
            }
        }
    }
}

/// The thread of a spawned program is handed to the caller as a capability with
/// all rights in the slot that it named, which must be empty, and waits at the
/// end of the highest level; otherwise the answer is ILLEGAL_OPERATION and
/// nothing changes.
pub proof fn law_thread_handed(s: State, pa: u64, slot: u64, qs: Seq<Seq<u64>>, a: u64)
    requires
        pa != 0,
        queue::run_queues(s, qs),
        forall|l: int| 0 <= l < MLFQ_LEVELS ==> !(#[trigger] qs[l]).contains(pa),
    ensures
        ({
            let cs = syscall::caller_cspace(s);
            let (s1, code) = spawn::thread_handed(s, pa, slot);
            if slot < cnode::slot_count(cs.1) && cnode::slot(s.caps, cs.0, slot).cap_type is Null {
                &&& code == error::OK
                &&& cnode::slot(s1.caps, cs.0, slot) == (Cap {
                    cap_type: CapType::Thread,
                    rights: cap::all_rights(),
                    ptr: pa,
                    extra: 0,
                })
                &&& a != cnode::slot_addr(cs.0, slot) ==> objects::at(s1.caps, a) == objects::at(
                    s.caps,
                    a,
                )
                &&& queue::run_queues(s1, qs.update(0, qs[0].push(pa)))
                &&& kernel::tcb(s1, pa).frame == kernel::tcb(s, pa).frame
                &&& kernel::tcb(s1, pa).state is Runnable
            } else {
                code == error::ILLEGAL_OPERATION && s1 == s
            }
        }),
{
    let cs = syscall::caller_cspace(s);
    let c = Cap { cap_type: CapType::Thread, rights: cap::all_rights(), ptr: pa, extra: 0 };
    let (caps, r) = cnode::inserted(s.caps, cs.0, cs.1, slot, c);
    let s1 = State { caps, ..s };
    assert forall|l: int| 0 <= l < MLFQ_LEVELS implies queue::run_queue(s1, l, #[trigger] qs[l]) by {
        assert(queue::run_queue(s, l, qs[l]));
        queue::lemma_chain_kept(s, s1, s.sched.queue_head[l], s.sched.queue_tail[l], qs[l]);
    }
    assert(queue::run_queues(s1, qs));
    contexts::law_admit_queues(s1, qs, pa, 0);
}

proof fn lemma_pages_loaded_keep(
    s: State,
    d: Seq<u8>,
    pgd: u64,
    g: elf::Segment,
    va: int,
    a: u64,
)
    requires
        cells::cells_ok(s.mm),
        occupancy::in_use(s.mm, a),
    ensures
        ({
            let s1 = elf::pages_loaded(s, d, pgd, g, va).0;
            occupancy::kept(s, s1, a) && cells::cells_ok(s1.mm)
        }),
    decreases
            (if va < elf::end_page(g) {
                elf::end_page(g) - va
            } else {
                0
            }),
{
    if va < elf::end_page(g) {
        let (s1, page) = kernel::page_made(s);
        occupancy::lemma_page_made_keeps(s, a);
        if let Some(pa) = page {
            let s2 = elf::page_filled(s1, d, g, va, pa);
            let flags = elf::pte_flags_of(g.flags);
            inheritance::lemma_mapped_keeps(s2, pgd, va as u64, pa, flags, 3, a);
            let (s3, ok) = vspace::mapped(s2, pgd, va as u64, pa, flags);
            if ok {
                lemma_pages_loaded_keep(s3, d, pgd, g, va + 4096, a);
            }
        }
    }
}

proof fn lemma_segments_keep(s: State, d: Seq<u8>, pgd: u64, i: int, end: int, a: u64)
    requires
        cells::cells_ok(s.mm),
        occupancy::in_use(s.mm, a),
    ensures
        ({
            let s1 = elf::segments_loaded(s, d, pgd, i, end).0;
            occupancy::kept(s, s1, a) && cells::cells_ok(s1.mm)
        }),
    decreases elf::phdr_count(d) - i,
{
    if i < elf::phdr_count(d) {
        let g = elf::segment_at(d, elf::phdr_at(d, i));
        lemma_pages_loaded_keep(s, d, pgd, g, elf::first_page(g), a);
        let s1 = elf::pages_loaded(s, d, pgd, g, elf::first_page(g)).0;
        let far = if elf::end_page(g) > end {
            elf::end_page(g)
        } else {
            end
        };
        lemma_segments_keep(s, d, pgd, i + 1, end, a);
        lemma_segments_keep(s1, d, pgd, i + 1, far, a);
    }
}

/// Loading a program touches nothing that is in use.
pub proof fn law_loading_keeps_memory(s: State, image: Seq<u8>, a: u64)
    requires
        cells::cells_ok(s.mm),
        occupancy::in_use(s.mm, a),
    ensures
        ({
            let s1 = exec::image_space_made(s, image).0;
            occupancy::kept(s, s1, a) && cells::cells_ok(s1.mm)
        }),
{
    inheritance::lemma_vspace_keeps(s, a);
    let (s1, pgd) = vspace::elf_vspace_made(s);
    if let Some(p) = pgd {
        let flags = mmu::PTE_R | mmu::PTE_W;
        inheritance::lemma_mapped_keeps(s1, p, exec::UART_PAGE, exec::UART_PAGE, flags, 3, a);
        let s2 = vspace::mapped(s1, p, exec::UART_PAGE, exec::UART_PAGE, flags).0;
        lemma_segments_keep(s2, image, p, 0, 0, a);
    }
}

/// A Linux process starts at the entry point of its image with its arguments on
/// its stack, with an empty heap behind the image, as a child of `parent`; its
/// descriptors 0 to 2 stand for the console, as far as there is memory for a
/// table. What is in use is not touched.
pub proof fn law_process_started(
    s: State,
    image: Seq<u8>,
    args: Seq<Seq<u8>>,
    parent: u64,
    a: u64,
)
    requires
        cells::cells_ok(s.mm),
        occupancy::in_use(s.mm, a),
    ensures
        exec::process_spawned(s, image, args, parent) matches (s1, Some(pa)) ==> {
            let t = kernel::tcb(s1, pa);
            &&& pa != a
            &&& objects::at(s1.tcbs, a) == objects::at(s.tcbs, a)
            &&& objects::at(s1.fd_tables, a) == objects::at(s.fd_tables, a)
            &&& args.len() <= errno::MAX_ARGS
            &&& elf::header_error(image) is None
            &&& t.frame.sepc == elf::entry_point(image)
            &&& t.linux_compat
            &&& t.parent_pa == parent
            &&& t.brk_base == t.brk_next && t.brk_next == t.brk_mapped
            &&& arrival::holds_arguments(
                s1,
                t.frame.x[2] - USER_MIRROR_OFFSET,
                exec::arguments(args),
            )
            &&& t.fd_table_pa != 0 ==> ramfs::fd_table(s1, t.fd_table_pa) == ramfs::stdio_table()
            &&& t.fd_table_pa == 0 ==> kernel::page_made(s1).1 is None
        },
{
    law_loading_keeps_memory(s, image, a);
    let (s1, space) = exec::image_space_made(s, image);
    if let Ok((pgd, entry, end)) = space {
        let satp = vspace::satp_of(pgd);
        inheritance::lemma_thread_keeps(s1, entry, satp, parent, a);
        let (s2, made) = thread::linux_thread_made(s1, entry, satp, parent);
        if let Some(pa) = made {
            let s3 = kernel::with_tcb(s2, pa, exec::with_heap(kernel::tcb(s2, pa), end));
            occupancy::lemma_page_made_keeps(s3, pa);
            occupancy::lemma_page_made_keeps(s3, a);
            let (s4, table) = ramfs::stdio_table_made(s3);
            let fds = match table {
                Some(t) => t,
                None => 0,
            };
            let s5 = kernel::with_tcb(s4, pa, Tcb { fd_table_pa: fds, ..kernel::tcb(s4, pa) });
            if args.len() <= errno::MAX_ARGS {
                lemma_arguments_ok(args);
                assert(kernel::tcb(s5, pa).kstack_pa % 16 == 0);
                arrival::law_entry_stack(s5, pa, exec::arguments(args));
                let s6 = exec::stack_set_up(s5, pa, exec::arguments(args));
                lemma_stack_keeps(s5, pa, exec::arguments(args), a);
            }
        }
    }
}

proof fn lemma_stack_keeps(s: State, pa: u64, args: Seq<Seq<u8>>, a: u64)
    requires
        pa != a,
    ensures
        ({
            let s1 = exec::stack_set_up(s, pa, args);
            &&& s1.mm == s.mm
            &&& objects::at(s1.tcbs, a) == objects::at(s.tcbs, a)
            &&& s1.fd_tables == s.fd_tables
        }),
{
    arrival::lemma_strings_keep(s, kernel::tcb(s, pa).kstack_pa, args);
}

proof fn lemma_arguments_ok(args: Seq<Seq<u8>>)
    requires
        args.len() <= errno::MAX_ARGS,
    ensures
        exec::args_ok(exec::arguments(args)),
{
    let r = exec::arguments(args);
    assert forall|i: int| 0 <= i < r.len() implies (#[trigger] r[i]).len() < errno::MAX_ARG_LEN by {
        let cut = ramfs::fitted(args[i], errno::MAX_ARG_LEN - 1);
        crate::path::lemma_find_byte(cut, 0, 0);
    }
}

} // verus!
