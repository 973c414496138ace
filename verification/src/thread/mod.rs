//! Thread control blocks.
use crate::arch::riscv64::mmu::USER_MIRROR_OFFSET;
use crate::arch::riscv64::trap::{self, TrapFrame};
use crate::kernel::{self, Kernel, State};
use crate::mm::buddy;
use crate::mm::{self, alloc_pages, slab_alloc};
use crate::objects::Zeroed;
use vstd::prelude::*;

verus! {

/// Kernel stack of a thread: 16 KiB.
pub const KSTACK_SIZE: u64 = 16384;

/// Buddy order of a kernel stack.
pub const KSTACK_ORDER: usize = 2;

pub const MLFQ_LEVELS: usize = 3;

/// Bytes that one thread control block takes.
pub const TCB_BYTES: u64 = 424;

/// Ticks before a thread at `level` is demoted.
pub open spec fn level_ticks(level: u8) -> u16 {
    if level == 0 {
        1
    } else if level == 1 {
        2
    } else {
        4
    }
}

pub fn ticks_for_level(level: u8) -> (r: u16)
    ensures
        r == level_ticks(level),
{
    match level {
        0 => 1,
        1 => 2,
        _ => 4,
    }
}

#[derive(Debug, Clone, Copy, PartialEq, Eq, Structural)]
pub enum TcbState {
    Inactive,
    Runnable,
    Running,
    Blocked,
    Suspended,
    /// Terminated; the exit code is valid.
    Exited,
}

/// Thread control block.
#[derive(Clone, Copy)]
pub struct Tcb {
    /// Saved CPU context.
    pub frame: TrapFrame,
    pub state: TcbState,
    /// Current MLFQ level (0 is the highest).
    pub priority: u8,
    /// Ticks left before demotion.
    pub ticks_rem: u16,
    /// The thread blocked in a Call and awaits a Reply.
    pub ipc_is_call: bool,
    /// Link of the queue the thread is in: a run queue or a wait queue.
    pub next_pa: u64,
    pub kstack_pa: u64,
    /// Thread that Called this one and awaits its Reply (0 is none).
    pub reply_pa: u64,
    /// Address space of the thread.
    pub satp: u64,
    /// CNode of the process (0 is the root CSpace).
    pub cspace_pa: u64,
    pub cspace_sb: u64,
    /// Slot for a capability received over IPC (0 is none).
    pub cap_recv_slot: u64,
    /// Descriptor table (0 is none yet).
    pub fd_table_pa: u64,
    /// Thread that waits for this one to exit (0 is none).
    pub waiter_pa: u64,
    pub exit_code: u64,
    /// System calls of this thread follow the Linux ABI.
    pub linux_compat: bool,
    pub brk_base: u64,
    pub brk_next: u64,
    pub brk_mapped: u64,
    pub mmap_bump: u64,
    pub pid: u64,
    pub parent_pa: u64,
}

impl Zeroed for Tcb {
    open spec fn zeroed() -> Tcb {
        Tcb {
            frame: TrapFrame::zeroed(),
            state: TcbState::Inactive,
            priority: 0,
            ticks_rem: 0,
            ipc_is_call: false,
            next_pa: 0,
            kstack_pa: 0,
            reply_pa: 0,
            satp: 0,
            cspace_pa: 0,
            cspace_sb: 0,
            cap_recv_slot: 0,
            fd_table_pa: 0,
            waiter_pa: 0,
            exit_code: 0,
            linux_compat: false,
            brk_base: 0,
            brk_next: 0,
            brk_mapped: 0,
            mmap_bump: 0,
            pid: 0,
            parent_pa: 0,
        }
    }

    fn zero() -> (r: Tcb) {
        Tcb {
            frame: TrapFrame::zero(),
            state: TcbState::Inactive,
            priority: 0,
            ticks_rem: 0,
            ipc_is_call: false,
            next_pa: 0,
            kstack_pa: 0,
            reply_pa: 0,
            satp: 0,
            cspace_pa: 0,
            cspace_sb: 0,
            cap_recv_slot: 0,
            fd_table_pa: 0,
            waiter_pa: 0,
            exit_code: 0,
            linux_compat: false,
            brk_base: 0,
            brk_next: 0,
            brk_mapped: 0,
            mmap_bump: 0,
            pid: 0,
            parent_pa: 0,
        }
    }
}

/// sstatus of a kernel thread: return to S-mode with interrupts enabled.
pub const SSTATUS_KTHREAD: u64 = 0x120;

/// sstatus of a user thread: return to U-mode with interrupts enabled, and user
/// memory accessible to the trap handler.
pub const SSTATUS_UTHREAD: u64 = 0x4_0020;

/// Numbering a new process.
pub fn next_pid(k: &mut Kernel) -> (r: u64)
    requires
        old(k).wf(),
    ensures
        final(k).wf(),
        r == old(k)@.next_pid,
        final(k)@ == (State { next_pid: old(k)@.next_pid.wrapping_add(1), ..old(k)@ }),
{
    let pid: u64 = k.next_pid;
    k.next_pid = pid.wrapping_add(1);
    pid
}

/// A thread as it is created: runnable at `entry` on the stack at `kstack`.
pub open spec fn new_tcb(entry: u64, sstatus: u64, kstack: u64, satp: u64, pid: u64) -> Tcb {
    Tcb {
        frame: trap::with_x(
            TrapFrame { sepc: entry, sstatus, ..TrapFrame::zeroed() },
            2,
            (kstack + KSTACK_SIZE) as u64,
        ),
        state: TcbState::Runnable,
        priority: 0,
        ticks_rem: level_ticks(0),
        kstack_pa: kstack,
        satp,
        pid,
        ..Tcb::zeroed()
    }
}

/// Creating a thread: a zeroed stack, a control block, the next process number
/// and a place in the list of all threads.
pub open spec fn tcb_made(s: State, entry: u64, sstatus: u64) -> (State, Option<u64>) {
    let (m, stack) = mm::pages_taken(s.mm, KSTACK_ORDER as nat);
    match stack {
        None => (s, None),
        Some(kstack) => {
            let (s1, cell) = kernel::cell_made(State { mm: m, ..s }, TCB_BYTES as int);
            match cell {
                None => (s1, None),
                Some(pa) => {
                    let s2 = kernel::zeroed_range(s1, kstack as int, kstack + KSTACK_SIZE);
                    let t = new_tcb(entry, sstatus, kstack, s2.boot_satp, s2.next_pid);
                    let s3 = kernel::with_tcb(s2, pa, t);
                    (
                        State {
                            next_pid: s3.next_pid.wrapping_add(1),
                            threads: s3.threads.push(pa),
                            ..s3
                        },
                        Some(pa),
                    )
                },
            }
        },
    }
}

fn alloc_tcb(k: &mut Kernel, entry: u64, sstatus: u64) -> (r: Option<u64>)
    requires
        old(k).wf(),
    ensures
        final(k).wf(),
        (final(k)@, r) == tcb_made(old(k)@, entry, sstatus),
{
    let kstack_pa: u64 = match alloc_pages(&mut k.mm, KSTACK_ORDER) {
        Some(p) => p,
        None => {
            return None;
        },
    };
    proof {
        buddy::lemma_order_table(KSTACK_ORDER as nat);
    }
    let tcb_pa: u64 = match slab_alloc(k, TCB_BYTES) {
        Some(p) => p,
        None => {
            return None;
        },
    };
    k.zero_range(kstack_pa, KSTACK_SIZE);
    let mut t: Tcb = Tcb::zero();
    t.frame.sepc = entry;
    t.frame.sstatus = sstatus;
    t.frame.x[2] = kstack_pa + KSTACK_SIZE;
    t.state = TcbState::Runnable;
    t.priority = 0;
    t.ticks_rem = ticks_for_level(0);
    t.kstack_pa = kstack_pa;
    t.satp = k.boot_satp;
    t.pid = next_pid(k);
    k.set_tcb(tcb_pa, t);
    k.threads.push(tcb_pa);
    Some(tcb_pa)
}

/// Create a kernel thread: entry and stack are kernel addresses.
pub fn create_kthread(k: &mut Kernel, entry: u64) -> (r: Option<u64>)
    requires
        old(k).wf(),
    ensures
        final(k).wf(),
        (final(k)@, r) == tcb_made(old(k)@, entry, SSTATUS_KTHREAD),
{
    alloc_tcb(k, entry, SSTATUS_KTHREAD)
}

/// Address of the top of a thread's stack in the user mirror.
pub open spec fn mirror_sp(t: Tcb) -> u64 {
    (t.kstack_pa + KSTACK_SIZE + USER_MIRROR_OFFSET) as u64
}

/// A thread that enters at `pc` in U-mode with its stack in the user mirror.
pub open spec fn entered_at(t: Tcb, pc: u64) -> Tcb {
    Tcb { frame: trap::with_x(TrapFrame { sepc: pc, ..t.frame }, 2, mirror_sp(t)), ..t }
}

/// Creating a user thread that runs from the user mirror.
pub open spec fn uthread_made(s: State, entry: u64) -> (State, Option<u64>) {
    let (s1, r) = tcb_made(s, entry, SSTATUS_UTHREAD);
    match r {
        None => (s1, None),
        Some(pa) => (
            kernel::with_tcb(
                s1,
                pa,
                entered_at(kernel::tcb(s1, pa), (entry + USER_MIRROR_OFFSET) as u64),
            ),
            Some(pa),
        ),
    }
}

/// Create a user thread: entry and stack are mapped to the user mirror.
pub fn create_uthread(k: &mut Kernel, entry: u64) -> (r: Option<u64>)
    requires
        old(k).wf(),
        entry + USER_MIRROR_OFFSET <= u64::MAX,
    ensures
        final(k).wf(),
        (final(k)@, r) == uthread_made(old(k)@, entry),
{
    let tcb_pa: u64 = match alloc_tcb(k, entry, SSTATUS_UTHREAD) {
        Some(p) => p,
        None => {
            return None;
        },
    };
    let mut t: Tcb = k.tcb(tcb_pa);
    t.frame.sepc = entry + USER_MIRROR_OFFSET;
    t.frame.x[2] = t.kstack_pa + KSTACK_SIZE + USER_MIRROR_OFFSET;
    k.set_tcb(tcb_pa, t);
    Some(tcb_pa)
}

/// Creating a user thread in an address space of its own.
pub open spec fn process_thread_made(s: State, entry: u64, satp: u64) -> (State, Option<u64>) {
    let (s1, r) = uthread_made(s, entry);
    match r {
        None => (s1, None),
        Some(pa) => (
            kernel::with_tcb(s1, pa, Tcb { satp, ..kernel::tcb(s1, pa) }),
            Some(pa),
        ),
    }
}

/// Create a process thread: like a user thread, in the address space `satp`.
pub fn create_process_thread(k: &mut Kernel, entry: u64, vspace_satp: u64) -> (r: Option<u64>)
    requires
        old(k).wf(),
        entry + USER_MIRROR_OFFSET <= u64::MAX,
    ensures
        final(k).wf(),
        (final(k)@, r) == process_thread_made(old(k)@, entry, vspace_satp),
{
    let tcb_pa: u64 = match create_uthread(k, entry) {
        Some(p) => p,
        None => {
            return None;
        },
    };
    let mut t: Tcb = k.tcb(tcb_pa);
    t.satp = vspace_satp;
    k.set_tcb(tcb_pa, t);
    Some(tcb_pa)
}

/// Creating a thread for a loaded program image.
pub open spec fn elf_thread_made(s: State, entry_va: u64, satp: u64) -> (State, Option<u64>) {
    let (s1, r) = tcb_made(s, entry_va, SSTATUS_UTHREAD);
    match r {
        None => (s1, None),
        Some(pa) => (
            kernel::with_tcb(
                s1,
                pa,
                Tcb { satp, ..entered_at(kernel::tcb(s1, pa), entry_va) },
            ),
            Some(pa),
        ),
    }
}

/// Create a thread for a loaded image: it enters at the image's own address;
/// its stack is in the user mirror.
pub fn create_elf_thread(k: &mut Kernel, entry_va: u64, satp: u64) -> (r: Option<u64>)
    requires
        old(k).wf(),
    ensures
        final(k).wf(),
        (final(k)@, r) == elf_thread_made(old(k)@, entry_va, satp),
{
    let tcb_pa: u64 = match alloc_tcb(k, entry_va, SSTATUS_UTHREAD) {
        Some(p) => p,
        None => {
            return None;
        },
    };
    let mut t: Tcb = k.tcb(tcb_pa);
    t.frame.x[2] = t.kstack_pa + KSTACK_SIZE + USER_MIRROR_OFFSET;
    t.satp = satp;
    k.set_tcb(tcb_pa, t);
    Some(tcb_pa)
}

/// Creating a thread whose system calls follow the Linux ABI.
pub open spec fn linux_thread_made(s: State, entry_va: u64, satp: u64, parent_pa: u64) -> (
    State,
    Option<u64>,
) {
    let (s1, r) = elf_thread_made(s, entry_va, satp);
    match r {
        None => (s1, None),
        Some(pa) => (
            kernel::with_tcb(
                s1,
                pa,
                Tcb { linux_compat: true, parent_pa, ..kernel::tcb(s1, pa) },
            ),
            Some(pa),
        ),
    }
}

/// Create a Linux-ABI thread.
pub fn create_linux_thread(k: &mut Kernel, entry_va: u64, satp: u64, parent_pa: u64) -> (r: Option<
    u64,
>)
    requires
        old(k).wf(),
    ensures
        final(k).wf(),
        (final(k)@, r) == linux_thread_made(old(k)@, entry_va, satp, parent_pa),
{
    let tcb_pa: u64 = match create_elf_thread(k, entry_va, satp) {
        Some(p) => p,
        None => {
            return None;
        },
    };
    let mut t: Tcb = k.tcb(tcb_pa);
    t.linux_compat = true;
    t.parent_pa = parent_pa;
    k.set_tcb(tcb_pa, t);
    Some(tcb_pa)
}

} // verus!
