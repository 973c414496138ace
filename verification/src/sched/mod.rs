//! Multi-level feedback queue scheduler.
//!
//! One run queue is shared by all harts; each hart has a current thread, the
//! address space to switch to, and a saved boot frame.
use crate::arch::riscv64::trap::{self, TrapFrame};
use crate::arch::riscv64::vspace;
use crate::kernel::{self, Kernel, State};
use crate::objects::Zeroed;
use crate::thread::{self, ticks_for_level, Tcb, TcbState, MLFQ_LEVELS};
use vstd::prelude::*;

pub mod contexts;
pub mod lifecycle;
pub mod queue;

verus! {

pub const MAX_HARTS: usize = 4;

#[derive(Clone, Copy)]
pub struct Sched {
    /// Thread running on each hart (0 is idle).
    pub current: [u64; 4],
    /// Address space each hart enters on return from the trap.
    pub next_satp: [u64; 4],
    /// Context that each hart idled in when it was first interrupted.
    pub boot_frame: [TrapFrame; 4],
    pub boot_frame_valid: [bool; 4],
    /// Context to idle in while no boot frame is saved.
    pub idle_frame: TrapFrame,
    pub idle_frame_ready: bool,
    /// First thread of each run-queue level (0 is empty).
    pub queue_head: [u64; 3],
    /// Last thread of each run-queue level.
    pub queue_tail: [u64; 3],
    pub tick_count: u64,
    /// Threads that have not exited.
    pub live_threads: u64,
    /// Threads blocked on external I/O.
    pub io_waiters: u64,
    /// Timer interrupts switch threads.
    pub active: bool,
}

/// No thread, nothing scheduled.
pub open spec fn idle_sched() -> Sched {
    Sched {
        current: vstd::array::spec_array_fill_for_copy_type::<u64, 4>(0),
        next_satp: vstd::array::spec_array_fill_for_copy_type::<u64, 4>(0),
        boot_frame: vstd::array::spec_array_fill_for_copy_type::<TrapFrame, 4>(
            TrapFrame::zeroed(),
        ),
        boot_frame_valid: vstd::array::spec_array_fill_for_copy_type::<bool, 4>(false),
        idle_frame: TrapFrame::zeroed(),
        idle_frame_ready: false,
        queue_head: vstd::array::spec_array_fill_for_copy_type::<u64, 3>(0),
        queue_tail: vstd::array::spec_array_fill_for_copy_type::<u64, 3>(0),
        tick_count: 0,
        live_threads: 0,
        io_waiters: 0,
        active: false,
    }
}

impl Sched {
    pub fn new() -> (r: Sched)
        ensures
            r == idle_sched(),
    {
        Sched {
            current: [0;4],
            next_satp: [0;4],
            boot_frame: [TrapFrame::zero();4],
            boot_frame_valid: [false;4],
            idle_frame: TrapFrame::zero(),
            idle_frame_ready: false,
            queue_head: [0;3],
            queue_tail: [0;3],
            tick_count: 0,
            live_threads: 0,
            io_waiters: 0,
            active: false,
        }
    }
}

/// SPP = 1 in a frame: the trap came from S-mode.
pub const SSTATUS_SPP: u64 = 0x100;

/// The thread running on this hart (0 is none).
pub open spec fn current(s: State) -> u64 {
    s.sched.current[s.hart as int]
}

pub open spec fn with_current(s: State, pa: u64) -> State {
    State {
        sched: Sched {
            current: vstd::array::spec_array_update(s.sched.current, s.hart as int, pa),
            ..s.sched
        },
        ..s
    }
}

pub open spec fn with_next_satp(s: State, satp: u64) -> State {
    State {
        sched: Sched {
            next_satp: vstd::array::spec_array_update(s.sched.next_satp, s.hart as int, satp),
            ..s.sched
        },
        ..s
    }
}

pub open spec fn with_queue(s: State, level: int, head: u64, tail: u64) -> State {
    State {
        sched: Sched {
            queue_head: vstd::array::spec_array_update(s.sched.queue_head, level, head),
            queue_tail: vstd::array::spec_array_update(s.sched.queue_tail, level, tail),
            ..s.sched
        },
        ..s
    }
}

/// Appending `pa` to the run queue of `level`.
pub open spec fn linked(s: State, pa: u64, level: int) -> State {
    let s1 = kernel::with_tcb(s, pa, Tcb { next_pa: 0, ..kernel::tcb(s, pa) });
    let tail = s.sched.queue_tail[level];
    if tail == 0 {
        with_queue(s1, level, pa, pa)
    } else {
        kernel::with_tcb(
            with_queue(s1, level, s.sched.queue_head[level], pa),
            tail,
            Tcb { next_pa: pa, ..kernel::tcb(s1, tail) },
        )
    }
}

/// The highest level from `level` down whose run queue holds a thread.
pub open spec fn top_level(s: State, level: int) -> int
    decreases MLFQ_LEVELS - level,
{
    if level >= MLFQ_LEVELS || s.sched.queue_head[level] != 0 {
        level
    } else {
        top_level(s, level + 1)
    }
}

/// Taking the first thread of the highest level that has one (0 when all are
/// empty).
pub open spec fn dequeued(s: State) -> (State, u64) {
    let level = top_level(s, 0);
    if level >= MLFQ_LEVELS {
        (s, 0)
    } else {
        let head = s.sched.queue_head[level];
        let next = kernel::tcb(s, head).next_pa;
        let s1 = with_queue(
            s,
            level,
            next,
            if next == 0 {
                0
            } else {
                s.sched.queue_tail[level]
            },
        );
        (kernel::with_tcb(s1, head, Tcb { next_pa: 0, ..kernel::tcb(s, head) }), head)
    }
}

/// Scheduling is over once hart 0 idles with no thread alive and none waiting
/// for I/O.
pub open spec fn settled(s: State) -> State {
    if s.hart == 0 && s.sched.io_waiters == 0 && s.sched.live_threads == 0 {
        State { sched: Sched { active: false, ..s.sched }, ..s }
    } else {
        s
    }
}

/// Entering the next runnable thread, or else the boot frame, or else the idle
/// frame; the second component is the context to return to.
pub open spec fn switched(s: State, f: TrapFrame) -> (State, TrapFrame) {
    let (s1, next) = dequeued(s);
    let h = s.hart as int;
    if next != 0 {
        let t = kernel::tcb(s1, next);
        let s2 = kernel::with_tcb(s1, next, Tcb { state: TcbState::Running, ..t });
        (with_next_satp(with_current(s2, next), t.satp), t.frame)
    } else if s1.sched.boot_frame_valid[h] {
        let s2 = with_next_satp(s1, s1.boot_satp);
        let s3 = State {
            sched: Sched {
                boot_frame_valid: vstd::array::spec_array_update(
                    s2.sched.boot_frame_valid,
                    h,
                    false,
                ),
                ..s2.sched
            },
            ..s2
        };
        (settled(s3), s1.sched.boot_frame[h])
    } else if s1.sched.idle_frame_ready {
        (settled(with_next_satp(s1, s1.boot_satp)), s1.sched.idle_frame)
    } else {
        (s1, f)
    }
}

/// Making a thread runnable at the highest level.
pub open spec fn woken(s: State, pa: u64) -> State {
    linked(
        kernel::with_tcb(
            s,
            pa,
            Tcb {
                state: TcbState::Runnable,
                priority: 0,
                ticks_rem: thread::level_ticks(0),
                next_pa: 0,
                ..kernel::tcb(s, pa)
            },
        ),
        pa,
        0,
    )
}

/// Waking a thread with a reply in its saved frame.
pub open spec fn unblocked(s: State, pa: u64, reply: [u64; 8]) -> State {
    woken(kernel::with_tcb(s, pa, Tcb { frame: trap::replied(kernel::tcb(s, pa).frame, reply), ..kernel::tcb(s, pa) }), pa)
}

/// Leaving the current thread in `state` and entering the next one; nothing
/// happens on an idle hart.
pub open spec fn left(s: State, f: TrapFrame, state: TcbState) -> (State, TrapFrame) {
    let cur = current(s);
    if cur == 0 {
        (s, f)
    } else {
        switched(with_current(kernel::with_tcb(s, cur, Tcb { frame: f, state, ..kernel::tcb(s, cur) }), 0), f)
    }
}

pub open spec fn blocked(s: State, f: TrapFrame) -> (State, TrapFrame) {
    left(s, f, TcbState::Blocked)
}

/// Giving up the processor: to the end of the highest level.
pub open spec fn yielded(s: State, f: TrapFrame) -> (State, TrapFrame) {
    let cur = current(s);
    if cur == 0 {
        (s, f)
    } else {
        let s1 = kernel::with_tcb(s, cur, Tcb { frame: f, state: TcbState::Runnable, ..kernel::tcb(s, cur) });
        switched(linked(with_current(s1, 0), cur, 0), f)
    }
}

/// Admitting a new thread at `priority`.
pub open spec fn enqueued(s: State, pa: u64, priority: int) -> State {
    let s1 = kernel::with_tcb(
        s,
        pa,
        Tcb {
            priority: priority as u8,
            state: TcbState::Runnable,
            ticks_rem: thread::level_ticks(priority as u8),
            next_pa: 0,
            ..kernel::tcb(s, pa)
        },
    );
    let s2 = State {
        sched: Sched {
            live_threads: s1.sched.live_threads.wrapping_add(1),
            ..s1.sched
        },
        ..s1
    };
    linked(s2, pa, priority)
}

/// A running thread after one more tick: at the end of its allowance it drops
/// one level, down to the lowest.
pub open spec fn aged(t: Tcb) -> Tcb {
    let left = if t.ticks_rem > 0 {
        (t.ticks_rem - 1) as u16
    } else {
        0
    };
    if left == 0 {
        let p: u8 = if t.priority < 2 {
            (t.priority + 1) as u8
        } else {
            2
        };
        Tcb { priority: p, ticks_rem: thread::level_ticks(p), ..t }
    } else {
        Tcb { ticks_rem: left, ..t }
    }
}

/// What a timer interrupt leaves of the interrupted context.
pub open spec fn preempted(s: State, f: TrapFrame) -> State {
    let cur = current(s);
    let h = s.hart as int;
    if cur == 0 {
        if !s.sched.boot_frame_valid[h] && f.sstatus & SSTATUS_SPP != 0 {
            State {
                sched: Sched {
                    boot_frame: vstd::array::spec_array_update(s.sched.boot_frame, h, f),
                    boot_frame_valid: vstd::array::spec_array_update(
                        s.sched.boot_frame_valid,
                        h,
                        true,
                    ),
                    ..s.sched
                },
                ..s
            }
        } else {
            s
        }
    } else {
        let t = Tcb { frame: f, ..kernel::tcb(s, cur) };
        if t.state is Running || t.state is Runnable {
            let t1 = aged(Tcb { state: TcbState::Runnable, ..t });
            with_current(linked(kernel::with_tcb(s, cur, t1), cur, t1.priority as int), 0)
        } else {
            with_current(kernel::with_tcb(s, cur, t), 0)
        }
    }
}

/// A timer interrupt: count it and, while scheduling is on, switch threads.
pub open spec fn ticked(s: State, f: TrapFrame) -> (State, TrapFrame) {
    let s1 = State {
        sched: Sched { tick_count: s.sched.tick_count.wrapping_add(1), ..s.sched },
        ..s
    };
    if !s.sched.active {
        (s1, f)
    } else {
        switched(preempted(s1, f), f)
    }
}

pub fn tick_count(k: &Kernel) -> (r: u64)
    ensures
        r == k@.sched.tick_count,
{
    k.sched.tick_count
}

pub fn current_pa(k: &Kernel) -> (r: u64)
    requires
        k.wf(),
    ensures
        r == current(k@),
{
    k.sched.current[k.hart]
}

pub fn add_io_waiter(k: &mut Kernel)
    requires
        old(k).wf(),
    ensures
        final(k).wf(),
        final(k)@ == (State {
            sched: Sched {
                io_waiters: old(k)@.sched.io_waiters.wrapping_add(1),
                ..old(k)@.sched
            },
            ..old(k)@
        }),
{
    k.sched.io_waiters = k.sched.io_waiters.wrapping_add(1);
}

pub fn remove_io_waiter(k: &mut Kernel)
    requires
        old(k).wf(),
    ensures
        final(k).wf(),
        final(k)@ == (State {
            sched: Sched {
                io_waiters: old(k)@.sched.io_waiters.wrapping_sub(1),
                ..old(k)@.sched
            },
            ..old(k)@
        }),
{
    k.sched.io_waiters = k.sched.io_waiters.wrapping_sub(1);
}

/// Schedule an address-space switch for this hart on the next return.
pub fn set_current_satp(k: &mut Kernel, satp: u64)
    requires
        old(k).wf(),
    ensures
        final(k).wf(),
        final(k)@ == with_next_satp(old(k)@, satp),
{
    k.sched.next_satp[k.hart] = satp;
}

fn set_current(k: &mut Kernel, pa: u64)
    requires
        old(k).wf(),
    ensures
        final(k).wf(),
        final(k)@ == with_current(old(k)@, pa),
{
    k.sched.current[k.hart] = pa;
}

fn set_queue(k: &mut Kernel, level: usize, head: u64, tail: u64)
    requires
        old(k).wf(),
        level < MLFQ_LEVELS,
    ensures
        final(k).wf(),
        final(k)@ == with_queue(old(k)@, level as int, head, tail),
{
    k.sched.queue_head[level] = head;
    k.sched.queue_tail[level] = tail;
}

/// Append `tcb_pa` to the tail of the run queue of `level`.
fn link(k: &mut Kernel, tcb_pa: u64, level: usize)
    requires
        old(k).wf(),
        level < MLFQ_LEVELS,
    ensures
        final(k).wf(),
        final(k)@ == linked(old(k)@, tcb_pa, level as int),
{
    let mut t: Tcb = k.tcb(tcb_pa);
    t.next_pa = 0;
    k.set_tcb(tcb_pa, t);
    let tail: u64 = k.sched.queue_tail[level];
    if tail == 0 {
        set_queue(k, level, tcb_pa, tcb_pa);
    } else {
        let head: u64 = k.sched.queue_head[level];
        set_queue(k, level, head, tcb_pa);
        let mut last: Tcb = k.tcb(tail);
        last.next_pa = tcb_pa;
        k.set_tcb(tail, last);
    }
}

/// Remove and return the head of the highest-priority non-empty level.
fn dequeue(k: &mut Kernel) -> (r: u64)
    requires
        old(k).wf(),
    ensures
        final(k).wf(),
        (final(k)@, r) == dequeued(old(k)@),
{
    let mut level: usize = 0;
    while level < MLFQ_LEVELS && k.sched.queue_head[level] == 0
        invariant
            level <= MLFQ_LEVELS,
            *k == *old(k),
            top_level(k@, 0) == top_level(k@, level as int),
        decreases MLFQ_LEVELS - level,
    {
        level += 1;
    }
    if level >= MLFQ_LEVELS {
        return 0;
    }
    let head: u64 = k.sched.queue_head[level];
    let mut t: Tcb = k.tcb(head);
    let next: u64 = t.next_pa;
    let tail: u64 = if next == 0 {
        0
    } else {
        k.sched.queue_tail[level]
    };
    set_queue(k, level, next, tail);
    t.next_pa = 0;
    k.set_tcb(head, t);
    head
}

fn settle(k: &mut Kernel)
    requires
        old(k).wf(),
    ensures
        final(k).wf(),
        final(k)@ == settled(old(k)@),
{
    if k.hart == 0 && k.sched.io_waiters == 0 && k.sched.live_threads == 0 {
        k.sched.active = false;
    }
}

fn switch_to_next(k: &mut Kernel, frame: &mut TrapFrame)
    requires
        old(k).wf(),
    ensures
        final(k).wf(),
        (final(k)@, *final(frame)) == switched(old(k)@, *old(frame)),
{
    let next: u64 = dequeue(k);
    let hart: usize = k.hart;
    if next != 0 {
        let mut t: Tcb = k.tcb(next);
        t.state = TcbState::Running;
        k.set_tcb(next, t);
        set_current(k, next);
        set_current_satp(k, t.satp);
        *frame = t.frame;
    } else if k.sched.boot_frame_valid[hart] {
        *frame = k.sched.boot_frame[hart];
        let satp: u64 = k.boot_satp;
        set_current_satp(k, satp);
        k.sched.boot_frame_valid[hart] = false;
        settle(k);
    } else if k.sched.idle_frame_ready {
        *frame = k.sched.idle_frame;
        let satp: u64 = k.boot_satp;
        set_current_satp(k, satp);
        settle(k);
    }
}

/// Wake a blocked thread, writing `reply` into its saved frame.
pub fn unblock(k: &mut Kernel, tcb_pa: u64, reply: [u64; 8])
    requires
        old(k).wf(),
    ensures
        final(k).wf(),
        final(k)@ == unblocked(old(k)@, tcb_pa, reply),
{
    let mut t: Tcb = k.tcb(tcb_pa);
    t.frame.set_reply(reply);
    k.set_tcb(tcb_pa, t);
    wake(k, tcb_pa);
}

/// Entering a blocked thread at once, with a reply in its frame.
pub open spec fn woken_from_irq(s: State, pa: u64, reply: [u64; 8]) -> (State, TrapFrame) {
    let t = Tcb {
        frame: trap::replied(kernel::tcb(s, pa).frame, reply),
        state: TcbState::Running,
        priority: 0,
        ticks_rem: thread::level_ticks(0),
        next_pa: 0,
        ..kernel::tcb(s, pa)
    };
    (with_next_satp(with_current(kernel::with_tcb(s, pa, t), pa), t.satp), t.frame)
}

/// Wake a blocked thread from an interrupt handler, switching the trap frame
/// to it immediately.
pub fn wake_from_irq(k: &mut Kernel, tcb_pa: u64, reply: [u64; 8], frame: &mut TrapFrame)
    requires
        old(k).wf(),
    ensures
        final(k).wf(),
        (final(k)@, *final(frame)) == woken_from_irq(old(k)@, tcb_pa, reply),
{
    let mut t: Tcb = k.tcb(tcb_pa);
    t.frame.set_reply(reply);
    t.state = TcbState::Running;
    t.priority = 0;
    t.ticks_rem = ticks_for_level(0);
    t.next_pa = 0;
    k.set_tcb(tcb_pa, t);
    set_current(k, tcb_pa);
    set_current_satp(k, t.satp);
    *frame = t.frame;
}

/// Re-enqueue a thread whose reply is already in its frame.
pub fn wake(k: &mut Kernel, tcb_pa: u64)
    requires
        old(k).wf(),
    ensures
        final(k).wf(),
        final(k)@ == woken(old(k)@, tcb_pa),
{
    let mut t: Tcb = k.tcb(tcb_pa);
    t.state = TcbState::Runnable;
    t.priority = 0;
    t.ticks_rem = ticks_for_level(0);
    t.next_pa = 0;
    k.set_tcb(tcb_pa, t);
    link(k, tcb_pa, 0);
}

/// Save the current thread's frame, mark it blocked and switch to the next
/// thread. Returns the blocked thread, which the caller puts in a wait queue.
pub fn block_current(k: &mut Kernel, frame: &mut TrapFrame) -> (r: u64)
    requires
        old(k).wf(),
    ensures
        final(k).wf(),
        r == current(old(k)@),
        (final(k)@, *final(frame)) == blocked(old(k)@, *old(frame)),
{
    block_with_state(k, frame, TcbState::Blocked)
}

fn block_with_state(k: &mut Kernel, frame: &mut TrapFrame, state: TcbState) -> (r: u64)
    requires
        old(k).wf(),
    ensures
        final(k).wf(),
        r == current(old(k)@),
        (final(k)@, *final(frame)) == left(old(k)@, *old(frame), state),
{
    let cur: u64 = current_pa(k);
    if cur == 0 {
        return 0;
    }
    let mut t: Tcb = k.tcb(cur);
    t.frame = *frame;
    t.state = state;
    k.set_tcb(cur, t);
    set_current(k, 0);
    switch_to_next(k, frame);
    cur
}

/// The stack pointer of a frame lies in the kernel boot stack or in the user
/// mirror, or is not set.
pub open spec fn sp_plausible(f: TrapFrame) -> bool {
    let sp = f.x[2];
    0x8080_0000 <= sp <= 0x80CB_2000 || 0x80_8000_0000 <= sp < 0x80_C000_0000 || sp == 0
}

/// Check the stack pointer of a frame that is about to be entered.
pub fn check_frame_sp(f: &TrapFrame) -> (r: bool)
    ensures
        r == sp_plausible(*f),
{
    let sp: u64 = f.x[2];
    let kernel_stack_ok: bool = sp >= 0x8080_0000 && sp <= 0x80CB_2000;
    let user_mirror_ok: bool = sp >= 0x80_8000_0000 && sp < 0x80_C000_0000;
    let zero_ok: bool = sp == 0;
    kernel_stack_ok || user_mirror_ok || zero_ok
}

/// The four bytes of a wait status: the exit code in bits 8 to 15 and up.
pub open spec fn wait_status(exit_code: u64) -> Seq<u8> {
    let code = exit_code as u32;
    seq![0u8, code as u8, (code >> 8u32) as u8, (code >> 16u32) as u8]
}

/// Waking the thread that waits for `cur` to exit. A Linux thread gets the
/// process number, and the wait status where it asked for it; any other thread
/// gets the exit code.
pub open spec fn waiter_woken(s: State, cur: u64, waiter: u64) -> State {
    let c = kernel::tcb(s, cur);
    let w = kernel::tcb(s, waiter);
    if w.linux_compat {
        let status_va = w.frame.x[11];
        let target = if status_va == 0 {
            None
        } else {
            vspace::translated(s.ptes, vspace::pgd_of(w.satp), status_va)
        };
        let s1 = match target {
            None => s,
            Some(pa) => kernel::with_bytes(s, pa, wait_status(c.exit_code)),
        };
        unblocked(s1, waiter, [c.pid, 0, 0, 0, 0, 0, 0, 0])
    } else {
        unblocked(s, waiter, [0, c.exit_code, 0, 0, 0, 0, 0, 0])
    }
}

/// The end of the current thread with the exit code in a2.
pub open spec fn exited(s: State, f: TrapFrame) -> (State, TrapFrame) {
    let cur = current(s);
    if cur == 0 {
        (s, f)
    } else {
        let t = kernel::tcb(s, cur);
        let s1 = kernel::with_tcb(
            s,
            cur,
            Tcb { frame: f, state: TcbState::Exited, exit_code: f.x[12], waiter_pa: 0, ..t },
        );
        let s2 = State {
            sched: Sched { live_threads: s1.sched.live_threads.wrapping_sub(1), ..s1.sched },
            ..s1
        };
        let s3 = if t.waiter_pa != 0 {
            waiter_woken(s2, cur, t.waiter_pa)
        } else {
            s2
        };
        switched(with_current(s3, 0), f)
    }
}

fn wake_waiter(k: &mut Kernel, cur: u64, waiter: u64)
    requires
        old(k).wf(),
    ensures
        final(k).wf(),
        final(k)@ == waiter_woken(old(k)@, cur, waiter),
{
    let c: Tcb = k.tcb(cur);
    let w: Tcb = k.tcb(waiter);
    if w.linux_compat {
        let status_va: u64 = w.frame.x[11];
        if status_va != 0 {
            let pgd: u64 = vspace::satp_to_pgd_pa(w.satp);
            if let Some(pa) = vspace::va_to_pa(k, pgd, status_va) {
                write_wait_status(k, pa, c.exit_code);
            }
        }
        unblock(k, waiter, [c.pid, 0, 0, 0, 0, 0, 0, 0]);
    } else {
        unblock(k, waiter, [0, c.exit_code, 0, 0, 0, 0, 0, 0]);
    }
}

/// Write the wait status for `exit_code` at the physical address `pa`.
pub fn write_wait_status(k: &mut Kernel, pa: u64, exit_code: u64)
    requires
        old(k).wf(),
    ensures
        final(k).wf(),
        final(k)@ == kernel::with_bytes(old(k)@, pa, wait_status(exit_code)),
{
    let code: u32 = exit_code as u32;
    let status: [u8; 4] = [0, code as u8, (code >> 8u32) as u8, (code >> 16u32) as u8];
    assert(status@ =~= wait_status(exit_code));
    k.write_bytes(pa, &status);
}

/// Mark the current thread exited and switch to the next one. A thread that
/// waits for it is woken first.
pub fn exit_current(k: &mut Kernel, frame: &mut TrapFrame)
    requires
        old(k).wf(),
    ensures
        final(k).wf(),
        (final(k)@, *final(frame)) == exited(old(k)@, *old(frame)),
{
    let cur: u64 = current_pa(k);
    if cur == 0 {
        return ;
    }
    let mut t: Tcb = k.tcb(cur);
    let waiter: u64 = t.waiter_pa;
    t.frame = *frame;
    t.state = TcbState::Exited;
    t.exit_code = frame.a2();
    t.waiter_pa = 0;
    k.set_tcb(cur, t);
    k.sched.live_threads = k.sched.live_threads.wrapping_sub(1);
    if waiter != 0 {
        wake_waiter(k, cur, waiter);
    }
    set_current(k, 0);
    switch_to_next(k, frame);
}

/// Turn on thread switching. Must be called before threads are enqueued.
pub fn start_scheduling(k: &mut Kernel)
    requires
        old(k).wf(),
    ensures
        final(k).wf(),
        final(k)@ == (State { sched: Sched { active: true, ..old(k)@.sched }, ..old(k)@ }),
{
    k.sched.active = true;
}

/// The context of the idle loop at `idle_pc` on the stack `sp`.
pub open spec fn idle_context(idle_pc: u64, sp: u64) -> TrapFrame {
    trap::with_x(TrapFrame { sepc: idle_pc, sstatus: 0x4_0120, ..TrapFrame::zeroed() }, 2, sp)
}

/// Fill the permanent idle frame: S-mode with interrupts enabled, user memory
/// accessible.
pub fn init_idle_frame(k: &mut Kernel, idle_pc: u64, sp: u64)
    requires
        old(k).wf(),
    ensures
        final(k).wf(),
        final(k)@ == (State {
            sched: Sched {
                idle_frame: idle_context(idle_pc, sp),
                idle_frame_ready: true,
                ..old(k)@.sched
            },
            ..old(k)@
        }),
{
    let mut frame: TrapFrame = TrapFrame::zero();
    frame.sepc = idle_pc;
    frame.sstatus = 0x4_0120;
    frame.x[2] = sp;
    k.sched.idle_frame = frame;
    k.sched.idle_frame_ready = true;
}

/// True once all threads have exited and the boot context was restored.
pub fn is_done(k: &Kernel) -> (r: bool)
    ensures
        r == !k@.sched.active,
{
    !k.sched.active
}

/// Enqueue a thread at the given priority level and count it as live.
pub fn enqueue(k: &mut Kernel, tcb_pa: u64, priority: usize)
    requires
        old(k).wf(),
        priority < MLFQ_LEVELS,
    ensures
        final(k).wf(),
        final(k)@ == enqueued(old(k)@, tcb_pa, priority as int),
{
    let mut t: Tcb = k.tcb(tcb_pa);
    t.priority = priority as u8;
    t.state = TcbState::Runnable;
    t.ticks_rem = ticks_for_level(priority as u8);
    t.next_pa = 0;
    k.set_tcb(tcb_pa, t);
    k.sched.live_threads = k.sched.live_threads.wrapping_add(1);
    link(k, tcb_pa, priority);
}

/// Yield the processor: re-enqueue the current thread at the highest level and
/// switch away.
pub fn yield_current(k: &mut Kernel, frame: &mut TrapFrame)
    requires
        old(k).wf(),
    ensures
        final(k).wf(),
        (final(k)@, *final(frame)) == yielded(old(k)@, *old(frame)),
{
    let cur: u64 = current_pa(k);
    if cur == 0 {
        return ;
    }
    let mut t: Tcb = k.tcb(cur);
    t.frame = *frame;
    t.state = TcbState::Runnable;
    k.set_tcb(cur, t);
    set_current(k, 0);
    link(k, cur, 0);
    switch_to_next(k, frame);
}

/// Retiring the current thread without switching away from it.
pub open spec fn retired(s: State) -> State {
    let cur = current(s);
    if cur == 0 {
        s
    } else {
        let s1 = kernel::with_tcb(s, cur, Tcb { state: TcbState::Suspended, ..kernel::tcb(s, cur) });
        State {
            sched: Sched { live_threads: s1.sched.live_threads.wrapping_sub(1), ..s1.sched },
            ..s1
        }
    }
}

/// Mark the current thread suspended; the caller then waits for the interrupt
/// that switches away from it.
pub fn thread_exit(k: &mut Kernel)
    requires
        old(k).wf(),
    ensures
        final(k).wf(),
        final(k)@ == retired(old(k)@),
{
    let cur: u64 = current_pa(k);
    if cur != 0 {
        let mut t: Tcb = k.tcb(cur);
        t.state = TcbState::Suspended;
        k.set_tcb(cur, t);
        k.sched.live_threads = k.sched.live_threads.wrapping_sub(1);
    }
}

fn age(t: &mut Tcb)
    ensures
        *final(t) == aged(*old(t)),
{
    if t.ticks_rem > 0 {
        t.ticks_rem = t.ticks_rem - 1;
    }
    if t.ticks_rem == 0 {
        let p: u8 = if t.priority < 2 {
            t.priority + 1
        } else {
            2
        };
        t.priority = p;
        t.ticks_rem = ticks_for_level(p);
    }
}

fn preempt(k: &mut Kernel, frame: &TrapFrame)
    requires
        old(k).wf(),
    ensures
        final(k).wf(),
        final(k)@ == preempted(old(k)@, *frame),
{
    let cur: u64 = current_pa(k);
    let hart: usize = k.hart;
    if cur == 0 {
        // Only a context that came from S-mode may become the boot frame.
        if !k.sched.boot_frame_valid[hart] && frame.sstatus & SSTATUS_SPP != 0 {
            k.sched.boot_frame[hart] = *frame;
            k.sched.boot_frame_valid[hart] = true;
        }
    } else {
        let mut t: Tcb = k.tcb(cur);
        t.frame = *frame;
        if t.state == TcbState::Running {
            t.state = TcbState::Runnable;
        }
        if t.state == TcbState::Runnable {
            age(&mut t);
            k.set_tcb(cur, t);
            link(k, cur, t.priority as usize);
        } else {
            k.set_tcb(cur, t);
        }
        set_current(k, 0);
    }
}

/// Handle a supervisor timer interrupt. The caller re-arms the timer.
pub fn on_timer(k: &mut Kernel, frame: &mut TrapFrame)
    requires
        old(k).wf(),
    ensures
        final(k).wf(),
        (final(k)@, *final(frame)) == ticked(old(k)@, *old(frame)),
{
    k.sched.tick_count = k.sched.tick_count.wrapping_add(1);
    if !k.sched.active {
        return ;
    }
    preempt(k, frame);
    switch_to_next(k, frame);
}

} // verus!
