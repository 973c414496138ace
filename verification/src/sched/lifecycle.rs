//! The life of a thread: its number, its waiting parent, its end.
use crate::arch::riscv64::trap::{self, TrapFrame};
use crate::bytes;
use crate::kernel::{self, State};
use crate::sched::{self, Sched};
use crate::thread::{self, Tcb, TcbState};
use vstd::prelude::*;

verus! {

/// A new thread takes the next process number, is runnable at the highest level
/// and is the last of all threads.
pub proof fn law_new_thread(s: State, entry: u64, sstatus: u64)
    ensures
        thread::tcb_made(s, entry, sstatus) matches (s1, Some(pa)) ==> {
            let t = kernel::tcb(s1, pa);
            &&& t.pid == s.next_pid
            &&& s1.next_pid == s.next_pid.wrapping_add(1)
            &&& s1.threads == s.threads.push(pa)
            &&& t.state is Runnable
            &&& t.priority == 0
            &&& t.frame.sepc == entry
        },
{
}

/// Two threads that are created one after the other have different numbers.
pub proof fn law_numbers_differ(s: State, entry1: u64, entry2: u64, sstatus1: u64, sstatus2: u64)
    ensures
        thread::tcb_made(s, entry1, sstatus1) matches (s1, Some(a)) ==> thread::tcb_made(
            s1,
            entry2,
            sstatus2,
        ) matches (s2, Some(b)) ==> kernel::tcb(s1, a).pid != kernel::tcb(s2, b).pid,
{
    if let Some(a) = thread::tcb_made(s, entry1, sstatus1).1 {
        law_new_thread(s, entry1, sstatus1);
        law_new_thread(thread::tcb_made(s, entry1, sstatus1).0, entry2, sstatus2);
    }
}

/// Switching keeps of every thread all but its place in a queue and whether it
/// runs.
proof fn lemma_switched_keeps(s: State, f: TrapFrame, p: u64)
    ensures
        ({
            let t = kernel::tcb(sched::switched(s, f).0, p);
            t == (Tcb { next_pa: t.next_pa, state: t.state, ..kernel::tcb(s, p) }) && (t.state
                == kernel::tcb(s, p).state || t.state is Running)
        }),
{
}

/// A thread that exits leaves its exit code, and the thread that waits for it
/// wakes: a Linux thread with the process number, any other with the exit code.
pub proof fn law_exit_wakes_waiter(s: State, f: TrapFrame)
    requires
        sched::current(s) != 0,
        kernel::tcb(s, sched::current(s)).waiter_pa != 0,
        kernel::tcb(s, sched::current(s)).waiter_pa != sched::current(s),
    ensures
        ({
            let cur = sched::current(s);
            let waiter = kernel::tcb(s, cur).waiter_pa;
            let s1 = sched::exited(s, f).0;
            let c = kernel::tcb(s1, cur);
            let w = kernel::tcb(s1, waiter);
            &&& c.exit_code == f.x[12]
            &&& c.waiter_pa == 0
            &&& w.state is Runnable || w.state is Running
            &&& w.frame == trap::replied(
                kernel::tcb(s, waiter).frame,
                if w.linux_compat {
                    [kernel::tcb(s, cur).pid, 0, 0, 0, 0, 0, 0, 0]
                } else {
                    [0, f.x[12], 0, 0, 0, 0, 0, 0]
                },
            )
        }),
{
    let cur = sched::current(s);
    let t = kernel::tcb(s, cur);
    let waiter = t.waiter_pa;
    let s1 = kernel::with_tcb(
        s,
        cur,
        Tcb { frame: f, state: TcbState::Exited, exit_code: f.x[12], waiter_pa: 0, ..t },
    );
    let s2 = State {
        sched: Sched { live_threads: s1.sched.live_threads.wrapping_sub(1), ..s1.sched },
        ..s1
    };
    let s3 = sched::waiter_woken(s2, cur, waiter);
    lemma_waiter_woken(s2, cur, waiter);
    lemma_switched_keeps(sched::with_current(s3, 0), f, cur);
    lemma_switched_keeps(sched::with_current(s3, 0), f, waiter);
}

/// What waking a waiter changes of it and of the thread that exited.
#[verifier::rlimit(30)]
proof fn lemma_waiter_woken(s: State, cur: u64, waiter: u64)
    requires
        cur != waiter,
    ensures
        ({
            let s1 = sched::waiter_woken(s, cur, waiter);
            let c = kernel::tcb(s, cur);
            let w = kernel::tcb(s1, waiter);
            &&& w.state is Runnable
            &&& w.linux_compat == kernel::tcb(s, waiter).linux_compat
            &&& w.frame == trap::replied(
                kernel::tcb(s, waiter).frame,
                if w.linux_compat {
                    [c.pid, 0, 0, 0, 0, 0, 0, 0]
                } else {
                    [0, c.exit_code, 0, 0, 0, 0, 0, 0]
                },
            )
            &&& kernel::tcb(s1, cur).exit_code == c.exit_code
            &&& kernel::tcb(s1, cur).waiter_pa == c.waiter_pa
        }),
{
}

/// The wait status is a word with the low 24 bits of the exit code above a zero
/// byte, as the macros of the C library expect it.
pub proof fn law_wait_status_word(code: u64)
    ensures
        sched::wait_status(code).len() == 4,
        bytes::le32(sched::wait_status(code), 0) == (code as u32) << 8u32,
{
    let c = code as u32;
    let b = sched::wait_status(code);
    assert((c as u8) * 0x100 + ((c >> 8u32) as u8) * 0x1_0000 + ((c >> 16u32) as u8) * 0x100_0000
        == c << 8u32) by (bit_vector);
}

/// A thread after `n` ticks.
pub open spec fn aged_by(t: Tcb, n: nat) -> Tcb
    decreases n,
{
    if n == 0 {
        t
    } else {
        aged_by(sched::aged(t), (n - 1) as nat)
    }
}

/// A thread keeps its level until its ticks are used up, and then drops one
/// level, down to the lowest, with that level's ticks.
pub proof fn law_ticks_demote(t: Tcb, n: nat)
    requires
        t.priority <= 2,
        0 < t.ticks_rem,
        n <= t.ticks_rem,
    ensures
        n < t.ticks_rem ==> aged_by(t, n) == (Tcb { ticks_rem: (t.ticks_rem - n) as u16, ..t }),
        n == t.ticks_rem ==> ({
            let p: u8 = if t.priority < 2 {
                (t.priority + 1) as u8
            } else {
                2
            };
            aged_by(t, n) == (Tcb { priority: p, ticks_rem: thread::level_ticks(p), ..t })
        }),
    decreases n,
{
    if n > 0 {
        let u = sched::aged(t);
        if t.ticks_rem > 1 {
            law_ticks_demote(u, (n - 1) as nat);
        }
    }
}

/// A thread that wakes starts over at the highest level.
pub proof fn law_woken_at_top(s: State, pa: u64)
    ensures
        kernel::tcb(sched::woken(s, pa), pa).priority == 0,
        kernel::tcb(sched::woken(s, pa), pa).ticks_rem == thread::level_ticks(0),
        kernel::tcb(sched::woken(s, pa), pa).state is Runnable,
{
}

} // verus!
