//! wait4: waiting for a child to exit.
use crate::arch::riscv64::trap::{self, TrapFrame};
use crate::arch::riscv64::vspace::{self, satp_to_pgd_pa, va_to_pa};
use crate::kernel::{self, Kernel, State};
use crate::linux_compat::errno;
use crate::sched;
use crate::thread::{Tcb, TcbState};
use vstd::prelude::*;

verus! {

/// The thread is a child that wait4 with this argument asks for.
pub open spec fn awaited(t: Tcb, cur: u64, pid_arg: i64) -> bool {
    t.parent_pa == cur && (pid_arg == -1 || t.pid == pid_arg as u64) && t.state
        != TcbState::Inactive
}

/// The newest of `threads` that is asked for, among those that exited or among
/// all.
pub open spec fn newest(s: State, threads: Seq<u64>, cur: u64, pid_arg: i64, exited: bool) -> Option<
    u64,
>
    decreases threads.len(),
{
    if threads.len() == 0 {
        None
    } else {
        let t = kernel::tcb(s, threads.last());
        if awaited(t, cur, pid_arg) && (exited ==> t.state == TcbState::Exited) {
            Some(threads.last())
        } else {
            newest(s, threads.drop_last(), cur, pid_arg, exited)
        }
    }
}

/// Reporting an exited child: the wait status where it was asked for and can be
/// written, and the process number in a0.
pub open spec fn reaped(s: State, f: TrapFrame, child: Tcb, wstatus_va: u64) -> (
    State,
    TrapFrame,
) {
    let cur = sched::current(s);
    let target = if wstatus_va == 0 || cur == 0 {
        None
    } else {
        vspace::translated(s.ptes, vspace::pgd_of(kernel::tcb(s, cur).satp), wstatus_va)
    };
    let s1 = match target {
        None => s,
        Some(pa) => kernel::with_bytes(s, pa, sched::wait_status(child.exit_code)),
    };
    (s1, trap::with_x(f, 10, child.pid))
}

/// wait4(pid, wstatus): a child that exited is reported at once; otherwise the
/// caller blocks until the newest child asked for exits.
pub open spec fn wait4_called(s: State, f: TrapFrame, pid_arg: i64, wstatus_va: u64) -> (
    State,
    TrapFrame,
) {
    let cur = sched::current(s);
    if cur == 0 {
        (s, trap::with_x(f, 10, errno::ECHILD as u64))
    } else {
        match newest(s, s.threads, cur, pid_arg, true) {
            Some(child) => reaped(s, f, kernel::tcb(s, child), wstatus_va),
            None => match newest(s, s.threads, cur, pid_arg, false) {
                None => (s, trap::with_x(f, 10, errno::ECHILD as u64)),
                Some(child) => sched::blocked(
                    kernel::with_tcb(
                        s,
                        child,
                        Tcb { waiter_pa: cur, ..kernel::tcb(s, child) },
                    ),
                    f,
                ),
            },
        }
    }
}

fn find_child(k: &Kernel, cur: u64, pid_arg: i64, exited: bool) -> (r: Option<u64>)
    requires
        k.wf(),
    ensures
        r == newest(k@, k@.threads, cur, pid_arg, exited),
{
    let mut i: usize = k.threads.len();
    assert(k@.threads.take(i as int) =~= k@.threads);
    while i > 0
        invariant
            k.wf(),
            i <= k@.threads.len(),
            newest(k@, k@.threads.take(i as int), cur, pid_arg, exited) == newest(
                k@,
                k@.threads,
                cur,
                pid_arg,
                exited,
            ),
        decreases i,
    {
        i -= 1;
        assert(k@.threads.take(i + 1).drop_last() =~= k@.threads.take(i as int));
        let pa: u64 = k.threads[i];
        let t: Tcb = k.tcb(pa);
        if t.parent_pa == cur && (pid_arg == -1 || t.pid == pid_arg as u64) && t.state
            != TcbState::Inactive && (!exited || t.state == TcbState::Exited) {
            return Some(pa);
        }
    }
    None
}

fn wait_reap(k: &mut Kernel, child: Tcb, wstatus_va: u64, frame: &mut TrapFrame)
    requires
        old(k).wf(),
    ensures
        final(k).wf(),
        (final(k)@, *final(frame)) == reaped(old(k)@, *old(frame), child, wstatus_va),
{
    if wstatus_va != 0 {
        let cur: u64 = sched::current_pa(k);
        if cur != 0 {
            let pgd: u64 = satp_to_pgd_pa(k.tcb(cur).satp);
            if let Some(pa) = va_to_pa(k, pgd, wstatus_va) {
                sched::write_wait_status(k, pa, child.exit_code);
            }
        }
    }
    frame.set_a0(child.pid);
}

pub fn sys_wait4(k: &mut Kernel, pid_arg: i64, wstatus_va: u64, frame: &mut TrapFrame)
    requires
        old(k).wf(),
    ensures
        final(k).wf(),
        (final(k)@, *final(frame)) == wait4_called(old(k)@, *old(frame), pid_arg, wstatus_va),
{
    let cur: u64 = sched::current_pa(k);
    if cur == 0 {
        frame.set_a0(errno::ECHILD as u64);
        return ;
    }
    if let Some(child) = find_child(k, cur, pid_arg, true) {
        let t: Tcb = k.tcb(child);
        wait_reap(k, t, wstatus_va, frame);
        return ;
    }
    match find_child(k, cur, pid_arg, false) {
        None => {
            frame.set_a0(errno::ECHILD as u64);
        },
        Some(child) => {
            let mut t: Tcb = k.tcb(child);
            t.waiter_pa = cur;
            k.set_tcb(child, t);
            let _ = sched::block_current(k, frame);
        },
    }
}

} // verus!
