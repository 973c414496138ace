//! Children that exit and parents that wait for them.
use crate::arch::riscv64::trap::{self, TrapFrame};
use crate::arch::riscv64::vspace;
use crate::kernel::{self, State};
use crate::linux_compat::{self, errno, family, nr, wait};
use crate::sched::{self, contexts, Sched, MAX_HARTS};
use crate::thread::{Tcb, TcbState};
use vstd::prelude::*;

verus! {

/// Thread `pa` is a child of the caller that wait4 with `pid_arg` asks for, and
/// it has exited.
pub open spec fn exited_child(s: State, pa: u64, pid_arg: i64) -> bool {
    &&& s.threads.contains(pa)
    &&& wait::awaited(kernel::tcb(s, pa), sched::current(s), pid_arg)
    &&& kernel::tcb(s, pa).state is Exited
}

/// Thread `pa` is a child of the caller that wait4 with `pid_arg` asks for.
pub open spec fn child(s: State, pa: u64, pid_arg: i64) -> bool {
    s.threads.contains(pa) && wait::awaited(kernel::tcb(s, pa), sched::current(s), pid_arg)
}

/// wait4 reports a child that has exited at once: its number in a0, and its wait
/// status where it was asked for. The caller goes on, and nothing else changes.
pub proof fn law_wait_reports_exited(
    s: State,
    f: TrapFrame,
    pid_arg: i64,
    wstatus: u64,
    some: u64,
)
    requires
        sched::current(s) != 0,
        exited_child(s, some, pid_arg),
    ensures
        ({
            let (s1, f1) = wait::wait4_called(s, f, pid_arg, wstatus);
            let pgd = vspace::pgd_of(kernel::tcb(s, sched::current(s)).satp);
            &&& exists|pa: u64| #[trigger]
                exited_child(s, pa, pid_arg) && f1.x[10] == kernel::tcb(s, pa).pid && (wstatus != 0
                    ==> (vspace::translated(s.ptes, pgd, wstatus) matches Some(at) ==> s1
                    == kernel::with_bytes(
                    s,
                    at,
                    sched::wait_status(kernel::tcb(s, pa).exit_code),
                )))
            &&& f1.sepc == f.sepc
            &&& forall|i: int| 0 <= i < 32 && i != 10 ==> #[trigger] f1.x[i] == f.x[i]
            &&& s1 == (State { bytes: s1.bytes, ..s })
            &&& wstatus == 0 ==> s1 == s
        }),
{
    let cur = sched::current(s);
    family::law_wait_finds_newest(s, s.threads, cur, pid_arg, true);
    let j = choose|j: int| 0 <= j < s.threads.len() && s.threads[j] == some;
    assert(kernel::tcb(s, s.threads[j]).state == TcbState::Exited);
    let found = wait::newest(s, s.threads, cur, pid_arg, true);
    assert(found is Some);
    let pa = found->0;
    assert(s.threads.contains(pa));
    assert(exited_child(s, pa, pid_arg));
}

/// wait4 without any child that it asks for is answered ECHILD, and nothing
/// changes.
pub proof fn law_wait_without_children(s: State, f: TrapFrame, pid_arg: i64, wstatus: u64)
    requires
        forall|pa: u64| !#[trigger] child(s, pa, pid_arg),
    ensures
        wait::wait4_called(s, f, pid_arg, wstatus) == (
            s,
            trap::with_x(f, 10, errno::ECHILD as u64),
        ),
{
    let cur = sched::current(s);
    if cur != 0 {
        family::law_wait_finds_newest(s, s.threads, cur, pid_arg, true);
        family::law_wait_finds_newest(s, s.threads, cur, pid_arg, false);
        if let Some(pa) = wait::newest(s, s.threads, cur, pid_arg, true) {
            assert(s.threads.contains(pa));
            assert(child(s, pa, pid_arg));
        }
        if let Some(pa) = wait::newest(s, s.threads, cur, pid_arg, false) {
            assert(s.threads.contains(pa));
            assert(child(s, pa, pid_arg));
        }
    }
}

/// wait4 while the children that it asks for all live blocks the caller in its
/// own context, as the one that waits for one of them.
pub proof fn law_wait_blocks(s: State, f: TrapFrame, pid_arg: i64, wstatus: u64, some: u64)
    requires
        s.hart < MAX_HARTS,
        sched::current(s) != 0,
        child(s, some, pid_arg),
        forall|pa: u64| !#[trigger] exited_child(s, pa, pid_arg),
    ensures
        ({
            let cur = sched::current(s);
            let (s1, f1) = wait::wait4_called(s, f, pid_arg, wstatus);
            &&& contexts::context(s1, f1, cur) == f
            &&& kernel::tcb(s1, cur).state is Blocked || sched::current(s1) == cur
            &&& exists|pa: u64| #[trigger]
                child(s, pa, pid_arg) && kernel::tcb(s1, pa).waiter_pa == cur
        }),
{
    let cur = sched::current(s);
    family::law_wait_finds_newest(s, s.threads, cur, pid_arg, true);
    family::law_wait_finds_newest(s, s.threads, cur, pid_arg, false);
    if let Some(pa) = wait::newest(s, s.threads, cur, pid_arg, true) {
        assert(s.threads.contains(pa));
        assert(exited_child(s, pa, pid_arg));
    }
    let j = choose|j: int| 0 <= j < s.threads.len() && s.threads[j] == some;
    assert(wait::awaited(kernel::tcb(s, s.threads[j]), cur, pid_arg));
    let found = wait::newest(s, s.threads, cur, pid_arg, false);
    assert(found is Some);
    let pa = found->0;
    assert(s.threads.contains(pa));
    assert(child(s, pa, pid_arg));
    let s1 = kernel::with_tcb(s, pa, Tcb { waiter_pa: cur, ..kernel::tcb(s, pa) });
    contexts::law_leaving_keeps_contexts(s1, f, cur);
    contexts::lemma_blocked_keeps(s1, f, pa);
}

/// A Linux process exits with the code in a0: that is the code its parent will
/// see, and the process does not go on.
pub proof fn law_exit_code(s: State, f: TrapFrame, input: u8)
    requires
        s.hart < MAX_HARTS,
        sched::current(s) != 0,
        f.x[17] == nr::SYS_EXIT || f.x[17] == nr::SYS_EXIT_GROUP,
        kernel::tcb(s, sched::current(s)).waiter_pa != sched::current(s),
    ensures
        ({
            let cur = sched::current(s);
            let (s1, f1, r) = linux_compat::dispatched(s, f, input);
            &&& r is Ok
            &&& kernel::tcb(s1, cur).exit_code == f.x[10]
            &&& kernel::tcb(s1, cur).state is Exited || sched::current(s1) == cur
            &&& s1.sched.live_threads == s.sched.live_threads.wrapping_sub(1)
        }),
{
    let cur = sched::current(s);
    let g = trap::with_x(f, 12, f.x[10]);
    assert(g.x[12] == f.x[10]);
    if kernel::tcb(s, cur).waiter_pa != cur {
        contexts::law_exit_is_final(s, g, cur);
    }
}

/// When a process exits, a Linux parent that waits finds the wait status where it
/// asked for it, and no other memory changes.
pub proof fn law_exit_writes_status(s: State, f: TrapFrame, at: u64)
    requires
        sched::current(s) != 0,
        kernel::tcb(s, sched::current(s)).waiter_pa != 0,
        kernel::tcb(s, sched::current(s)).waiter_pa != sched::current(s),
        ({
            let w = kernel::tcb(s, kernel::tcb(s, sched::current(s)).waiter_pa);
            &&& w.linux_compat
            &&& w.frame.x[11] != 0
            &&& vspace::translated(s.ptes, vspace::pgd_of(w.satp), w.frame.x[11]) == Some(at)
        }),
    ensures
        sched::exited(s, f).0.bytes == kernel::with_bytes(
            s,
            at,
            sched::wait_status(f.x[12]),
        ).bytes,
{
    let cur = sched::current(s);
    let t = kernel::tcb(s, cur);
    let s1 = kernel::with_tcb(
        s,
        cur,
        Tcb { frame: f, state: TcbState::Exited, exit_code: f.x[12], waiter_pa: 0, ..t },
    );
    let s2 = State {
        sched: Sched { live_threads: s1.sched.live_threads.wrapping_sub(1), ..s1.sched },
        ..s1
    };
    let s3 = kernel::with_bytes(s2, at, sched::wait_status(f.x[12]));
    lemma_unblocked_bytes(s3, t.waiter_pa, [t.pid, 0, 0, 0, 0, 0, 0, 0]);
    let s4 = sched::unblocked(s3, t.waiter_pa, [t.pid, 0, 0, 0, 0, 0, 0, 0]);
    assert(sched::waiter_woken(s2, cur, t.waiter_pa) == s4);
    lemma_switched_bytes(sched::with_current(s4, 0), f);
}

proof fn lemma_unblocked_bytes(s: State, pa: u64, reply: [u64; 8])
    ensures
        sched::unblocked(s, pa, reply).bytes == s.bytes,
{
}

proof fn lemma_switched_bytes(s: State, f: TrapFrame)
    ensures
        sched::switched(s, f).0.bytes == s.bytes,
{
}

} // verus!
