//! Parents and children: what clone gives both, and whom wait4 finds.
use crate::arch::riscv64::trap::TrapFrame;
use crate::kernel::{self, State};
use crate::linux_compat::fork;
use crate::linux_compat::memory;
use crate::linux_compat::wait;
use crate::mm::buddy;
use crate::sched;
use crate::thread::{Tcb, TcbState};
use vstd::prelude::*;

verus! {

/// The child that wait4 finds is one it was asked for, and the newest such; it
/// finds none only if there is none.
#[verifier::rlimit(30)]
pub proof fn law_wait_finds_newest(
    s: State,
    threads: Seq<u64>,
    cur: u64,
    pid_arg: i64,
    exited: bool,
)
    ensures
        match wait::newest(s, threads, cur, pid_arg, exited) {
            Some(pa) => {
                &&& wait::awaited(kernel::tcb(s, pa), cur, pid_arg)
                &&& exited ==> kernel::tcb(s, pa).state == TcbState::Exited
                &&& exists|i: int|
                    0 <= i < threads.len() && #[trigger] threads[i] == pa && (forall|j: int|
                        i < j < threads.len() ==> !(wait::awaited(
                            kernel::tcb(s, #[trigger] threads[j]),
                            cur,
                            pid_arg,
                        ) && (exited ==> kernel::tcb(s, threads[j]).state == TcbState::Exited)))
            },
            None => forall|j: int|
                0 <= j < threads.len() ==> !(wait::awaited(
                    kernel::tcb(s, #[trigger] threads[j]),
                    cur,
                    pid_arg,
                ) && (exited ==> kernel::tcb(s, threads[j]).state == TcbState::Exited)),
        },
    decreases threads.len(),
{
    if threads.len() > 0 {
        let n = threads.len() - 1;
        let t = kernel::tcb(s, threads.last());
        let rest = threads.drop_last();
        if wait::awaited(t, cur, pid_arg) && (exited ==> t.state == TcbState::Exited) {
            assert(threads[n] == threads.last());
        } else {
            law_wait_finds_newest(s, rest, cur, pid_arg, exited);
            match wait::newest(s, rest, cur, pid_arg, exited) {
                Some(pa) => {
                    let i = choose|i: int|
                        0 <= i < rest.len() && #[trigger] rest[i] == pa && (forall|j: int|
                            i < j < rest.len() ==> !(wait::awaited(
                                kernel::tcb(s, #[trigger] rest[j]),
                                cur,
                                pid_arg,
                            ) && (exited ==> kernel::tcb(s, rest[j]).state == TcbState::Exited)));
                    assert(threads[i] == pa);
                    assert forall|j: int| i < j < threads.len() implies !(wait::awaited(
                        kernel::tcb(s, #[trigger] threads[j]),
                        cur,
                        pid_arg,
                    ) && (exited ==> kernel::tcb(s, threads[j]).state == TcbState::Exited)) by {
                        if j < n {
                            assert(rest[j] == threads[j]);
                        }
                    }
                },
                None => {
                    assert forall|j: int| 0 <= j < threads.len() implies !(wait::awaited(
                        kernel::tcb(s, #[trigger] threads[j]),
                        cur,
                        pid_arg,
                    ) && (exited ==> kernel::tcb(s, threads[j]).state == TcbState::Exited)) by {
                        if j < n {
                            assert(rest[j] == threads[j]);
                        }
                    }
                },
            }
        }
    }
}

/// clone returns twice: the parent gets the child's number, and the child starts
/// at the same place with result 0, runnable, with the parent's heap and
/// capabilities.
pub proof fn law_clone_returns_twice(s: State, cur: u64, child: u64, f: TrapFrame)
    requires
        child != cur,
        buddy::lists_ok(s.mm.lists),
        !buddy::is_free(s.mm.lists, child as int),
    ensures
        ({
            let (s1, pid) = fork::child_started(s, cur, child, f);
            let c = kernel::tcb(s1, child);
            let p = kernel::tcb(s, cur);
            &&& pid == kernel::tcb(s, child).pid as i64
            &&& c.frame.x[10] == 0
            &&& c.frame.sepc == f.sepc
            &&& forall|i: int|
                0 <= i < 32 && i != 10 && i != 2 ==> #[trigger] c.frame.x[i] == f.x[i]
            &&& c.state is Runnable
            &&& c.brk_base == p.brk_base && c.brk_next == p.brk_next && c.mmap_bump == p.mmap_bump
            &&& c.cspace_pa == p.cspace_pa && c.cspace_sb == p.cspace_sb
        }),
{
    let c = kernel::tcb(s, child);
    let s1 = kernel::with_tcb(s, child, fork::inherited(c, kernel::tcb(s, cur)));
    let s2 = fork::fd_table_copied(s1, cur, child);
    kernel::lemma_page_made(s1);
    let t = kernel::tcb(s2, child);
    assert(t == (Tcb { fd_table_pa: t.fd_table_pa, ..kernel::tcb(s1, child) }));
}

/// The pages that the heap grows by are whole pages above its end, up to the
/// goal.
pub proof fn law_heap_grows_up(s: State, pgd: u64, from: u64, to: u64)
    requires
        from % 4096 == 0,
        to % 4096 == 0,
    ensures
        ({
            let end = memory::heap_grown(s, pgd, from, to).1;
            &&& from <= end
            &&& end % 4096 == 0
            &&& from <= to ==> end <= to
        }),
    decreases
            if from < to {
                to - from
            } else {
                0
            },
{
    if from < to {
        let (s1, ok) = memory::zero_page_mapped(s, pgd, from);
        if ok && from + 4096 <= u64::MAX {
            law_heap_grows_up(s1, pgd, (from + 4096) as u64, to);
        }
    }
}

/// Asking for the end of the heap changes nothing.
pub proof fn law_brk_query(s: State)
    requires
        sched::current(s) != 0,
    ensures
        memory::brk_called(s, 0) == (s, kernel::tcb(s, sched::current(s)).brk_next as i64),
{
}

} // verus!
