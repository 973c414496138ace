//! Whose context a hart returns to: threads go on exactly where they stopped.
use crate::arch::riscv64::trap::{self, TrapFrame};
use crate::kernel::{self, State};
use crate::sched::{self, queue, Sched, MAX_HARTS};
use crate::thread::{self, Tcb, TcbState, MLFQ_LEVELS};
use vstd::prelude::*;

verus! {

/// The context in which thread `pa` goes on when its hart returns to `f`: `f`
/// itself if the thread is the current one, else the context saved in it.
pub open spec fn context(s: State, f: TrapFrame, pa: u64) -> TrapFrame {
    if sched::current(s) == pa {
        f
    } else {
        kernel::tcb(s, pa).frame
    }
}

/// The hart returns to a thread that runs, in its own context and its own
/// address space, or to no thread.
pub open spec fn entered(s: State, f: TrapFrame) -> bool {
    let pa = sched::current(s);
    pa != 0 ==> {
        &&& kernel::tcb(s, pa).state is Running
        &&& kernel::tcb(s, pa).frame == f
        &&& s.sched.next_satp[s.hart as int] == kernel::tcb(s, pa).satp
    }
}

/// Two versions of a thread that differ in its place in a queue and in how it is
/// scheduled only.
pub open spec fn same_but_scheduling(t: Tcb, u: Tcb) -> bool {
    t == (Tcb {
        frame: t.frame,
        state: t.state,
        priority: t.priority,
        ticks_rem: t.ticks_rem,
        next_pa: t.next_pa,
        ..u
    })
}

proof fn lemma_linked_keeps(s: State, pa: u64, level: int, p: u64)
    ensures
        ({
            let t = kernel::tcb(sched::linked(s, pa, level), p);
            t == (Tcb { next_pa: t.next_pa, ..kernel::tcb(s, p) })
        }),
        sched::linked(s, pa, level).sched.current == s.sched.current,
        sched::linked(s, pa, level).hart == s.hart,
{
}

/// Waking keeps every saved context and makes the thread runnable.
pub proof fn lemma_woken(s: State, pa: u64, p: u64)
    ensures
        kernel::tcb(sched::woken(s, pa), p).frame == kernel::tcb(s, p).frame,
        kernel::tcb(sched::woken(s, pa), pa).state is Runnable,
{
    let s1 = kernel::with_tcb(
        s,
        pa,
        Tcb {
            state: TcbState::Runnable,
            priority: 0,
            ticks_rem: thread::level_ticks(0),
            next_pa: 0,
            ..kernel::tcb(s, pa)
        },
    );
    lemma_linked_keeps(s1, pa, 0, p);
    lemma_linked_keeps(s1, pa, 0, pa);
}

/// Switching enters the context that the next thread saved, and keeps what every
/// thread has saved.
pub proof fn lemma_switched(s: State, f: TrapFrame, p: u64)
    requires
        s.hart < MAX_HARTS,
        sched::current(s) == 0,
    ensures
        ({
            let (s1, f1) = sched::switched(s, f);
            let t = kernel::tcb(s1, p);
            &&& t == (Tcb { next_pa: t.next_pa, state: t.state, ..kernel::tcb(s, p) })
            &&& t.state == kernel::tcb(s, p).state || (t.state is Running && sched::current(s1) == p)
            &&& entered(s1, f1)
            &&& p != 0 ==> context(s1, f1, p) == kernel::tcb(s, p).frame
            &&& s1.hart == s.hart
        }),
{
    let (s1, next) = sched::dequeued(s);
    if next != 0 {
        let t = kernel::tcb(s1, next);
        let s2 = kernel::with_tcb(s1, next, Tcb { state: TcbState::Running, ..t });
        let s3 = sched::with_current(s2, next);
        assert(sched::current(s3) == next);
        let s4 = sched::with_next_satp(s3, t.satp);
        assert(sched::current(s4) == next);
        assert(s4.sched.next_satp[s4.hart as int] == t.satp);
    }
}

proof fn lemma_preempted(s: State, f: TrapFrame, p: u64)
    requires
        s.hart < MAX_HARTS,
    ensures
        ({
            let s1 = sched::preempted(s, f);
            &&& sched::current(s1) == 0
            &&& s1.hart == s.hart
            &&& p != 0 ==> kernel::tcb(s1, p).frame == context(s, f, p)
            &&& same_but_scheduling(kernel::tcb(s1, p), kernel::tcb(s, p))
            &&& p != sched::current(s) ==> kernel::tcb(s1, p).state == kernel::tcb(s, p).state
        }),
{
    let cur = sched::current(s);
    if cur != 0 {
        let t = Tcb { frame: f, ..kernel::tcb(s, cur) };
        if t.state is Running || t.state is Runnable {
            let t1 = sched::aged(Tcb { state: TcbState::Runnable, ..t });
            let s1 = kernel::with_tcb(s, cur, t1);
            lemma_linked_keeps(s1, cur, t1.priority as int, p);
        }
    }
}

/// A timer interrupt switches threads without changing where any of them goes
/// on: the interrupted thread resumes the very context in which it was
/// interrupted, and every other thread the one it had saved.
pub proof fn law_tick_keeps_contexts(s: State, f: TrapFrame, pa: u64)
    requires
        s.hart < MAX_HARTS,
        s.sched.active,
        pa != 0,
    ensures
        ({
            let (s1, f1) = sched::ticked(s, f);
            &&& context(s1, f1, pa) == context(s, f, pa)
            &&& entered(s1, f1)
            &&& same_but_scheduling(kernel::tcb(s1, pa), kernel::tcb(s, pa))
        }),
{
    let s0 = State {
        sched: Sched { tick_count: s.sched.tick_count.wrapping_add(1), ..s.sched },
        ..s
    };
    lemma_preempted(s0, f, pa);
    lemma_switched(sched::preempted(s0, f), f, pa);
}

/// A thread that yields or blocks resumes the context in which it did so, and
/// every other thread the one it had saved. A thread that blocks is blocked
/// unless it was runnable still.
pub proof fn law_leaving_keeps_contexts(s: State, f: TrapFrame, pa: u64)
    requires
        s.hart < MAX_HARTS,
        pa != 0,
    ensures
        ({
            let (s1, f1) = sched::blocked(s, f);
            let t = kernel::tcb(s1, sched::current(s));
            &&& context(s1, f1, pa) == context(s, f, pa)
            &&& sched::current(s) != 0 ==> entered(s1, f1)
            &&& sched::current(s) != 0 ==> t.state is Blocked || sched::current(s1)
                == sched::current(s)
        }),
        ({
            let (s1, f1) = sched::yielded(s, f);
            let t = kernel::tcb(s1, sched::current(s));
            &&& context(s1, f1, pa) == context(s, f, pa)
            &&& sched::current(s) != 0 ==> entered(s1, f1)
            &&& sched::current(s) != 0 ==> t.state is Runnable || sched::current(s1)
                == sched::current(s)
        }),
{
    let cur = sched::current(s);
    if cur != 0 {
        let s1 = kernel::with_tcb(
            s,
            cur,
            Tcb { frame: f, state: TcbState::Blocked, ..kernel::tcb(s, cur) },
        );
        lemma_switched(sched::with_current(s1, 0), f, pa);
        lemma_switched(sched::with_current(s1, 0), f, cur);
        let s2 = sched::with_current(
            kernel::with_tcb(
                s,
                cur,
                Tcb { frame: f, state: TcbState::Runnable, ..kernel::tcb(s, cur) },
            ),
            0,
        );
        let s3 = sched::linked(s2, cur, 0);
        lemma_linked_keeps(s2, cur, 0, pa);
        lemma_linked_keeps(s2, cur, 0, cur);
        lemma_switched(s3, f, pa);
        lemma_switched(s3, f, cur);
    }
}

/// Blocking changes of a thread only its context, its state and its place in a
/// queue.
pub proof fn lemma_blocked_keeps(s: State, f: TrapFrame, p: u64)
    requires
        s.hart < MAX_HARTS,
    ensures
        ({
            let t = kernel::tcb(sched::blocked(s, f).0, p);
            t == (Tcb { frame: t.frame, state: t.state, next_pa: t.next_pa, ..kernel::tcb(s, p) })
        }),
{
    let cur = sched::current(s);
    if cur != 0 {
        let s1 = kernel::with_tcb(
            s,
            cur,
            Tcb { frame: f, state: TcbState::Blocked, ..kernel::tcb(s, cur) },
        );
        lemma_switched(sched::with_current(s1, 0), f, p);
    }
}

/// Run queues depend on the links of the queued threads only.
proof fn lemma_queues_kept(s: State, t: State, qs: Seq<Seq<u64>>, pa: u64)
    requires
        queue::run_queues(s, qs),
        forall|l: int| 0 <= l < MLFQ_LEVELS ==> !(#[trigger] qs[l]).contains(pa),
        t.sched.queue_head == s.sched.queue_head,
        t.sched.queue_tail == s.sched.queue_tail,
        forall|p: u64|
            p != pa ==> kernel::tcb(t, p).next_pa == #[trigger] kernel::tcb(s, p).next_pa,
    ensures
        queue::run_queues(t, qs),
{
    assert forall|l: int| 0 <= l < MLFQ_LEVELS implies queue::run_queue(t, l, #[trigger] qs[l]) by {
        assert(queue::run_queue(s, l, qs[l]));
        queue::lemma_chain_kept(s, t, s.sched.queue_head[l], s.sched.queue_tail[l], qs[l]);
    }
}

/// The highest level of `qs` that holds a thread.
pub open spec fn top(qs: Seq<Seq<u64>>) -> int {
    if qs[0].len() > 0 {
        0
    } else if qs[1].len() > 0 {
        1
    } else {
        2
    }
}

/// `qs` without the thread that runs next.
pub open spec fn shortened(qs: Seq<Seq<u64>>) -> Seq<Seq<u64>> {
    qs.update(top(qs), qs[top(qs)].drop_first())
}

/// Switching runs the thread that has waited longest at the highest level that
/// holds any, and takes it off its queue.
proof fn lemma_switched_first(s: State, f: TrapFrame, qs: Seq<Seq<u64>>)
    requires
        s.hart < MAX_HARTS,
        queue::run_queues(s, qs),
        qs[top(qs)].len() > 0,
    ensures
        ({
            let (s1, f1) = sched::switched(s, f);
            let next = qs[top(qs)][0];
            &&& sched::current(s1) == next
            &&& next != 0
            &&& f1 == kernel::tcb(s, next).frame
            &&& queue::run_queues(s1, shortened(qs))
        }),
{
    queue::law_dequeue_takes_first(s, qs);
    let (s1, next) = sched::dequeued(s);
    let level = sched::top_level(s, 0);
    assert(!(forall|l: int| 0 <= l < MLFQ_LEVELS ==> (#[trigger] qs[l]).len() == 0));
    assert(level == top(qs));
    let q = qs[level];
    assert(queue::run_queue(s, level, q));
    assert(q.contains(q[0]));
    let t = kernel::tcb(s1, next);
    let s2 = kernel::with_tcb(s1, next, Tcb { state: TcbState::Running, ..t });
    let s3 = sched::with_next_satp(sched::with_current(s2, next), t.satp);
    let rs = shortened(qs);
    assert forall|l: int| 0 <= l < MLFQ_LEVELS implies queue::run_queue(s3, l, #[trigger] rs[l]) by {
        assert(queue::run_queue(s1, l, rs[l]));
        queue::lemma_chain_kept(s1, s3, s1.sched.queue_head[l], s1.sched.queue_tail[l], rs[l]);
    }
}

/// The level at which a thread waits after it has run for a tick: its own while
/// it has ticks left, else the next lower one.
pub open spec fn level_after(t: Tcb) -> int {
    if t.ticks_rem > 1 || t.priority >= 2 {
        t.priority as int
    } else {
        t.priority + 1
    }
}

/// A timer interrupt puts the running thread at the end of the queue of its
/// level, one level lower when its ticks are used up, and runs the thread that
/// has waited longest at the highest level that holds any.
pub proof fn law_tick_rotates(s: State, f: TrapFrame, qs: Seq<Seq<u64>>)
    requires
        s.hart < MAX_HARTS,
        s.sched.active,
        sched::current(s) != 0,
        kernel::tcb(s, sched::current(s)).state is Running,
        kernel::tcb(s, sched::current(s)).priority < MLFQ_LEVELS,
        queue::run_queues(s, qs),
        forall|l: int|
            0 <= l < MLFQ_LEVELS ==> !(#[trigger] qs[l]).contains(sched::current(s)),
    ensures
        ({
            let cur = sched::current(s);
            let (s1, f1) = sched::ticked(s, f);
            let level = level_after(kernel::tcb(s, cur));
            let rs = qs.update(level, qs[level].push(cur));
            let next = rs[top(rs)][0];
            &&& sched::current(s1) == next
            &&& f1 == context(s, f, next)
            &&& queue::run_queues(s1, shortened(rs))
            &&& kernel::tcb(s1, cur).priority == level
            &&& next != cur ==> kernel::tcb(s1, cur).state is Runnable
        }),
{
    let cur = sched::current(s);
    let s0 = State {
        sched: Sched { tick_count: s.sched.tick_count.wrapping_add(1), ..s.sched },
        ..s
    };
    let t = kernel::tcb(s, cur);
    let t1 = sched::aged(Tcb { frame: f, state: TcbState::Runnable, ..t });
    let level = level_after(t);
    assert(t1.priority == level);
    let s1 = kernel::with_tcb(s0, cur, t1);
    lemma_queues_kept(s, s1, qs, cur);
    queue::law_enqueue_appends(s1, qs, cur, level);
    let rs = qs.update(level, qs[level].push(cur));
    let s2 = sched::linked(s1, cur, level);
    let s3 = sched::with_current(s2, 0);
    assert(queue::run_queues(s3, rs)) by {
        assert forall|l: int| 0 <= l < MLFQ_LEVELS implies queue::run_queue(s3, l, #[trigger] rs[l]) by {
            assert(queue::run_queue(s2, l, rs[l]));
            queue::lemma_chain_kept(s2, s3, s2.sched.queue_head[l], s2.sched.queue_tail[l], rs[l]);
        }
    }
    assert(rs[level].len() > 0);
    assert(rs[top(rs)].len() > 0);
    lemma_switched_first(s3, f, rs);
    let next = rs[top(rs)][0];
    lemma_linked_keeps(s1, cur, level, next);
    lemma_linked_keeps(s1, cur, level, cur);
    assert(sched::preempted(s0, f) == s3);
    lemma_switched(s3, f, cur);
}

/// A hart that idles when the timer interrupts it comes back to the context it
/// idled in: at once if no thread can run, else when none can run any more.
pub proof fn law_idle_context_returns(s: State, f: TrapFrame)
    requires
        s.hart < MAX_HARTS,
        s.sched.active,
        sched::current(s) == 0,
        !s.sched.boot_frame_valid[s.hart as int],
        f.sstatus & sched::SSTATUS_SPP != 0,
    ensures
        ({
            let (s1, f1) = sched::ticked(s, f);
            let h = s.hart as int;
            if sched::current(s1) == 0 {
                f1 == f && s1.sched.next_satp[h] == s.boot_satp
            } else {
                s1.sched.boot_frame_valid[h] && s1.sched.boot_frame[h] == f
            }
        }),
{
    let s0 = State {
        sched: Sched { tick_count: s.sched.tick_count.wrapping_add(1), ..s.sched },
        ..s
    };
    let s1 = sched::preempted(s0, f);
    assert(s1.sched.boot_frame_valid[s.hart as int]);
    assert(s1.sched.boot_frame[s.hart as int] == f);
    let (s2, next) = sched::dequeued(s1);
    assert(s2.sched.boot_frame == s1.sched.boot_frame);
}

/// When the last runnable thread leaves, the hart returns to the context it
/// idled in before.
pub proof fn law_last_thread_leaves(s: State, f: TrapFrame, qs: Seq<Seq<u64>>)
    requires
        s.hart < MAX_HARTS,
        sched::current(s) != 0,
        queue::run_queues(s, qs),
        forall|l: int| 0 <= l < MLFQ_LEVELS ==> (#[trigger] qs[l]).len() == 0,
        s.sched.boot_frame_valid[s.hart as int],
    ensures
        ({
            let (s1, f1) = sched::blocked(s, f);
            &&& sched::current(s1) == 0
            &&& f1 == s.sched.boot_frame[s.hart as int]
            &&& s1.sched.next_satp[s.hart as int] == s.boot_satp
        }),
{
    let cur = sched::current(s);
    let s1 = sched::with_current(
        kernel::with_tcb(
            s,
            cur,
            Tcb { frame: f, state: TcbState::Blocked, ..kernel::tcb(s, cur) },
        ),
        0,
    );
    assert(queue::run_queues(s1, qs)) by {
        assert forall|l: int| 0 <= l < MLFQ_LEVELS implies queue::run_queue(s1, l, #[trigger] qs[l]) by {
            assert(queue::run_queue(s, l, qs[l]));
        }
    }
    queue::law_dequeue_takes_first(s1, qs);
}

/// Scheduling ends when hart 0 comes to idle while no thread is alive and none
/// waits for input, and stays on as long as some thread lives or waits.
pub proof fn law_scheduling_ends(s: State, f: TrapFrame)
    requires
        s.hart < MAX_HARTS,
        sched::current(s) == 0,
    ensures
        ({
            let (s1, f1) = sched::switched(s, f);
            &&& s.sched.live_threads != 0 || s.sched.io_waiters != 0 || s.hart != 0
                ==> s1.sched.active == s.sched.active
            &&& sched::current(s1) != 0 ==> s1.sched.active == s.sched.active
            &&& s.sched.live_threads == 0 && s.sched.io_waiters == 0 && s.hart == 0 && sched::current(
                s1,
            ) == 0 && (s.sched.boot_frame_valid[0] || s.sched.idle_frame_ready)
                ==> !s1.sched.active
        }),
{
    let (s1, next) = sched::dequeued(s);
    assert(s1.sched.boot_frame_valid == s.sched.boot_frame_valid);
}

/// A thread that exits is over: it keeps its exit code and does not run again,
/// one thread less is alive, and only the thread that waits for it changes its
/// context.
pub proof fn law_exit_is_final(s: State, f: TrapFrame, pa: u64)
    requires
        s.hart < MAX_HARTS,
        sched::current(s) != 0,
        pa != 0,
        pa != kernel::tcb(s, sched::current(s)).waiter_pa,
        kernel::tcb(s, sched::current(s)).waiter_pa != sched::current(s),
    ensures
        ({
            let cur = sched::current(s);
            let (s1, f1) = sched::exited(s, f);
            &&& context(s1, f1, pa) == context(s, f, pa)
            &&& kernel::tcb(s1, cur).state is Exited || sched::current(s1) == cur
            &&& kernel::tcb(s1, cur).exit_code == f.x[12]
            &&& s1.sched.live_threads == s.sched.live_threads.wrapping_sub(1)
            &&& entered(s1, f1)
        }),
{
    let cur = sched::current(s);
    let t = kernel::tcb(s, cur);
    let s1 = kernel::with_tcb(
        s,
        cur,
        Tcb { frame: f, state: TcbState::Exited, exit_code: f.x[12], waiter_pa: 0, ..t },
    );
    let s2 = State {
        sched: Sched { live_threads: s1.sched.live_threads.wrapping_sub(1), ..s1.sched },
        ..s1
    };
    if t.waiter_pa != 0 {
        lemma_waiter_woken_keeps(s2, cur, t.waiter_pa, pa);
        lemma_waiter_woken_keeps(s2, cur, t.waiter_pa, cur);
        let s3 = sched::waiter_woken(s2, cur, t.waiter_pa);
        lemma_switched(sched::with_current(s3, 0), f, pa);
        lemma_switched(sched::with_current(s3, 0), f, cur);
    } else {
        lemma_switched(sched::with_current(s2, 0), f, pa);
        lemma_switched(sched::with_current(s2, 0), f, cur);
    }
}

/// Waking a waiter keeps every other thread.
proof fn lemma_waiter_woken_keeps(s: State, cur: u64, waiter: u64, p: u64)
    requires
        p != waiter,
    ensures
        ({
            let s1 = sched::waiter_woken(s, cur, waiter);
            let t = kernel::tcb(s1, p);
            &&& t == (Tcb { next_pa: t.next_pa, ..kernel::tcb(s, p) })
            &&& s1.sched.current == s.sched.current
            &&& s1.hart == s.hart
            &&& s1.sched.live_threads == s.sched.live_threads
        }),
{
}

/// A thread that yields goes to the end of the queue of the highest level, and
/// the thread that has waited longest runs. Its level as such stays.
pub proof fn law_yield_rotates(s: State, f: TrapFrame, qs: Seq<Seq<u64>>)
    requires
        s.hart < MAX_HARTS,
        sched::current(s) != 0,
        queue::run_queues(s, qs),
        forall|l: int|
            0 <= l < MLFQ_LEVELS ==> !(#[trigger] qs[l]).contains(sched::current(s)),
    ensures
        ({
            let cur = sched::current(s);
            let (s1, f1) = sched::yielded(s, f);
            let rs = qs.update(0, qs[0].push(cur));
            &&& sched::current(s1) == rs[0][0]
            &&& f1 == context(s, f, rs[0][0])
            &&& queue::run_queues(s1, rs.update(0, rs[0].drop_first()))
            &&& kernel::tcb(s1, cur).priority == kernel::tcb(s, cur).priority
        }),
{
    let cur = sched::current(s);
    let s1 = sched::with_current(
        kernel::with_tcb(
            s,
            cur,
            Tcb { frame: f, state: TcbState::Runnable, ..kernel::tcb(s, cur) },
        ),
        0,
    );
    lemma_queues_kept(s, s1, qs, cur);
    queue::law_enqueue_appends(s1, qs, cur, 0);
    let s2 = sched::linked(s1, cur, 0);
    let rs = qs.update(0, qs[0].push(cur));
    assert(rs[top(rs)].len() > 0);
    lemma_switched_first(s2, f, rs);
    lemma_linked_keeps(s1, cur, 0, rs[0][0]);
    lemma_linked_keeps(s1, cur, 0, cur);
    lemma_switched(s2, f, cur);
}

/// A thread that blocks is in no run queue, and the thread that has waited
/// longest runs.
pub proof fn law_block_runs_next(s: State, f: TrapFrame, qs: Seq<Seq<u64>>)
    requires
        s.hart < MAX_HARTS,
        sched::current(s) != 0,
        queue::run_queues(s, qs),
        forall|l: int|
            0 <= l < MLFQ_LEVELS ==> !(#[trigger] qs[l]).contains(sched::current(s)),
        qs[top(qs)].len() > 0,
    ensures
        ({
            let (s1, f1) = sched::blocked(s, f);
            let next = qs[top(qs)][0];
            &&& sched::current(s1) == next
            &&& f1 == kernel::tcb(s, next).frame
            &&& queue::run_queues(s1, shortened(qs))
            &&& kernel::tcb(s1, sched::current(s)).state is Blocked
            &&& kernel::tcb(s1, sched::current(s)).frame == f
        }),
{
    let cur = sched::current(s);
    let s1 = sched::with_current(
        kernel::with_tcb(
            s,
            cur,
            Tcb { frame: f, state: TcbState::Blocked, ..kernel::tcb(s, cur) },
        ),
        0,
    );
    lemma_queues_kept(s, s1, qs, cur);
    lemma_switched_first(s1, f, qs);
    assert(qs[top(qs)].contains(qs[top(qs)][0]));
    assert(qs[top(qs)][0] != cur);
    lemma_switched(s1, f, cur);
}

/// A thread that is woken with a reply joins the queue of the highest level at
/// the end, with the reply in its registers and the rest of its context as it
/// saved it; nothing else of any thread changes.
pub proof fn law_wake_queues(s: State, qs: Seq<Seq<u64>>, pa: u64, reply: [u64; 8], p: u64)
    requires
        queue::run_queues(s, qs),
        pa != 0,
        forall|l: int| 0 <= l < MLFQ_LEVELS ==> !(#[trigger] qs[l]).contains(pa),
    ensures
        ({
            let s1 = sched::unblocked(s, pa, reply);
            let t = kernel::tcb(s1, pa);
            let u = kernel::tcb(s1, p);
            &&& queue::run_queues(s1, qs.update(0, qs[0].push(pa)))
            &&& forall|i: int| 0 <= i < 8 ==> #[trigger] t.frame.x[10 + i] == reply[i]
            &&& forall|i: int|
                0 <= i < 32 && !(10 <= i < 18) ==> #[trigger] t.frame.x[i] == kernel::tcb(
                    s,
                    pa,
                ).frame.x[i]
            &&& t.frame.sepc == kernel::tcb(s, pa).frame.sepc
            &&& t.frame.sstatus == kernel::tcb(s, pa).frame.sstatus
            &&& t.state is Runnable
            &&& same_but_scheduling(t, kernel::tcb(s, pa))
            &&& p != pa ==> u == (Tcb { next_pa: u.next_pa, ..kernel::tcb(s, p) })
        }),
{
    trap::law_reply_read_back(kernel::tcb(s, pa).frame, reply);
    let t = Tcb {
        frame: trap::replied(kernel::tcb(s, pa).frame, reply),
        ..kernel::tcb(s, pa)
    };
    let s1 = kernel::with_tcb(s, pa, t);
    let s2 = kernel::with_tcb(
        s1,
        pa,
        Tcb {
            state: TcbState::Runnable,
            priority: 0,
            ticks_rem: thread::level_ticks(0),
            next_pa: 0,
            ..kernel::tcb(s1, pa)
        },
    );
    lemma_queues_kept(s, s2, qs, pa);
    queue::law_enqueue_appends(s2, qs, pa, 0);
    lemma_linked_keeps(s2, pa, 0, pa);
    lemma_linked_keeps(s2, pa, 0, p);
}

/// A thread that is admitted joins the queue of its level at the end and counts
/// as alive; its context stays.
pub proof fn law_admit_queues(s: State, qs: Seq<Seq<u64>>, pa: u64, priority: int)
    requires
        queue::run_queues(s, qs),
        pa != 0,
        0 <= priority < MLFQ_LEVELS,
        forall|l: int| 0 <= l < MLFQ_LEVELS ==> !(#[trigger] qs[l]).contains(pa),
    ensures
        ({
            let s1 = sched::enqueued(s, pa, priority);
            let t = kernel::tcb(s1, pa);
            &&& queue::run_queues(s1, qs.update(priority, qs[priority].push(pa)))
            &&& t.frame == kernel::tcb(s, pa).frame
            &&& t.priority == priority
            &&& t.state is Runnable
            &&& same_but_scheduling(t, kernel::tcb(s, pa))
            &&& s1.sched.live_threads == s.sched.live_threads.wrapping_add(1)
            &&& s1.sched.current == s.sched.current
        }),
{
    let s1 = kernel::with_tcb(
        s,
        pa,
        Tcb {
            priority: priority as u8,
            state: TcbState::Runnable,
            ticks_rem: thread::level_ticks(priority as u8),
            next_pa: 0,
            ..kernel::tcb(s, pa)
        },
    );
    let s2 = State {
        sched: Sched { live_threads: s1.sched.live_threads.wrapping_add(1), ..s1.sched },
        ..s1
    };
    lemma_queues_kept(s, s2, qs, pa);
    queue::law_enqueue_appends(s2, qs, pa, priority);
    lemma_linked_keeps(s2, pa, priority, pa);
}

} // verus!
