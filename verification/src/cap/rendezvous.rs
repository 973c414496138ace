//! Message passing: who waits at an endpoint, in which order, and what arrives.
use crate::arch::riscv64::trap::{self, TrapFrame};
use crate::cap::endpoint::{self, Endpoint};
use crate::kernel::{self, State};
use crate::sched;
use crate::sched::queue;
use crate::syscall::error;
use crate::thread::{Tcb, TcbState};
use vstd::prelude::*;

verus! {

/// An endpoint is idle exactly when nobody waits at it.
pub open spec fn endpoint_ok(e: Endpoint) -> bool {
    e.state is Idle <==> e.queue_head == 0
}

/// The threads `q` wait at the endpoint, first to last.
pub open spec fn waiting(s: State, e: Endpoint, q: Seq<u64>) -> bool {
    queue::chain(s, e.queue_head, e.queue_tail, q)
}

/// A thread joins the wait queue at the end.
pub proof fn law_waiter_joins_last(s: State, e: Endpoint, q: Seq<u64>, pa: u64)
    requires
        waiting(s, e, q),
        pa != 0,
        !q.contains(pa),
    ensures
        ({
            let (s1, e1) = endpoint::ep_queued(s, e, pa);
            waiting(s1, e1, q.push(pa))
        }),
{
    let (s1, e1) = endpoint::ep_queued(s, e, pa);
    if q.len() > 0 {
        assert(q.contains(q[0]));
        assert(q.contains(q.last()));
    }
    queue::lemma_chain_append(s, s1, e.queue_head, e.queue_tail, q, pa);
}

/// The thread that has waited longest leaves the wait queue first.
pub proof fn law_waiter_leaves_first(s: State, e: Endpoint, q: Seq<u64>)
    requires
        waiting(s, e, q),
    ensures
        ({
            let (s1, e1, pa) = endpoint::ep_unqueued(s, e);
            if q.len() == 0 {
                pa == 0 && s1 == s && e1 == e
            } else {
                pa == q[0] && waiting(s1, e1, q.drop_first())
            }
        }),
{
    let (s1, e1, pa) = endpoint::ep_unqueued(s, e);
    if q.len() > 0 {
        assert(q.contains(q[0]));
        queue::lemma_chain_rest(s, s1, e.queue_head, e.queue_tail, q);
    }
}

/// Sending and receiving keep an endpoint idle exactly when nobody waits at it.
pub proof fn law_idle_iff_empty(
    s: State,
    e: Endpoint,
    f: TrapFrame,
    badge: u64,
    msg: [u64; 4],
    is_call: bool,
)
    requires
        endpoint_ok(e),
        sched::current(s) != 0,
    ensures
        endpoint_ok(endpoint::sent(s, e, f, badge, msg, is_call).1),
        endpoint_ok(endpoint::received(s, e, f).1),
{
}

/// Senders wait only where no receiver does, and receivers only where no sender
/// does: a sender that finds a receiver does not wait, nor the reverse.
pub proof fn law_one_side_waits(
    s: State,
    e: Endpoint,
    f: TrapFrame,
    badge: u64,
    msg: [u64; 4],
    is_call: bool,
)
    ensures
        e.state is RecvBlocked ==> !(endpoint::sent(s, e, f, badge, msg, is_call).1.state is SendBlocked),
        e.state is SendBlocked ==> !(endpoint::received(s, e, f).1.state is RecvBlocked),
{
}

/// Linking a thread into a run queue keeps every thread's frame and state.
proof fn lemma_linked_keeps(s: State, pa: u64, level: int, p: u64)
    ensures
        ({
            let t = kernel::tcb(sched::linked(s, pa, level), p);
            t == (Tcb { next_pa: t.next_pa, ..kernel::tcb(s, p) })
        }),
{
}

/// Waking keeps the frame of every thread.
proof fn lemma_woken_keeps(s: State, pa: u64, p: u64)
    ensures
        kernel::tcb(sched::woken(s, pa), p).frame == kernel::tcb(s, p).frame,
        kernel::tcb(sched::woken(s, pa), p).reply_pa == kernel::tcb(s, p).reply_pa,
        kernel::tcb(sched::woken(s, pa), pa).state is Runnable,
        p != pa ==> kernel::tcb(sched::woken(s, pa), p).state == kernel::tcb(s, p).state,
        sched::current(sched::woken(s, pa)) == sched::current(s),
{
    let s1 = kernel::with_tcb(
        s,
        pa,
        Tcb {
            state: TcbState::Runnable,
            priority: 0,
            ticks_rem: crate::thread::level_ticks(0),
            next_pa: 0,
            ..kernel::tcb(s, pa)
        },
    );
    lemma_linked_keeps(s1, pa, 0, p);
    lemma_linked_keeps(s1, pa, 0, pa);
}

/// Switching keeps the frame of every thread.
proof fn lemma_switched_keeps(s: State, f: TrapFrame, p: u64)
    ensures
        kernel::tcb(sched::switched(s, f).0, p).frame == kernel::tcb(s, p).frame,
        kernel::tcb(sched::switched(s, f).0, p).reply_pa == kernel::tcb(s, p).reply_pa,
{
}

/// Blocking keeps the frame of every thread but the current one.
proof fn lemma_blocked_keeps(s: State, f: TrapFrame, p: u64)
    ensures
        p != sched::current(s) ==> kernel::tcb(sched::blocked(s, f).0, p).frame == kernel::tcb(
            s,
            p,
        ).frame,
        kernel::tcb(sched::blocked(s, f).0, p).reply_pa == kernel::tcb(s, p).reply_pa,
{
    let cur = sched::current(s);
    if cur != 0 {
        let s1 = sched::with_current(
            kernel::with_tcb(
                s,
                cur,
                Tcb { frame: f, state: TcbState::Blocked, ..kernel::tcb(s, cur) },
            ),
            0,
        );
        lemma_switched_keeps(s1, f, p);
    }
}

/// A capability transfer keeps the frame of every thread.
proof fn lemma_transferred_keeps(s: State, sender: Tcb, recv: u64, src: u64, p: u64)
    ensures
        kernel::tcb(endpoint::transferred(s, sender, recv, src), p).frame == kernel::tcb(s, p).frame,
        kernel::tcb(endpoint::transferred(s, sender, recv, src), p).reply_pa == kernel::tcb(
            s,
            p,
        ).reply_pa,
        sched::current(endpoint::transferred(s, sender, recv, src)) == sched::current(s),
{
}

/// A message that is sent while a receiver waits arrives in the registers of
/// the receiver that has waited longest, with the sender's badge; a call also
/// leaves the receiver the caller to reply to.
#[verifier::rlimit(30)]
pub proof fn law_message_arrives(
    s: State,
    e: Endpoint,
    q: Seq<u64>,
    f: TrapFrame,
    badge: u64,
    msg: [u64; 4],
    is_call: bool,
)
    requires
        e.state is RecvBlocked,
        waiting(s, e, q),
        q.len() > 0,
        !q.contains(sched::current(s)),
    ensures
        ({
            let (s1, e1, f1) = endpoint::sent(s, e, f, badge, msg, is_call);
            let r = kernel::tcb(s1, q[0]);
            &&& r.frame == trap::replied(
                kernel::tcb(s, q[0]).frame,
                [error::OK, badge, msg[0], msg[1], msg[2], msg[3], 0, 0],
            )
            &&& is_call ==> r.reply_pa == sched::current(s)
            &&& !is_call ==> r.state is Runnable
            &&& !is_call ==> f1 == trap::replied(f, [error::OK, 0, 0, 0, 0, 0, 0, 0])
        }),
{
    let cur = sched::current(s);
    assert(q.contains(q[0]));
    let (s1, e1, recv) = endpoint::ep_unqueued(s, e);
    let r = kernel::tcb(s1, recv);
    let s2 = kernel::with_tcb(
        s1,
        recv,
        Tcb {
            frame: trap::replied(
                r.frame,
                [error::OK, badge, msg[0], msg[1], msg[2], msg[3], 0, 0],
            ),
            ..r
        },
    );
    let s3 = if f.x[16] != 0 && cur != 0 {
        endpoint::transferred(s2, kernel::tcb(s2, cur), recv, f.x[16])
    } else {
        s2
    };
    lemma_transferred_keeps(s2, kernel::tcb(s2, cur), recv, f.x[16], recv);
    if is_call {
        let s4 = kernel::with_tcb(s3, recv, Tcb { reply_pa: cur, ..kernel::tcb(s3, recv) });
        lemma_woken_keeps(s4, recv, recv);
        lemma_blocked_keeps(sched::woken(s4, recv), f, recv);
    } else {
        lemma_woken_keeps(s3, recv, recv);
    }
}

/// A receiver that finds a sender waiting takes the message of the one that has
/// waited longest; a caller becomes the thread to reply to.
pub proof fn law_message_taken(s: State, e: Endpoint, q: Seq<u64>, f: TrapFrame)
    requires
        e.state is SendBlocked,
        waiting(s, e, q),
        q.len() > 0,
        sched::current(s) != 0,
        !q.contains(sched::current(s)),
    ensures
        ({
            let (s1, e1, f1) = endpoint::received(s, e, f);
            let t = kernel::tcb(s, q[0]);
            &&& f1 == trap::replied(
                f,
                [
                    error::OK,
                    t.frame.x[12],
                    t.frame.x[13],
                    t.frame.x[14],
                    t.frame.x[15],
                    0,
                    0,
                    0,
                ],
            )
            &&& t.ipc_is_call ==> kernel::tcb(s1, sched::current(s)).reply_pa == q[0]
            &&& !t.ipc_is_call ==> kernel::tcb(s1, q[0]).state is Runnable
        }),
{
    assert(q.contains(q[0]));
    let cur = sched::current(s);
    let s0 = kernel::with_tcb(s, cur, Tcb { cap_recv_slot: f.x[16], ..kernel::tcb(s, cur) });
    let (s1, e1, send) = endpoint::ep_unqueued(s0, e);
    let t = kernel::tcb(s1, send);
    let s2 = if t.frame.x[16] != 0 {
        endpoint::transferred(s1, t, cur, t.frame.x[16])
    } else {
        kernel::with_tcb(s1, cur, Tcb { cap_recv_slot: 0, ..kernel::tcb(s1, cur) })
    };
    if !t.ipc_is_call {
        let s3 = kernel::with_tcb(
            s2,
            send,
            Tcb {
                frame: trap::replied(
                    kernel::tcb(s2, send).frame,
                    [error::OK, 0, 0, 0, 0, 0, 0, 0],
                ),
                ..kernel::tcb(s2, send)
            },
        );
        lemma_woken_keeps(s3, send, send);
    }
}

/// A reply arrives in the registers of the caller, which can run again, and the
/// right to reply is used up.
pub proof fn law_reply_arrives(s: State, reply: [u64; 8])
    requires
        sched::current(s) != 0,
        kernel::tcb(s, sched::current(s)).reply_pa != 0,
        kernel::tcb(s, sched::current(s)).reply_pa != sched::current(s),
    ensures
        ({
            let s1 = endpoint::reply_delivered(s, reply);
            let caller = kernel::tcb(s, sched::current(s)).reply_pa;
            &&& kernel::tcb(s1, caller).frame == trap::replied(kernel::tcb(s, caller).frame, reply)
            &&& kernel::tcb(s1, caller).state is Runnable
            &&& kernel::tcb(s1, sched::current(s)).reply_pa == 0
        }),
{
    let cur = sched::current(s);
    let caller = kernel::tcb(s, cur).reply_pa;
    let s1 = kernel::with_tcb(s, cur, Tcb { reply_pa: 0, ..kernel::tcb(s, cur) });
    let s2 = kernel::with_tcb(
        s1,
        caller,
        Tcb {
            frame: trap::replied(kernel::tcb(s1, caller).frame, reply),
            ..kernel::tcb(s1, caller)
        },
    );
    lemma_woken_keeps(s2, caller, caller);
    lemma_woken_keeps(s2, caller, cur);
}

} // verus!
