//! Capabilities that travel with messages, and who is left waiting.
use crate::arch::riscv64::trap::{self, TrapFrame};
use crate::cap::cnode;
use crate::cap::endpoint::{self, Endpoint, EpState};
use crate::cap::rendezvous;
use crate::cap::Cap;
use crate::kernel::{self, State};
use crate::objects;
use crate::sched::{self, queue, MAX_HARTS};
use crate::syscall::error;
use crate::thread::{Tcb, TcbState, MLFQ_LEVELS};
use vstd::prelude::*;

verus! {

/// The capability that thread `t` gives away when it names slot `src` of its
/// CSpace: none for slot 0, for a slot out of range and for an empty one.
pub open spec fn offered(s: State, t: Tcb, src: u64) -> Option<Cap> {
    let (pa, bits) = endpoint::cspace_for(s, t);
    let c = cnode::slot(s.caps, pa, src);
    if src != 0 && src < cnode::slot_count(bits) && !(c.cap_type is Null) {
        Some(c)
    } else {
        None
    }
}

/// Thread `t` can take a capability into slot `dst` of its CSpace: the slot is
/// not slot 0, is in range and is empty.
pub open spec fn accepts(s: State, t: Tcb, dst: u64) -> bool {
    let (pa, bits) = endpoint::cspace_for(s, t);
    dst != 0 && dst < cnode::slot_count(bits) && cnode::slot(s.caps, pa, dst).cap_type is Null
}

/// Slot `dst` of thread `t` holds `c` and no other slot has changed.
pub open spec fn granted(before: State, after: State, t: Tcb, dst: u64, c: Cap) -> bool {
    let addr = cnode::slot_addr(endpoint::cspace_for(before, t).0, dst);
    &&& objects::at(after.caps, addr) == c
    &&& forall|a: u64|
        a != addr ==> #[trigger] objects::at(after.caps, a) == objects::at(before.caps, a)
}

/// A receiver that finds a sender waiting gets a copy of the capability that the
/// sender offers in the slot that it names itself. Without an offer, or without
/// room for it, no slot changes.
pub proof fn law_capability_taken(s: State, e: Endpoint, q: Seq<u64>, f: TrapFrame)
    requires
        e.state is SendBlocked,
        rendezvous::waiting(s, e, q),
        q.len() > 0,
        sched::current(s) != 0,
        !q.contains(sched::current(s)),
    ensures
        ({
            let s1 = endpoint::received(s, e, f).0;
            let sender = kernel::tcb(s, q[0]);
            let receiver = kernel::tcb(s, sched::current(s));
            match offered(s, sender, sender.frame.x[16]) {
                Some(c) if accepts(s, receiver, f.x[16]) => granted(s, s1, receiver, f.x[16], c),
                _ => s1.caps == s.caps,
            }
        }),
{
    assert(q.contains(q[0]));
}

/// A sender that finds a receiver waiting gives it a copy of the capability that
/// it offers, in the slot that the receiver named when it began to wait. Without
/// an offer, or without room for it, no slot changes.
pub proof fn law_capability_delivered(
    s: State,
    e: Endpoint,
    q: Seq<u64>,
    f: TrapFrame,
    badge: u64,
    msg: [u64; 4],
    is_call: bool,
)
    requires
        e.state is RecvBlocked,
        rendezvous::waiting(s, e, q),
        q.len() > 0,
        sched::current(s) != 0,
        !q.contains(sched::current(s)),
    ensures
        ({
            let s1 = endpoint::sent(s, e, f, badge, msg, is_call).0;
            let sender = kernel::tcb(s, sched::current(s));
            let receiver = kernel::tcb(s, q[0]);
            match offered(s, sender, f.x[16]) {
                Some(c) if accepts(s, receiver, receiver.cap_recv_slot) => granted(
                    s,
                    s1,
                    receiver,
                    receiver.cap_recv_slot,
                    c,
                ),
                _ => s1.caps == s.caps,
            }
        }),
{
    assert(q.contains(q[0]));
    let cur = sched::current(s);
    let (s1, e1, recv) = endpoint::ep_unqueued(s, e);
    let r = kernel::tcb(s1, recv);
    let s2 = kernel::with_tcb(
        s1,
        recv,
        Tcb {
            frame: trap::replied(
                r.frame,
                [error::OK, badge, msg[0], msg[1], msg[2], msg[3], 0, 0],
            ),
            ..r
        },
    );
    let sender = kernel::tcb(s, cur);
    assert(kernel::tcb(s2, cur) == sender);
    assert(offered(s2, sender, f.x[16]) == offered(s, sender, f.x[16]));
    lemma_transferred(s2, sender, recv, f.x[16]);
    let s3 = if f.x[16] != 0 {
        endpoint::transferred(s2, sender, recv, f.x[16])
    } else {
        s2
    };
    if is_call {
        let s4 = kernel::with_tcb(s3, recv, Tcb { reply_pa: cur, ..kernel::tcb(s3, recv) });
        lemma_caps_kept(s4, recv, f);
        lemma_caps_kept(sched::woken(s4, recv), recv, f);
    } else {
        lemma_caps_kept(s3, recv, f);
    }
}

/// A transfer puts a copy of what is offered into the slot that the receiver
/// named.
proof fn lemma_transferred(s: State, sender: Tcb, recv: u64, src: u64)
    ensures
        ({
            let s1 = endpoint::transferred(s, sender, recv, src);
            let receiver = kernel::tcb(s, recv);
            match offered(s, sender, src) {
                Some(c) if accepts(s, receiver, receiver.cap_recv_slot) => granted(
                    s,
                    s1,
                    receiver,
                    receiver.cap_recv_slot,
                    c,
                ),
                _ => s1.caps == s.caps,
            }
        }),
{
}

/// Waking and blocking keep every capability.
proof fn lemma_caps_kept(s: State, pa: u64, f: TrapFrame)
    ensures
        sched::woken(s, pa).caps == s.caps,
        sched::blocked(s, f).0.caps == s.caps,
{
}

/// Blocking keeps a chain of threads that are in no run queue.
proof fn lemma_blocked_chain(
    s: State,
    f: TrapFrame,
    qs: Seq<Seq<u64>>,
    head: u64,
    tail: u64,
    q: Seq<u64>,
)
    requires
        queue::run_queues(s, qs),
        queue::chain(s, head, tail, q),
        forall|l: int, p: u64|
            0 <= l < MLFQ_LEVELS && q.contains(p) ==> !(#[trigger] qs[l].contains(p)),
        forall|l: int|
            0 <= l < MLFQ_LEVELS ==> !(#[trigger] qs[l]).contains(sched::current(s)),
        s.hart < MAX_HARTS,
    ensures
        queue::chain(sched::blocked(s, f).0, head, tail, q),
{
    let cur = sched::current(s);
    if cur != 0 {
        let s1 = sched::with_current(
            kernel::with_tcb(
                s,
                cur,
                Tcb { frame: f, state: TcbState::Blocked, ..kernel::tcb(s, cur) },
            ),
            0,
        );
        assert forall|l: int| 0 <= l < MLFQ_LEVELS implies queue::run_queue(s1, l, #[trigger] qs[l]) by {
            assert(queue::run_queue(s, l, qs[l]));
        }
        assert(queue::run_queues(s1, qs));
        queue::law_dequeue_takes_first(s1, qs);
        let (s2, next) = sched::dequeued(s1);
        let level = sched::top_level(s1, 0);
        if next != 0 {
            assert(qs[level].contains(qs[level][0]));
        }
        let s3 = sched::switched(s1, f).0;
        assert forall|p: u64| q.contains(p) implies kernel::tcb(s3, p).next_pa
            == #[trigger] kernel::tcb(s, p).next_pa by {
            if next != 0 {
                assert(!qs[level].contains(p));
            }
        }
        queue::lemma_chain_kept(s, s3, head, tail, q);
    }
}

/// Blocking the current thread keeps a chain of threads that are in no run queue,
/// and saves the context.
pub proof fn lemma_block_keeps_chain(
    s: State,
    f: TrapFrame,
    qs: Seq<Seq<u64>>,
    head: u64,
    tail: u64,
    q: Seq<u64>,
)
    requires
        queue::run_queues(s, qs),
        queue::chain(s, head, tail, q),
        sched::current(s) != 0,
        !q.contains(sched::current(s)),
        forall|l: int, p: u64|
            0 <= l < MLFQ_LEVELS && q.contains(p) ==> !(#[trigger] qs[l].contains(p)),
        forall|l: int|
            0 <= l < MLFQ_LEVELS ==> !(#[trigger] qs[l]).contains(sched::current(s)),
        s.hart < MAX_HARTS,
    ensures
        ({
            let s1 = sched::blocked(s, f).0;
            &&& queue::chain(s1, head, tail, q)
            &&& kernel::tcb(s1, sched::current(s)).frame == f
            &&& kernel::tcb(s1, sched::current(s)).state is Blocked
            &&& s1.rx_head == s.rx_head && s1.rx_tail == s.rx_tail
            &&& s1.sched.io_waiters == s.sched.io_waiters
        }),
{
    let e = Endpoint { state: EpState::Idle, queue_head: head, queue_tail: tail };
    lemma_waits(s, s, e, q, qs, f);
}

/// A sender that finds no receiver waits as the last in the queue, and keeps the
/// message and the offer in its saved registers until it is received; a call is
/// marked as such.
pub proof fn law_sender_waits(
    s: State,
    e: Endpoint,
    q: Seq<u64>,
    qs: Seq<Seq<u64>>,
    f: TrapFrame,
    badge: u64,
    msg: [u64; 4],
    is_call: bool,
)
    requires
        !(e.state is RecvBlocked),
        rendezvous::waiting(s, e, q),
        queue::run_queues(s, qs),
        sched::current(s) != 0,
        !q.contains(sched::current(s)),
        forall|l: int, p: u64|
            0 <= l < MLFQ_LEVELS && q.contains(p) ==> !(#[trigger] qs[l].contains(p)),
        forall|l: int|
            0 <= l < MLFQ_LEVELS ==> !(#[trigger] qs[l]).contains(sched::current(s)),
        s.hart < MAX_HARTS,
    ensures
        ({
            let (s1, e1, f1) = endpoint::sent(s, e, f, badge, msg, is_call);
            let t = kernel::tcb(s1, sched::current(s));
            &&& e1.state is SendBlocked
            &&& rendezvous::waiting(s1, e1, q.push(sched::current(s)))
            &&& t.frame == f
            &&& t.state is Blocked
            &&& t.ipc_is_call == is_call
            &&& s1.caps == s.caps
        }),
{
    let cur = sched::current(s);
    let s1 = kernel::with_tcb(s, cur, Tcb { ipc_is_call: is_call, ..kernel::tcb(s, cur) });
    lemma_waits(s, s1, e, q, qs, f);
    let s2 = sched::blocked(s1, f).0;
    let e1 = Endpoint { state: EpState::SendBlocked, ..e };
    rendezvous::law_waiter_joins_last(s2, e1, q, cur);
}

/// A receiver that finds no sender waits as the last in the queue, and keeps the
/// slot for a capability.
pub proof fn law_receiver_waits(
    s: State,
    e: Endpoint,
    q: Seq<u64>,
    qs: Seq<Seq<u64>>,
    f: TrapFrame,
)
    requires
        !(e.state is SendBlocked),
        rendezvous::waiting(s, e, q),
        queue::run_queues(s, qs),
        sched::current(s) != 0,
        !q.contains(sched::current(s)),
        forall|l: int, p: u64|
            0 <= l < MLFQ_LEVELS && q.contains(p) ==> !(#[trigger] qs[l].contains(p)),
        forall|l: int|
            0 <= l < MLFQ_LEVELS ==> !(#[trigger] qs[l]).contains(sched::current(s)),
        s.hart < MAX_HARTS,
    ensures
        ({
            let (s1, e1, f1) = endpoint::received(s, e, f);
            let t = kernel::tcb(s1, sched::current(s));
            &&& e1.state is RecvBlocked
            &&& rendezvous::waiting(s1, e1, q.push(sched::current(s)))
            &&& t.frame == f
            &&& t.state is Blocked
            &&& t.cap_recv_slot == f.x[16]
            &&& s1.caps == s.caps
        }),
{
    let cur = sched::current(s);
    let s1 = kernel::with_tcb(s, cur, Tcb { cap_recv_slot: f.x[16], ..kernel::tcb(s, cur) });
    lemma_waits(s, s1, e, q, qs, f);
    let s2 = sched::blocked(s1, f).0;
    let e1 = Endpoint { state: EpState::RecvBlocked, ..e };
    rendezvous::law_waiter_joins_last(s2, e1, q, cur);
}

/// Blocking the current thread, of which `s1` has changed no link.
proof fn lemma_waits(s: State, s1: State, e: Endpoint, q: Seq<u64>, qs: Seq<Seq<u64>>, f: TrapFrame)
    requires
        rendezvous::waiting(s, e, q),
        queue::run_queues(s, qs),
        sched::current(s) != 0,
        !q.contains(sched::current(s)),
        forall|l: int, p: u64|
            0 <= l < MLFQ_LEVELS && q.contains(p) ==> !(#[trigger] qs[l].contains(p)),
        forall|l: int|
            0 <= l < MLFQ_LEVELS ==> !(#[trigger] qs[l]).contains(sched::current(s)),
        s.hart < MAX_HARTS,
        s1.hart == s.hart,
        s1.sched == s.sched,
        forall|p: u64| kernel::tcb(s1, p).next_pa == #[trigger] kernel::tcb(s, p).next_pa,
    ensures
        ({
            let s2 = sched::blocked(s1, f).0;
            let t = kernel::tcb(s2, sched::current(s));
            &&& rendezvous::waiting(s2, e, q)
            &&& t == (Tcb {
                frame: f,
                state: TcbState::Blocked,
                next_pa: t.next_pa,
                ..kernel::tcb(s1, sched::current(s))
            })
            &&& s2.caps == s1.caps
        }),
{
    let cur = sched::current(s);
    assert forall|l: int| 0 <= l < MLFQ_LEVELS implies queue::run_queue(s1, l, #[trigger] qs[l]) by {
        assert(queue::run_queue(s, l, qs[l]));
        queue::lemma_chain_kept(s, s1, s.sched.queue_head[l], s.sched.queue_tail[l], qs[l]);
    }
    queue::lemma_chain_kept(s, s1, e.queue_head, e.queue_tail, q);
    lemma_blocked_chain(s1, f, qs, e.queue_head, e.queue_tail, q);
    let s3 = sched::with_current(
        kernel::with_tcb(
            s1,
            cur,
            Tcb { frame: f, state: TcbState::Blocked, ..kernel::tcb(s1, cur) },
        ),
        0,
    );
    assert forall|l: int| 0 <= l < MLFQ_LEVELS implies queue::run_queue(s3, l, #[trigger] qs[l]) by {
        assert(queue::run_queue(s1, l, qs[l]));
    }
    assert(queue::run_queues(s3, qs));
    queue::law_dequeue_takes_first(s3, qs);
    let level = sched::top_level(s3, 0);
    if sched::dequeued(s3).1 != 0 {
        assert(qs[level].contains(qs[level][0]));
        assert(!qs[level].contains(cur));
    }
}

} // verus!
