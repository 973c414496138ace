//! Synchronous IPC endpoints with rendezvous semantics.
//!
//! An endpoint holds either a queue of waiting senders or a queue of waiting
//! receivers, never both. The transfer is direct when the matching party
//! arrives; otherwise the caller blocks.
use crate::arch::riscv64::trap::{self, TrapFrame};
use crate::cap::cnode;
use crate::kernel::{self, Kernel, State};
use crate::objects::Zeroed;
use crate::sched;
use crate::syscall::error;
use crate::thread::Tcb;
use vstd::prelude::*;

verus! {

/// Bytes that one endpoint takes.
pub const ENDPOINT_BYTES: u64 = 24;

#[derive(Debug, Clone, Copy, PartialEq, Eq, Structural)]
pub enum EpState {
    Idle,
    SendBlocked,
    RecvBlocked,
}

#[derive(Clone, Copy)]
pub struct Endpoint {
    pub state: EpState,
    /// First waiting thread (0 is none).
    pub queue_head: u64,
    /// Last waiting thread.
    pub queue_tail: u64,
}

impl Zeroed for Endpoint {
    open spec fn zeroed() -> Endpoint {
        Endpoint { state: EpState::Idle, queue_head: 0, queue_tail: 0 }
    }

    fn zero() -> (r: Endpoint) {
        Endpoint { state: EpState::Idle, queue_head: 0, queue_tail: 0 }
    }
}

/// The CSpace of a thread: its own, or the root.
pub open spec fn cspace_for(s: State, t: Tcb) -> (u64, u64) {
    if t.cspace_pa != 0 {
        (t.cspace_pa, t.cspace_sb)
    } else {
        (s.root_pa, s.root_sb)
    }
}

/// Copying the capability in slot `src` of the sender to the slot that the
/// receiver named. Slot 0 on either side means no transfer.
pub open spec fn transferred(s: State, sender: Tcb, recv_pa: u64, src: u64) -> State {
    let r = kernel::tcb(s, recv_pa);
    let dst = r.cap_recv_slot;
    if src == 0 || dst == 0 {
        s
    } else {
        let s1 = kernel::with_tcb(s, recv_pa, Tcb { cap_recv_slot: 0, ..r });
        let from = cspace_for(s, sender);
        let to = cspace_for(s, r);
        let c = cnode::slot(s.caps, from.0, src);
        if src < cnode::slot_count(from.1) && !(c.cap_type is Null) {
            State { caps: cnode::inserted(s.caps, to.0, to.1, dst, c).0, ..s1 }
        } else {
            s1
        }
    }
}

/// Adding a thread at the end of the wait queue.
pub open spec fn ep_queued(s: State, e: Endpoint, pa: u64) -> (State, Endpoint) {
    let s1 = kernel::with_tcb(s, pa, Tcb { next_pa: 0, ..kernel::tcb(s, pa) });
    if e.queue_head == 0 {
        (s1, Endpoint { queue_head: pa, queue_tail: pa, ..e })
    } else {
        (
            kernel::with_tcb(
                s1,
                e.queue_tail,
                Tcb { next_pa: pa, ..kernel::tcb(s1, e.queue_tail) },
            ),
            Endpoint { queue_tail: pa, ..e },
        )
    }
}

/// Taking the first thread off the wait queue (0 when it is empty).
pub open spec fn ep_unqueued(s: State, e: Endpoint) -> (State, Endpoint, u64) {
    let head = e.queue_head;
    if head == 0 {
        (s, e, 0)
    } else {
        let next = kernel::tcb(s, head).next_pa;
        (
            kernel::with_tcb(s, head, Tcb { next_pa: 0, ..kernel::tcb(s, head) }),
            Endpoint {
                queue_head: next,
                queue_tail: if next == 0 {
                    0
                } else {
                    e.queue_tail
                },
                ..e
            },
            head,
        )
    }
}

/// An endpoint whose queue has emptied is idle.
pub open spec fn rested(e: Endpoint) -> Endpoint {
    if e.queue_head == 0 {
        Endpoint { state: EpState::Idle, ..e }
    } else {
        e
    }
}

/// Sending: a waiting receiver gets the message at once and wakes, and a caller
/// blocks for the reply; without a receiver the sender blocks in the queue.
pub open spec fn sent(
    s: State,
    e: Endpoint,
    f: TrapFrame,
    badge: u64,
    msg: [u64; 4],
    is_call: bool,
) -> (State, Endpoint, TrapFrame) {
    let cur = sched::current(s);
    if e.state is RecvBlocked {
        let (s1, e1, recv) = ep_unqueued(s, e);
        let r = kernel::tcb(s1, recv);
        let s2 = kernel::with_tcb(
            s1,
            recv,
            Tcb {
                frame: trap::replied(
                    r.frame,
                    [error::OK, badge, msg[0], msg[1], msg[2], msg[3], 0, 0],
                ),
                ..r
            },
        );
        let s3 = if f.x[16] != 0 && cur != 0 {
            transferred(s2, kernel::tcb(s2, cur), recv, f.x[16])
        } else {
            s2
        };
        if is_call {
            let s4 = kernel::with_tcb(s3, recv, Tcb { reply_pa: cur, ..kernel::tcb(s3, recv) });
            let (s5, f1) = sched::blocked(sched::woken(s4, recv), f);
            (s5, rested(e1), f1)
        } else {
            (
                sched::woken(s3, recv),
                rested(e1),
                trap::replied(f, [error::OK, 0, 0, 0, 0, 0, 0, 0]),
            )
        }
    } else {
        let s1 = kernel::with_tcb(s, cur, Tcb { ipc_is_call: is_call, ..kernel::tcb(s, cur) });
        let (s2, f1) = sched::blocked(s1, f);
        let (s3, e1) = ep_queued(s2, Endpoint { state: EpState::SendBlocked, ..e }, cur);
        (s3, e1, f1)
    }
}

/// Receiving: a waiting sender's message is taken at once; a sender that called
/// stays blocked for the reply, any other wakes. Without a sender the receiver
/// blocks in the queue.
pub open spec fn received(s: State, e: Endpoint, f: TrapFrame) -> (State, Endpoint, TrapFrame) {
    let cur = sched::current(s);
    let s0 = if cur != 0 {
        kernel::with_tcb(s, cur, Tcb { cap_recv_slot: f.x[16], ..kernel::tcb(s, cur) })
    } else {
        s
    };
    if e.state is SendBlocked {
        let (s1, e1, send) = ep_unqueued(s0, e);
        let t = kernel::tcb(s1, send);
        let f1 = trap::replied(
            f,
            [error::OK, t.frame.x[12], t.frame.x[13], t.frame.x[14], t.frame.x[15], 0, 0, 0],
        );
        let s2 = if t.frame.x[16] != 0 && cur != 0 {
            transferred(s1, t, cur, t.frame.x[16])
        } else if cur != 0 {
            kernel::with_tcb(s1, cur, Tcb { cap_recv_slot: 0, ..kernel::tcb(s1, cur) })
        } else {
            s1
        };
        let s3 = if t.ipc_is_call {
            if cur != 0 {
                kernel::with_tcb(s2, cur, Tcb { reply_pa: send, ..kernel::tcb(s2, cur) })
            } else {
                s2
            }
        } else {
            sched::unblocked(s2, send, [error::OK, 0, 0, 0, 0, 0, 0, 0])
        };
        (s3, rested(e1), f1)
    } else {
        let (s1, f1) = sched::blocked(s0, f);
        let (s2, e1) = ep_queued(s1, Endpoint { state: EpState::RecvBlocked, ..e }, cur);
        (s2, e1, f1)
    }
}

/// Delivering `reply` to the thread that called the current one, if any.
pub open spec fn reply_delivered(s: State, reply: [u64; 8]) -> State {
    let cur = sched::current(s);
    if cur == 0 {
        s
    } else {
        let t = kernel::tcb(s, cur);
        let s1 = kernel::with_tcb(s, cur, Tcb { reply_pa: 0, ..t });
        if t.reply_pa != 0 {
            sched::unblocked(s1, t.reply_pa, reply)
        } else {
            s1
        }
    }
}

/// The CSpace of a thread.
pub fn cspace_of(k: &Kernel, t: &Tcb) -> (r: (u64, u64))
    requires
        k.wf(),
        kernel::tcb_ok(*t),
    ensures
        r == cspace_for(k@, *t),
        r.1 < 64,
{
    if t.cspace_pa != 0 {
        (t.cspace_pa, t.cspace_sb)
    } else {
        (k.root_pa, k.root_sb)
    }
}

fn transfer_cap(k: &mut Kernel, sender: &Tcb, recv_pa: u64, src_slot: u64)
    requires
        old(k).wf(),
        kernel::tcb_ok(*sender),
    ensures
        final(k).wf(),
        final(k)@ == transferred(old(k)@, *sender, recv_pa, src_slot),
{
    let mut recv: Tcb = k.tcb(recv_pa);
    let dst_slot: u64 = recv.cap_recv_slot;
    if src_slot == 0 || dst_slot == 0 {
        return ;
    }
    let (s_pa, s_sb): (u64, u64) = cspace_of(k, sender);
    let (r_pa, r_sb): (u64, u64) = cspace_of(k, &recv);
    recv.cap_recv_slot = 0;
    k.set_tcb(recv_pa, recv);
    match cnode::lookup(&k.caps, s_pa, s_sb, src_slot) {
        Ok(c) => {
            if !c.is_null() {
                let _ = cnode::insert(&mut k.caps, r_pa, r_sb, dst_slot, c);
            }
        },
        Err(_) => {},
    }
}

/// Deliver `reply` to the thread that called the current one.
pub fn deliver_reply(k: &mut Kernel, reply: [u64; 8])
    requires
        old(k).wf(),
    ensures
        final(k).wf(),
        final(k)@ == reply_delivered(old(k)@, reply),
{
    let cur: u64 = sched::current_pa(k);
    if cur != 0 {
        let mut t: Tcb = k.tcb(cur);
        let caller: u64 = t.reply_pa;
        t.reply_pa = 0;
        k.set_tcb(cur, t);
        if caller != 0 {
            sched::unblock(k, caller, reply);
        }
    }
}

impl Endpoint {
    fn ep_enqueue(&mut self, k: &mut Kernel, tcb_pa: u64)
        requires
            old(k).wf(),
        ensures
            final(k).wf(),
            (final(k)@, *final(self)) == ep_queued(old(k)@, *old(self), tcb_pa),
    {
        let mut t: Tcb = k.tcb(tcb_pa);
        t.next_pa = 0;
        k.set_tcb(tcb_pa, t);
        if self.queue_head == 0 {
            self.queue_head = tcb_pa;
            self.queue_tail = tcb_pa;
        } else {
            let mut last: Tcb = k.tcb(self.queue_tail);
            last.next_pa = tcb_pa;
            k.set_tcb(self.queue_tail, last);
            self.queue_tail = tcb_pa;
        }
    }

    fn ep_dequeue(&mut self, k: &mut Kernel) -> (r: u64)
        requires
            old(k).wf(),
        ensures
            final(k).wf(),
            (final(k)@, *final(self), r) == ep_unqueued(old(k)@, *old(self)),
    {
        let head: u64 = self.queue_head;
        if head != 0 {
            let mut t: Tcb = k.tcb(head);
            let next: u64 = t.next_pa;
            self.queue_head = next;
            if next == 0 {
                self.queue_tail = 0;
            }
            t.next_pa = 0;
            k.set_tcb(head, t);
        }
        head
    }

    /// Handle a Send or a Call. `badge` is a2 and `msg` is a3 to a6; with
    /// `is_call` the sender blocks for a reply.
    #[verifier::rlimit(30)]
    pub fn send(
        &mut self,
        k: &mut Kernel,
        frame: &mut TrapFrame,
        badge: u64,
        msg: [u64; 4],
        is_call: bool,
    )
        requires
            old(k).wf(),
        ensures
            final(k).wf(),
            (final(k)@, *final(self), *final(frame)) == sent(
                old(k)@,
                *old(self),
                *old(frame),
                badge,
                msg,
                is_call,
            ),
    {
        let cur: u64 = sched::current_pa(k);
        if self.state == EpState::RecvBlocked {
            let recv_pa: u64 = self.ep_dequeue(k);
            let mut r: Tcb = k.tcb(recv_pa);
            r.frame.set_reply([error::OK, badge, msg[0], msg[1], msg[2], msg[3], 0, 0]);
            k.set_tcb(recv_pa, r);
            let src_slot: u64 = frame.x[16];
            if src_slot != 0 && cur != 0 {
                let sender: Tcb = k.tcb(cur);
                transfer_cap(k, &sender, recv_pa, src_slot);
            }
            if is_call {
                // The receiver is woken before the caller blocks, so that the
                // switch finds it in the run queue.
                let mut r2: Tcb = k.tcb(recv_pa);
                r2.reply_pa = cur;
                k.set_tcb(recv_pa, r2);
                sched::wake(k, recv_pa);
                let _ = sched::block_current(k, frame);
            } else {
                frame.set_reply([error::OK, 0, 0, 0, 0, 0, 0, 0]);
                sched::wake(k, recv_pa);
            }
            if self.queue_head == 0 {
                self.state = EpState::Idle;
            }
        } else {
            self.state = EpState::SendBlocked;
            let mut t: Tcb = k.tcb(cur);
            t.ipc_is_call = is_call;
            k.set_tcb(cur, t);
            let blocked_pa: u64 = sched::block_current(k, frame);
            self.ep_enqueue(k, blocked_pa);
        }
    }

    /// Handle a Receive.
    #[verifier::rlimit(30)]
    pub fn recv(&mut self, k: &mut Kernel, frame: &mut TrapFrame)
        requires
            old(k).wf(),
        ensures
            final(k).wf(),
            (final(k)@, *final(self), *final(frame)) == received(
                old(k)@,
                *old(self),
                *old(frame),
            ),
    {
        let cur: u64 = sched::current_pa(k);
        if cur != 0 {
            let mut t: Tcb = k.tcb(cur);
            t.cap_recv_slot = frame.x[16];
            k.set_tcb(cur, t);
        }
        if self.state == EpState::SendBlocked {
            let send_pa: u64 = self.ep_dequeue(k);
            let sender: Tcb = k.tcb(send_pa);
            frame.set_reply(
                [
                    error::OK,
                    sender.frame.x[12],
                    sender.frame.x[13],
                    sender.frame.x[14],
                    sender.frame.x[15],
                    0,
                    0,
                    0,
                ],
            );
            let src_slot: u64 = sender.frame.x[16];
            if src_slot != 0 && cur != 0 {
                transfer_cap(k, &sender, cur, src_slot);
            } else if cur != 0 {
                let mut t: Tcb = k.tcb(cur);
                t.cap_recv_slot = 0;
                k.set_tcb(cur, t);
            }
            if sender.ipc_is_call {
                // The sender stays blocked until the reply.
                if cur != 0 {
                    let mut t: Tcb = k.tcb(cur);
                    t.reply_pa = send_pa;
                    k.set_tcb(cur, t);
                }
            } else {
                sched::unblock(k, send_pa, [error::OK, 0, 0, 0, 0, 0, 0, 0]);
            }
            if self.queue_head == 0 {
                self.state = EpState::Idle;
            }
        } else {
            self.state = EpState::RecvBlocked;
            let blocked_pa: u64 = sched::block_current(k, frame);
            self.ep_enqueue(k, blocked_pa);
        }
    }

    /// Deliver the reply in a2 to the saved caller, then receive.
    pub fn reply_recv(&mut self, k: &mut Kernel, frame: &mut TrapFrame)
        requires
            old(k).wf(),
        ensures
            final(k).wf(),
            (final(k)@, *final(self), *final(frame)) == received(
                reply_delivered(old(k)@, [error::OK, 0, old(frame).x[12], 0, 0, 0, 0, 0]),
                *old(self),
                *old(frame),
            ),
    {
        deliver_reply(k, [error::OK, 0, frame.x[12], 0, 0, 0, 0, 0]);
        self.recv(k, frame);
    }
}

} // verus!
