//! Asynchronous notifications: a word of accumulated signal bits.
use crate::arch::riscv64::trap::{self, TrapFrame};
use crate::kernel::{self, Kernel, State};
use crate::objects::Zeroed;
use crate::sched::{self, contexts};
use crate::syscall::error;
use crate::thread::Tcb;
use vstd::prelude::*;

verus! {

/// Bytes that one notification takes.
pub const NOTIFICATION_BYTES: u64 = 16;

#[derive(Clone, Copy)]
pub struct Notification {
    /// Accumulated signal bits (0 is no pending signal).
    pub badge: u64,
    /// Blocked receiver (0 is none).
    pub waiter: u64,
}

impl Zeroed for Notification {
    open spec fn zeroed() -> Notification {
        Notification { badge: 0, waiter: 0 }
    }

    fn zero() -> (r: Notification) {
        Notification { badge: 0, waiter: 0 }
    }
}

/// Signalling: the bits accumulate, and a waiting thread takes them all.
pub open spec fn signalled(s: State, n: Notification, badge: u64) -> (State, Notification) {
    if n.waiter != 0 {
        (
            sched::unblocked(s, n.waiter, [error::OK, n.badge | badge, 0, 0, 0, 0, 0, 0]),
            Notification { badge: 0, waiter: 0 },
        )
    } else {
        (s, Notification { badge: n.badge | badge, ..n })
    }
}

/// Waiting: pending bits are taken at once; without any the caller blocks.
pub open spec fn waited(s: State, n: Notification, f: TrapFrame) -> (
    State,
    Notification,
    TrapFrame,
) {
    if n.badge != 0 {
        (
            s,
            Notification { badge: 0, ..n },
            trap::replied(f, [error::OK, n.badge, 0, 0, 0, 0, 0, 0]),
        )
    } else {
        let (s1, f1) = sched::blocked(s, f);
        (s1, Notification { waiter: sched::current(s), ..n }, f1)
    }
}

impl Notification {
    /// OR `badge` into the word and wake a blocked waiter.
    pub fn signal(&mut self, k: &mut Kernel, badge: u64, frame: &mut TrapFrame)
        requires
            old(k).wf(),
        ensures
            final(k).wf(),
            (final(k)@, *final(self)) == signalled(old(k)@, *old(self), badge),
            *final(frame) == trap::replied(*old(frame), [error::OK, 0, 0, 0, 0, 0, 0, 0]),
    {
        self.badge = self.badge | badge;
        if self.waiter != 0 {
            let waiter: u64 = self.waiter;
            self.waiter = 0;
            let b: u64 = self.badge;
            self.badge = 0;
            sched::unblock(k, waiter, [error::OK, b, 0, 0, 0, 0, 0, 0]);
        }
        frame.set_reply([error::OK, 0, 0, 0, 0, 0, 0, 0]);
    }

    /// Return the pending bits, or block until there are some.
    pub fn wait(&mut self, k: &mut Kernel, frame: &mut TrapFrame)
        requires
            old(k).wf(),
        ensures
            final(k).wf(),
            (final(k)@, *final(self), *final(frame)) == waited(
                old(k)@,
                *old(self),
                *old(frame),
            ),
    {
        if self.badge != 0 {
            let b: u64 = self.badge;
            self.badge = 0;
            frame.set_reply([error::OK, b, 0, 0, 0, 0, 0, 0]);
        } else {
            self.waiter = sched::block_current(k, frame);
        }
    }
}

/// With nobody waiting, signals accumulate and one wait takes them all.
pub proof fn law_signals_accumulate(s: State, n: Notification, b1: u64, b2: u64, f: TrapFrame)
    requires
        n.waiter == 0,
        n.badge | b1 | b2 != 0,
    ensures
        ({
            let (s1, n1) = signalled(s, n, b1);
            let (s2, n2) = signalled(s1, n1, b2);
            let (s3, n3, f3) = waited(s2, n2, f);
            &&& s3 == s
            &&& n3.badge == 0
            &&& f3.x[10] == error::OK
            &&& f3.x[11] == n.badge | b1 | b2
        }),
{
}

/// A thread that waits without a pending signal blocks in its own context, and
/// the next signal wakes it behind its call with the signalled bits in a1; the
/// notification is empty then.
pub proof fn law_signal_wakes_waiter(
    s: State,
    n: Notification,
    f: TrapFrame,
    later: State,
    badge: u64,
)
    requires
        s.hart < sched::MAX_HARTS,
        n.badge == 0,
        sched::current(s) != 0,
        kernel::tcb(later, sched::current(s)).frame == f,
    ensures
        ({
            let cur = sched::current(s);
            let (s1, n1, f1) = waited(s, n, f);
            let (s2, n2) = signalled(later, n1, badge);
            let woken = kernel::tcb(s2, cur).frame;
            &&& n1.waiter == cur
            &&& contexts::context(s1, f1, cur) == f
            &&& kernel::tcb(s1, cur).state is Blocked || sched::current(s1) == cur
            &&& n2 == (Notification { badge: 0, waiter: 0 })
            &&& kernel::tcb(s2, cur).state is Runnable
            &&& woken.x[10] == error::OK
            &&& woken.x[11] == badge
            &&& woken.sepc == f.sepc
        }),
{
    let cur = sched::current(s);
    contexts::law_leaving_keeps_contexts(s, f, cur);
    let reply = [error::OK, 0u64 | badge, 0, 0, 0, 0, 0, 0];
    assert(0u64 | badge == badge) by (bit_vector);
    trap::law_reply_read_back(f, reply);
    let u = kernel::with_tcb(
        later,
        cur,
        Tcb { frame: trap::replied(f, reply), ..kernel::tcb(later, cur) },
    );
    contexts::lemma_woken(u, cur, cur);
}

} // verus!
