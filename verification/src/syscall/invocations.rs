//! What the operations on capabilities do with the words of a call.
use crate::arch::riscv64::mmu::PTE_U;
use crate::arch::riscv64::trap::{self, TrapFrame};
use crate::arch::riscv64::vspace;
use crate::arch::riscv64::walk;
use crate::cap::cnode;
use crate::cap::endpoint::{self, Endpoint};
use crate::cap::rendezvous;
use crate::cap::untyped;
use crate::cap::{self, Cap, CapType};
use crate::kernel::{self, State};
use crate::mm::buddy;
use crate::objects;
use crate::sched::{self, contexts, queue, MAX_HARTS};
use crate::syscall::{self, error, invoke, label, refusals};
use crate::thread::{Tcb, TcbState, MLFQ_LEVELS};
use vstd::prelude::*;

verus! {

/// The call `f` is made on the capability `c` in the slot of the caller that a0
/// names.
pub open spec fn made_on(s: State, f: TrapFrame, c: Cap) -> bool {
    let cs = syscall::caller_cspace(s);
    &&& !refusals::needs_no_cap(f.x[11])
    &&& cs.0 != 0
    &&& f.x[10] < cnode::slot_count(cs.1)
    &&& cnode::slot(s.caps, cs.0, f.x[10]) == c
    &&& !(c.cap_type is Null)
}

/// A call on a capability reaches the operation that its label names.
pub proof fn law_call_reaches_capability(s: State, f: TrapFrame, c: Cap)
    requires
        made_on(s, f, c),
    ensures
        syscall::dispatched(s, f) == invoke::invoked(s, f, c, syscall::caller_cspace(s)),
{
}

/// The reply `f1` to the call `f` has this code, and the caller goes on behind
/// the call with all other registers as they were.
pub open spec fn answered_with(f: TrapFrame, f1: TrapFrame, code: u64) -> bool {
    &&& f1.x[10] == code
    &&& f1.sepc == f.sepc
    &&& f1.sstatus == f.sstatus
    &&& forall|i: int| 0 <= i < 32 && !(10 <= i < 18) ==> #[trigger] f1.x[i] == f.x[i]
}

proof fn lemma_coded(f: TrapFrame, code: u64)
    ensures
        answered_with(f, trap::replied(f, syscall::coded(code)), code),
{
    trap::law_reply_read_back(f, syscall::coded(code));
}

/// A message that is sent or called with arrives word by word: the receiver that
/// has waited longest gets a2 as the badge in a1 and a3 to a6 in a2 to a5.
pub proof fn law_send_passes_words(s: State, f: TrapFrame, c: Cap, cs: (u64, u64), q: Seq<u64>)
    requires
        c.cap_type is Endpoint,
        f.x[11] == label::ENDPOINT_SEND || f.x[11] == label::ENDPOINT_CALL,
        objects::at(s.endpoints, c.ptr).state is RecvBlocked,
        rendezvous::waiting(s, objects::at(s.endpoints, c.ptr), q),
        q.len() > 0,
        !q.contains(sched::current(s)),
    ensures
        ({
            let (s1, f1) = invoke::invoked(s, f, c, cs);
            let r = kernel::tcb(s1, q[0]);
            &&& r.frame.x[10] == error::OK
            &&& r.frame.x[11] == f.x[12]
            &&& r.frame.x[12] == f.x[13]
            &&& r.frame.x[13] == f.x[14]
            &&& r.frame.x[14] == f.x[15]
            &&& r.frame.x[15] == f.x[16]
            &&& r.frame.sepc == kernel::tcb(s, q[0]).frame.sepc
            &&& f.x[11] == label::ENDPOINT_CALL ==> r.reply_pa == sched::current(s)
            &&& f.x[11] == label::ENDPOINT_SEND ==> answered_with(f, f1, error::OK)
        }),
{
    let e = objects::at(s.endpoints, c.ptr);
    let msg = [f.x[13], f.x[14], f.x[15], f.x[16]];
    let is_call = f.x[11] == label::ENDPOINT_CALL;
    rendezvous::law_message_arrives(s, e, q, f, f.x[12], msg, is_call);
    trap::law_reply_read_back(
        kernel::tcb(s, q[0]).frame,
        [error::OK, f.x[12], msg[0], msg[1], msg[2], msg[3], 0, 0],
    );
    lemma_coded(f, error::OK);
}

/// A receive takes the words of the sender that has waited longest: its a2 to a5
/// as they were when it sent.
#[verifier::rlimit(40)]
pub proof fn law_receive_takes_words(s: State, f: TrapFrame, c: Cap, cs: (u64, u64), q: Seq<u64>)
    requires
        c.cap_type is Endpoint,
        f.x[11] == label::ENDPOINT_RECV,
        objects::at(s.endpoints, c.ptr).state is SendBlocked,
        rendezvous::waiting(s, objects::at(s.endpoints, c.ptr), q),
        q.len() > 0,
        sched::current(s) != 0,
        !q.contains(sched::current(s)),
    ensures
        ({
            let (s1, f1) = invoke::invoked(s, f, c, cs);
            let sent = kernel::tcb(s, q[0]).frame;
            &&& answered_with(f, f1, error::OK)
            &&& f1.x[11] == sent.x[12]
            &&& f1.x[12] == sent.x[13]
            &&& f1.x[13] == sent.x[14]
            &&& f1.x[14] == sent.x[15]
            &&& kernel::tcb(s, q[0]).ipc_is_call ==> kernel::tcb(s1, sched::current(s)).reply_pa
                == q[0]
            &&& !kernel::tcb(s, q[0]).ipc_is_call ==> kernel::tcb(s1, q[0]).state is Runnable
        }),
{
    let e = objects::at(s.endpoints, c.ptr);
    lemma_taken_words(s, e, q, f);
    let (s1, e1, f1) = endpoint::received(s, e, f);
    let s2 = State { endpoints: s1.endpoints.insert(c.ptr, e1), ..s1 };
    assert(invoke::endpoint_invoked(s, f, c) == (s2, f1));
    assert(s2.tcbs == s1.tcbs);
}

#[verifier::rlimit(40)]
proof fn lemma_taken_words(s: State, e: Endpoint, q: Seq<u64>, f: TrapFrame)
    requires
        e.state is SendBlocked,
        rendezvous::waiting(s, e, q),
        q.len() > 0,
        sched::current(s) != 0,
        !q.contains(sched::current(s)),
    ensures
        ({
            let (s1, e1, f1) = endpoint::received(s, e, f);
            let sent = kernel::tcb(s, q[0]).frame;
            &&& answered_with(f, f1, error::OK)
            &&& f1.x[11] == sent.x[12]
            &&& f1.x[12] == sent.x[13]
            &&& f1.x[13] == sent.x[14]
            &&& f1.x[14] == sent.x[15]
            &&& kernel::tcb(s, q[0]).ipc_is_call ==> kernel::tcb(s1, sched::current(s)).reply_pa
                == q[0]
            &&& !kernel::tcb(s, q[0]).ipc_is_call ==> kernel::tcb(s1, q[0]).state is Runnable
        }),
{
    rendezvous::law_message_taken(s, e, q, f);
    let t = kernel::tcb(s, q[0]).frame;
    let reply = [error::OK, t.x[12], t.x[13], t.x[14], t.x[15], 0, 0, 0];
    trap::law_reply_read_back(f, reply);
    let g = trap::replied(f, reply);
    assert(endpoint::received(s, e, f).2 == g);
    assert(g.x[10] == error::OK);
}

/// A reply passes a2 to a6 to the thread that called, which goes on behind its
/// call; the replier goes on as well and has nobody to reply to any more.
pub proof fn law_reply_passes_words(s: State, f: TrapFrame)
    requires
        f.x[11] == label::ENDPOINT_REPLY,
        sched::current(s) != 0,
        kernel::tcb(s, sched::current(s)).reply_pa != 0,
        kernel::tcb(s, sched::current(s)).reply_pa != sched::current(s),
    ensures
        ({
            let (s1, f1) = syscall::dispatched(s, f);
            let caller = kernel::tcb(s, sched::current(s)).reply_pa;
            let got = kernel::tcb(s1, caller).frame;
            &&& got.x[10] == error::OK
            &&& got.x[12] == f.x[12]
            &&& got.x[13] == f.x[13]
            &&& got.x[14] == f.x[14]
            &&& got.x[15] == f.x[15]
            &&& got.x[16] == f.x[16]
            &&& got.sepc == kernel::tcb(s, caller).frame.sepc
            &&& kernel::tcb(s1, caller).state is Runnable
            &&& kernel::tcb(s1, sched::current(s)).reply_pa == 0
            &&& answered_with(f, f1, error::OK)
        }),
{
    let reply = [error::OK, 0, f.x[12], f.x[13], f.x[14], f.x[15], f.x[16], 0];
    let caller = kernel::tcb(s, sched::current(s)).reply_pa;
    rendezvous::law_reply_arrives(s, reply);
    trap::law_reply_read_back(kernel::tcb(s, caller).frame, reply);
    lemma_coded(f, error::OK);
}

/// A signal adds the bits of a2 to the notification, and a wait takes all that
/// are pending in a1.
pub proof fn law_notification_words(s: State, f: TrapFrame, c: Cap, cs: (u64, u64))
    requires
        c.cap_type is Notification,
    ensures
        ({
            let n = objects::at(s.notifications, c.ptr);
            let (s1, f1) = invoke::invoked(s, f, c, cs);
            let n1 = objects::at(s1.notifications, c.ptr);
            &&& f.x[11] == label::NOTIF_SIGNAL ==> answered_with(f, f1, error::OK)
            &&& f.x[11] == label::NOTIF_SIGNAL && n.waiter == 0 ==> n1.badge == n.badge | f.x[12]
                && n1.waiter == 0 && s1.tcbs == s.tcbs
            &&& f.x[11] == label::NOTIF_SIGNAL && n.waiter != 0 ==> n1.badge == 0 && n1.waiter == 0
            &&& f.x[11] == label::NOTIF_WAIT && n.badge != 0 ==> answered_with(f, f1, error::OK)
                && f1.x[11] == n.badge && n1.badge == 0 && s1.tcbs == s.tcbs
            &&& f.x[11] == label::NOTIF_WAIT && n.badge == 0 ==> n1.waiter == sched::current(s)
        }),
{
    let n = objects::at(s.notifications, c.ptr);
    lemma_coded(f, error::OK);
    trap::law_reply_read_back(f, [error::OK, n.badge, 0, 0, 0, 0, 0, 0]);
}

/// A copy, with the source slot in a2, the target slot in a3 and a mask in a4:
/// the target designates the same object with the rights that the mask leaves.
/// It succeeds exactly if the source holds a capability and the target is empty,
/// both in range; then and only then anything changes, and only the target does.
pub proof fn law_copy_call(s: State, f: TrapFrame, c: Cap, cs: (u64, u64), a: u64)
    requires
        c.cap_type is CNode,
        f.x[11] == label::CNODE_COPY,
    ensures
        ({
            let (s1, f1) = invoke::invoked(s, f, c, cs);
            let n = cnode::slot_count(c.extra);
            let from = cnode::slot(s.caps, c.ptr, f.x[12]);
            let into = cnode::slot(s.caps, c.ptr, f.x[13]);
            let ok = f.x[12] < n && f.x[13] < n && !(from.cap_type is Null)
                && into.cap_type is Null;
            let made = cnode::slot(s1.caps, c.ptr, f.x[13]);
            &&& answered_with(
                f,
                f1,
                if ok {
                    error::OK
                } else {
                    error::ILLEGAL_OPERATION
                },
            )
            &&& ok ==> {
                &&& made.cap_type == from.cap_type
                &&& made.ptr == from.ptr
                &&& made.extra == from.extra
                &&& made.rights == cap::common(from.rights, cap::truncated(f.x[14] as u8))
            }
            &&& !ok ==> s1.caps == s.caps
            &&& a != cnode::slot_addr(c.ptr, f.x[13]) ==> objects::at(s1.caps, a) == objects::at(
                s.caps,
                a,
            )
            &&& s1 == (State { caps: s1.caps, ..s })
        }),
{
    lemma_coded(f, error::OK);
    lemma_coded(f, error::ILLEGAL_OPERATION);
}

/// A mint, with the source slot in a2, the target slot in a3 and the rights in
/// a4: as a copy, but with exactly these rights, and refused where the source
/// lacks one of them.
pub proof fn law_mint_call(s: State, f: TrapFrame, c: Cap, cs: (u64, u64), a: u64)
    requires
        c.cap_type is CNode,
        f.x[11] == label::CNODE_MINT,
    ensures
        ({
            let (s1, f1) = invoke::invoked(s, f, c, cs);
            let n = cnode::slot_count(c.extra);
            let from = cnode::slot(s.caps, c.ptr, f.x[12]);
            let into = cnode::slot(s.caps, c.ptr, f.x[13]);
            let rights = cap::truncated(f.x[14] as u8);
            let ok = f.x[12] < n && f.x[13] < n && !(from.cap_type is Null) && into.cap_type is Null
                && cap::includes(from.rights, rights);
            let made = cnode::slot(s1.caps, c.ptr, f.x[13]);
            &&& answered_with(
                f,
                f1,
                if ok {
                    error::OK
                } else {
                    error::ILLEGAL_OPERATION
                },
            )
            &&& ok ==> made == (Cap { rights, ..from })
            &&& !ok ==> s1.caps == s.caps
            &&& a != cnode::slot_addr(c.ptr, f.x[13]) ==> objects::at(s1.caps, a) == objects::at(
                s.caps,
                a,
            )
            &&& s1 == (State { caps: s1.caps, ..s })
        }),
{
    lemma_coded(f, error::OK);
    lemma_coded(f, error::ILLEGAL_OPERATION);
}

/// A move, with the source slot in a2 and the target slot in a3: the capability
/// is in the target then, unchanged, and the source is empty.
pub proof fn law_move_call(s: State, f: TrapFrame, c: Cap, cs: (u64, u64), a: u64)
    requires
        c.cap_type is CNode,
        f.x[11] == label::CNODE_MOVE,
        cnode::slot_addr(c.ptr, f.x[12]) != cnode::slot_addr(c.ptr, f.x[13]),
    ensures
        ({
            let (s1, f1) = invoke::invoked(s, f, c, cs);
            let n = cnode::slot_count(c.extra);
            let from = cnode::slot(s.caps, c.ptr, f.x[12]);
            let into = cnode::slot(s.caps, c.ptr, f.x[13]);
            let ok = f.x[12] < n && f.x[13] < n && !(from.cap_type is Null)
                && into.cap_type is Null;
            &&& answered_with(
                f,
                f1,
                if ok {
                    error::OK
                } else {
                    error::ILLEGAL_OPERATION
                },
            )
            &&& ok ==> cnode::slot(s1.caps, c.ptr, f.x[13]) == from && cnode::slot(
                s1.caps,
                c.ptr,
                f.x[12],
            ).cap_type is Null
            &&& !ok ==> s1.caps == s.caps
            &&& a != cnode::slot_addr(c.ptr, f.x[12]) && a != cnode::slot_addr(c.ptr, f.x[13])
                ==> objects::at(s1.caps, a) == objects::at(s.caps, a)
            &&& s1 == (State { caps: s1.caps, ..s })
        }),
{
    lemma_coded(f, error::OK);
    lemma_coded(f, error::ILLEGAL_OPERATION);
}

/// A delete, with the slot in a2, empties that slot and no other; deleting an
/// empty slot is refused.
pub proof fn law_delete_call(s: State, f: TrapFrame, c: Cap, cs: (u64, u64), a: u64)
    requires
        c.cap_type is CNode,
        f.x[11] == label::CNODE_DELETE,
    ensures
        ({
            let (s1, f1) = invoke::invoked(s, f, c, cs);
            let ok = f.x[12] < cnode::slot_count(c.extra) && !(cnode::slot(
                s.caps,
                c.ptr,
                f.x[12],
            ).cap_type is Null);
            &&& answered_with(
                f,
                f1,
                if ok {
                    error::OK
                } else {
                    error::ILLEGAL_OPERATION
                },
            )
            &&& ok ==> cnode::slot(s1.caps, c.ptr, f.x[12]).cap_type is Null
            &&& !ok ==> s1.caps == s.caps
            &&& a != cnode::slot_addr(c.ptr, f.x[12]) ==> objects::at(s1.caps, a) == objects::at(
                s.caps,
                a,
            )
            &&& s1 == (State { caps: s1.caps, ..s })
        }),
{
    lemma_coded(f, error::OK);
    lemma_coded(f, error::ILLEGAL_OPERATION);
}

/// A revoke, with the slot in a2, is the revocation of that slot of the CNode.
pub proof fn law_revoke_call(s: State, f: TrapFrame, c: Cap, cs: (u64, u64))
    requires
        c.cap_type is CNode,
        f.x[11] == label::CNODE_REVOKE,
    ensures
        ({
            let (s1, f1) = invoke::invoked(s, f, c, cs);
            let (s2, r) = cnode::revoked(s, c.ptr, c.extra, f.x[12]);
            &&& s1 == s2
            &&& answered_with(
                f,
                f1,
                if r is Ok {
                    error::OK
                } else {
                    error::ILLEGAL_OPERATION
                },
            )
            &&& r is Ok <==> f.x[12] < cnode::slot_count(c.extra) && !(cnode::slot(
                s.caps,
                c.ptr,
                f.x[12],
            ).cap_type is Null)
        }),
{
    lemma_coded(f, error::OK);
    lemma_coded(f, error::ILLEGAL_OPERATION);
}

/// A retype takes the type in a2, the size bits in a3, the first slot of the
/// caller's CSpace in a4 and the count in a5, where 0 stands for 1.
pub proof fn law_retype_call(s: State, f: TrapFrame, c: Cap, cs: (u64, u64))
    requires
        c.cap_type is UntypedMemory,
        f.x[11] == label::UNTYPED_RETYPE,
    ensures
        ({
            let (s1, f1) = invoke::invoked(s, f, c, cs);
            match CapType::decoded(f.x[12] as u8) {
                None => s1 == s && answered_with(f, f1, error::INVALID_ARGUMENT),
                Some(t) => {
                    let count: u64 = if f.x[15] == 0 {
                        1
                    } else {
                        f.x[15]
                    };
                    let (s2, code) = untyped::retyped(
                        s,
                        c.ptr,
                        t,
                        f.x[13],
                        cs.0,
                        cs.1,
                        f.x[14],
                        count,
                    );
                    s1 == s2 && answered_with(f, f1, code)
                },
            }
        }),
{
    lemma_coded(f, error::INVALID_ARGUMENT);
    lemma_coded(f, invoke::untyped_invoked(s, f, c, cs).1);
}

/// A byte for the console is the last to be transmitted.
pub proof fn law_putchar_call(s: State, f: TrapFrame, c: Cap, cs: (u64, u64))
    requires
        f.x[11] == label::DEBUG_PUTCHAR,
    ensures
        ({
            let (s1, f1) = invoke::invoked(s, f, c, cs);
            &&& s1 == (State { tx: s.tx.push(f.x[12] as u8), ..s })
            &&& answered_with(f, f1, error::OK)
        }),
{
    lemma_coded(f, error::OK);
}

/// Issuing a handler puts a capability for the interrupt source in a2, with all
/// rights, into the empty slot a3; acknowledging it enables that source again.
pub proof fn law_interrupt_calls(s: State, f: TrapFrame, c: Cap, cs: (u64, u64))
    ensures
        ({
            let (s1, f1) = invoke::invoked(s, f, c, cs);
            let ok = f.x[13] < cnode::slot_count(cs.1) && cnode::slot(
                s.caps,
                cs.0,
                f.x[13],
            ).cap_type is Null;
            c.cap_type is IRQControl && f.x[11] == label::IRQ_ISSUE_HANDLER ==> {
                &&& answered_with(
                    f,
                    f1,
                    if ok {
                        error::OK
                    } else {
                        error::ILLEGAL_OPERATION
                    },
                )
                &&& ok ==> cnode::slot(s1.caps, cs.0, f.x[13]) == (Cap {
                    cap_type: CapType::IRQHandler,
                    rights: cap::all_rights(),
                    ptr: f.x[12],
                    extra: 0,
                })
                &&& !ok ==> s1 == s
            }
        }),
        ({
            let (s1, f1) = invoke::invoked(s, f, c, cs);
            c.cap_type is IRQHandler && f.x[11] == label::IRQ_ACK ==> {
                &&& s1.irq_enables == s.irq_enables.push((c.ptr, true))
                &&& answered_with(f, f1, error::OK)
            }
        }),
{
    lemma_coded(f, error::OK);
    lemma_coded(f, error::ILLEGAL_OPERATION);
}

/// A frame that was mapped is found at the address a2 of the caller, and the TLB
/// is flushed; nobody else's mappings are meant.
pub proof fn law_map_call(s: State, f: TrapFrame, c: Cap, cs: (u64, u64))
    requires
        c.cap_type is Frame,
        f.x[11] == label::FRAME_MAP,
        sched::current(s) != 0,
        buddy::lists_ok(s.mm.lists),
        walk::walk_ok(s, syscall::caller_pgd(s), f.x[12], 3),
        c.ptr % 4096 == 0,
        c.ptr < 0x100_0000_0000_0000,
        f.x[13] | PTE_U < 1024,
        (f.x[13] | PTE_U) & vspace::PTE_RWX != 0,
    ensures
        ({
            let (s1, f1) = invoke::invoked(s, f, c, cs);
            let done = vspace::mapped(
                s,
                syscall::caller_pgd(s),
                f.x[12],
                c.ptr,
                f.x[13] | PTE_U,
            ).1;
            &&& answered_with(
                f,
                f1,
                if done {
                    error::OK
                } else {
                    error::ILLEGAL_OPERATION
                },
            )
            &&& done ==> s1.flush_tlb && vspace::translated(
                s1.ptes,
                syscall::caller_pgd(s),
                f.x[12],
            ) == Some(c.ptr | (f.x[12] & 0xfff))
        }),
{
    lemma_coded(f, error::OK);
    lemma_coded(f, error::ILLEGAL_OPERATION);
    walk::law_mapped_page_found(s, syscall::caller_pgd(s), f.x[12], c.ptr, f.x[13] | PTE_U);
}

/// Resuming a thread puts it at the end of the queue of its level; suspending
/// it marks it so. Neither changes the thread's context.
pub proof fn law_thread_calls(s: State, f: TrapFrame, c: Cap, cs: (u64, u64), qs: Seq<Seq<u64>>)
    requires
        c.cap_type is Thread,
        c.ptr != 0,
        queue::run_queues(s, qs),
        kernel::tcb(s, c.ptr).priority < MLFQ_LEVELS,
        forall|l: int| 0 <= l < MLFQ_LEVELS ==> !(#[trigger] qs[l]).contains(c.ptr),
    ensures
        ({
            let (s1, f1) = invoke::invoked(s, f, c, cs);
            let t = kernel::tcb(s, c.ptr);
            let t1 = kernel::tcb(s1, c.ptr);
            let level = t.priority as int;
            f.x[11] == label::THREAD_RESUME ==> {
                &&& t1.state is Runnable
                &&& t1.frame == t.frame
                &&& queue::run_queues(s1, qs.update(level, qs[level].push(c.ptr)))
                &&& answered_with(f, f1, error::OK)
            }
        }),
        ({
            let (s1, f1) = invoke::invoked(s, f, c, cs);
            f.x[11] == label::THREAD_SUSPEND ==> {
                &&& s1 == kernel::with_tcb(
                    s,
                    c.ptr,
                    Tcb { state: TcbState::Suspended, ..kernel::tcb(s, c.ptr) },
                )
                &&& answered_with(f, f1, error::OK)
            }
        }),
{
    lemma_coded(f, error::OK);
    contexts::law_admit_queues(s, qs, c.ptr, kernel::tcb(s, c.ptr).priority as int);
}

/// Waiting for a thread that has exited gives its exit code at once. Waiting for
/// any other blocks the caller in its own context as the one that waits for it.
pub proof fn law_wait_call(s: State, f: TrapFrame, c: Cap, cs: (u64, u64))
    requires
        s.hart < MAX_HARTS,
        c.cap_type is Thread,
        f.x[11] == label::PROC_WAIT,
        sched::current(s) != 0,
    ensures
        ({
            let (s1, f1) = invoke::invoked(s, f, c, cs);
            let t = kernel::tcb(s, c.ptr);
            let cur = sched::current(s);
            &&& t.state is Exited ==> s1 == s && answered_with(f, f1, error::OK) && f1.x[11]
                == t.exit_code
            &&& !(t.state is Exited) ==> {
                &&& kernel::tcb(s1, c.ptr).waiter_pa == cur
                &&& contexts::context(s1, f1, cur) == f
                &&& kernel::tcb(s1, cur).state is Blocked || sched::current(s1) == cur
            }
        }),
{
    let t = kernel::tcb(s, c.ptr);
    let cur = sched::current(s);
    trap::law_reply_read_back(f, syscall::answered(t.exit_code));
    let s1 = kernel::with_tcb(s, c.ptr, Tcb { waiter_pa: cur, ..t });
    contexts::law_leaving_keeps_contexts(s1, f, cur);
    contexts::lemma_blocked_keeps(s1, f, c.ptr);
}

} // verus!
