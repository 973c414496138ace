//! Operations on capabilities.
use crate::arch::riscv64::mmu::PTE_U;
use crate::arch::riscv64::trap::{self, TrapFrame};
use crate::arch::riscv64::vspace::{self, map_page, satp_to_pgd_pa};
use crate::cap::cnode;
use crate::cap::endpoint::{self, Endpoint};
use crate::cap::irq;
use crate::cap::notification::{self, Notification};
use crate::cap::untyped;
use crate::cap::{self, Cap, CapType, Rights};
use crate::kernel::{self, Kernel, State};
use crate::objects;
use crate::sched;
use crate::syscall::{self, err, error, label};
use crate::thread::{Tcb, TcbState};
use vstd::prelude::*;

verus! {

/// The code for an operation that either succeeds or is refused.
pub open spec fn refused_unless(done: bool) -> u64 {
    if done {
        error::OK
    } else {
        error::ILLEGAL_OPERATION
    }
}

fn code_of(done: bool) -> (r: u64)
    ensures
        r == refused_unless(done),
{
    if done {
        error::OK
    } else {
        error::ILLEGAL_OPERATION
    }
}

/// Retyping with the object type in a2, its size bits in a3, the first slot in
/// a4 and the count in a5, at least 1.
pub open spec fn untyped_invoked(s: State, f: TrapFrame, c: Cap, cs: (u64, u64)) -> (State, u64) {
    match CapType::decoded(f.x[12] as u8) {
        None => (s, error::INVALID_ARGUMENT),
        Some(t) => untyped::retyped(
            s,
            c.ptr,
            t,
            f.x[13],
            cs.0,
            cs.1,
            f.x[14],
            if f.x[15] == 0 {
                1
            } else {
                f.x[15]
            },
        ),
    }
}

fn invoke_untyped(k: &mut Kernel, frame: &TrapFrame, c: Cap, cs_pa: u64, cs_sb: u64) -> (r: u64)
    requires
        old(k).wf(),
        cs_sb < 64,
    ensures
        final(k).wf(),
        (final(k)@, r) == untyped_invoked(old(k)@, *frame, c, (cs_pa, cs_sb)),
{
    let t: CapType = match CapType::from_u8(frame.a2() as u8) {
        Some(t) => t,
        None => {
            return error::INVALID_ARGUMENT;
        },
    };
    let count: u64 = if frame.a5() == 0 {
        1
    } else {
        frame.a5()
    };
    untyped::retype(k, &c, t, frame.a3(), cs_pa, cs_sb, frame.a4(), count)
}

/// Operations on the CNode that `c` designates.
pub open spec fn cnode_invoked(s: State, f: TrapFrame, c: Cap) -> (State, u64) {
    let l = f.x[11];
    let a2 = f.x[12];
    let a3 = f.x[13];
    let rights = cap::truncated(f.x[14] as u8);
    if l == label::CNODE_COPY {
        let (caps, r) = cnode::duplicated(s.caps, c.ptr, c.extra, a2, a3, rights);
        (State { caps, ..s }, refused_unless(r is Ok))
    } else if l == label::CNODE_MOVE {
        let (caps, r) = cnode::moved(s.caps, c.ptr, c.extra, a2, a3);
        (State { caps, ..s }, refused_unless(r is Ok))
    } else if l == label::CNODE_MINT {
        let (caps, r) = cnode::minted(s.caps, c.ptr, c.extra, a2, a3, rights);
        (State { caps, ..s }, refused_unless(r is Ok))
    } else if l == label::CNODE_DELETE {
        let (caps, r) = cnode::deleted(s.caps, c.ptr, c.extra, a2);
        (State { caps, ..s }, refused_unless(r is Ok))
    } else if l == label::CNODE_REVOKE {
        let (s1, r) = cnode::revoked(s, c.ptr, c.extra, a2);
        (s1, refused_unless(r is Ok))
    } else {
        (s, error::ILLEGAL_OPERATION)
    }
}

fn invoke_cnode(k: &mut Kernel, frame: &TrapFrame, c: Cap) -> (r: u64)
    requires
        old(k).wf(),
        c.extra < 64,
    ensures
        final(k).wf(),
        (final(k)@, r) == cnode_invoked(old(k)@, *frame, c),
{
    let l: u64 = frame.a1();
    let a2: u64 = frame.a2();
    let a3: u64 = frame.a3();
    let rights: Rights = Rights::from_bits_truncate(frame.a4() as u8);
    if l == label::CNODE_COPY {
        code_of(cnode::copy(&mut k.caps, c.ptr, c.extra, a2, a3, rights).is_ok())
    } else if l == label::CNODE_MOVE {
        code_of(cnode::move_cap(&mut k.caps, c.ptr, c.extra, a2, a3).is_ok())
    } else if l == label::CNODE_MINT {
        code_of(cnode::mint(&mut k.caps, c.ptr, c.extra, a2, a3, rights).is_ok())
    } else if l == label::CNODE_DELETE {
        code_of(cnode::delete(&mut k.caps, c.ptr, c.extra, a2).is_ok())
    } else if l == label::CNODE_REVOKE {
        code_of(cnode::revoke(k, c.ptr, c.extra, a2).is_ok())
    } else {
        error::ILLEGAL_OPERATION
    }
}

/// Operations on the thread that `c` designates.
pub open spec fn thread_invoked(s: State, f: TrapFrame, c: Cap) -> (State, TrapFrame) {
    let l = f.x[11];
    let t = kernel::tcb(s, c.ptr);
    if l == label::PROC_WAIT {
        let cur = sched::current(s);
        if cur == 0 {
            (s, trap::replied(f, syscall::coded(error::ILLEGAL_OPERATION)))
        } else if t.state == TcbState::Exited {
            (s, trap::replied(f, syscall::answered(t.exit_code)))
        } else {
            sched::blocked(kernel::with_tcb(s, c.ptr, Tcb { waiter_pa: cur, ..t }), f)
        }
    } else if l == label::THREAD_RESUME {
        (
            sched::enqueued(s, c.ptr, t.priority as int),
            trap::replied(f, syscall::coded(error::OK)),
        )
    } else if l == label::THREAD_SUSPEND {
        (
            kernel::with_tcb(s, c.ptr, Tcb { state: TcbState::Suspended, ..t }),
            trap::replied(f, syscall::coded(error::OK)),
        )
    } else {
        (s, trap::replied(f, syscall::coded(error::ILLEGAL_OPERATION)))
    }
}

fn invoke_thread(k: &mut Kernel, frame: &mut TrapFrame, c: Cap)
    requires
        old(k).wf(),
    ensures
        final(k).wf(),
        (final(k)@, *final(frame)) == thread_invoked(old(k)@, *old(frame), c),
{
    let l: u64 = frame.a1();
    let mut t: Tcb = k.tcb(c.ptr);
    if l == label::PROC_WAIT {
        let cur: u64 = sched::current_pa(k);
        if cur == 0 {
            frame.set_reply(err(error::ILLEGAL_OPERATION));
        } else if t.state == TcbState::Exited {
            frame.set_reply(syscall::ok(t.exit_code));
        } else {
            t.waiter_pa = cur;
            k.set_tcb(c.ptr, t);
            let _ = sched::block_current(k, frame);
        }
    } else if l == label::THREAD_RESUME {
        sched::enqueue(k, c.ptr, t.priority as usize);
        frame.set_reply(err(error::OK));
    } else if l == label::THREAD_SUSPEND {
        t.state = TcbState::Suspended;
        k.set_tcb(c.ptr, t);
        frame.set_reply(err(error::OK));
    } else {
        frame.set_reply(err(error::ILLEGAL_OPERATION));
    }
}

/// Operations on the endpoint that `c` designates: the badge is in a2, the
/// message in a3 to a6.
pub open spec fn endpoint_invoked(s: State, f: TrapFrame, c: Cap) -> (State, TrapFrame) {
    let l = f.x[11];
    let e = objects::at(s.endpoints, c.ptr);
    let msg = [f.x[13], f.x[14], f.x[15], f.x[16]];
    if l == label::ENDPOINT_SEND || l == label::ENDPOINT_CALL {
        let (s1, e1, f1) = endpoint::sent(s, e, f, f.x[12], msg, l == label::ENDPOINT_CALL);
        (State { endpoints: s1.endpoints.insert(c.ptr, e1), ..s1 }, f1)
    } else if l == label::ENDPOINT_RECV {
        let (s1, e1, f1) = endpoint::received(s, e, f);
        (State { endpoints: s1.endpoints.insert(c.ptr, e1), ..s1 }, f1)
    } else if l == label::ENDPOINT_REPLY_RECV {
        let (s1, e1, f1) = endpoint::received(
            endpoint::reply_delivered(s, [error::OK, 0, f.x[12], 0, 0, 0, 0, 0]),
            e,
            f,
        );
        (State { endpoints: s1.endpoints.insert(c.ptr, e1), ..s1 }, f1)
    } else {
        (s, trap::replied(f, syscall::coded(error::ILLEGAL_OPERATION)))
    }
}

fn invoke_endpoint(k: &mut Kernel, frame: &mut TrapFrame, c: Cap)
    requires
        old(k).wf(),
    ensures
        final(k).wf(),
        (final(k)@, *final(frame)) == endpoint_invoked(old(k)@, *old(frame), c),
{
    let l: u64 = frame.a1();
    let mut e: Endpoint = k.endpoints.read(c.ptr);
    if l == label::ENDPOINT_SEND || l == label::ENDPOINT_CALL {
        let msg: [u64; 4] = [frame.a3(), frame.a4(), frame.a5(), frame.a6()];
        let badge: u64 = frame.a2();
        e.send(k, frame, badge, msg, l == label::ENDPOINT_CALL);
    } else if l == label::ENDPOINT_RECV {
        e.recv(k, frame);
    } else if l == label::ENDPOINT_REPLY_RECV {
        e.reply_recv(k, frame);
    } else {
        frame.set_reply(err(error::ILLEGAL_OPERATION));
        return ;
    }
    k.endpoints.write(c.ptr, e);
}

/// Operations on the notification that `c` designates.
pub open spec fn notification_invoked(s: State, f: TrapFrame, c: Cap) -> (State, TrapFrame) {
    let l = f.x[11];
    let n = objects::at(s.notifications, c.ptr);
    if l == label::NOTIF_SIGNAL {
        let (s1, n1) = notification::signalled(s, n, f.x[12]);
        (
            State { notifications: s1.notifications.insert(c.ptr, n1), ..s1 },
            trap::replied(f, syscall::coded(error::OK)),
        )
    } else if l == label::NOTIF_WAIT {
        let (s1, n1, f1) = notification::waited(s, n, f);
        (State { notifications: s1.notifications.insert(c.ptr, n1), ..s1 }, f1)
    } else {
        (s, trap::replied(f, syscall::coded(error::ILLEGAL_OPERATION)))
    }
}

fn invoke_notification(k: &mut Kernel, frame: &mut TrapFrame, c: Cap)
    requires
        old(k).wf(),
    ensures
        final(k).wf(),
        (final(k)@, *final(frame)) == notification_invoked(old(k)@, *old(frame), c),
{
    let l: u64 = frame.a1();
    let mut n: Notification = k.notifications.read(c.ptr);
    if l == label::NOTIF_SIGNAL {
        let badge: u64 = frame.a2();
        n.signal(k, badge, frame);
    } else if l == label::NOTIF_WAIT {
        n.wait(k, frame);
    } else {
        frame.set_reply(err(error::ILLEGAL_OPERATION));
        return ;
    }
    k.notifications.write(c.ptr, n);
}

/// Minting a handler for the interrupt source in a2 into slot a3.
pub open spec fn handler_issued(s: State, f: TrapFrame, cs: (u64, u64)) -> (State, u64) {
    let c = Cap {
        cap_type: CapType::IRQHandler,
        rights: cap::all_rights(),
        ptr: f.x[12],
        extra: 0,
    };
    let (caps, r) = cnode::inserted(s.caps, cs.0, cs.1, f.x[13], c);
    (State { caps, ..s }, refused_unless(r is Ok))
}

fn issue_handler(k: &mut Kernel, frame: &TrapFrame, cs_pa: u64, cs_sb: u64) -> (r: u64)
    requires
        old(k).wf(),
        cs_sb < 64,
    ensures
        final(k).wf(),
        (final(k)@, r) == handler_issued(old(k)@, *frame, (cs_pa, cs_sb)),
{
    let c: Cap = Cap::new(CapType::IRQHandler, frame.a2(), 0, Rights::all());
    code_of(cnode::insert(&mut k.caps, cs_pa, cs_sb, frame.a3(), c).is_ok())
}

/// Mapping the frame that `c` designates at the address a2 of the caller, with
/// the permissions in a3.
pub open spec fn frame_mapped(s: State, f: TrapFrame, c: Cap) -> (State, u64) {
    let cur = sched::current(s);
    if cur == 0 {
        (s, error::ILLEGAL_OPERATION)
    } else {
        let pgd = vspace::pgd_of(kernel::tcb(s, cur).satp);
        let (s1, ok) = vspace::mapped(s, pgd, f.x[12], c.ptr, f.x[13] | PTE_U);
        if ok {
            (State { flush_tlb: true, ..s1 }, error::OK)
        } else {
            (s1, error::ILLEGAL_OPERATION)
        }
    }
}

fn map_frame(k: &mut Kernel, frame: &TrapFrame, c: Cap) -> (r: u64)
    requires
        old(k).wf(),
    ensures
        final(k).wf(),
        (final(k)@, r) == frame_mapped(old(k)@, *frame, c),
{
    let cur: u64 = sched::current_pa(k);
    if cur == 0 {
        return error::ILLEGAL_OPERATION;
    }
    let pgd: u64 = satp_to_pgd_pa(k.tcb(cur).satp);
    match map_page(k, pgd, frame.a2(), c.ptr, frame.a3() | PTE_U) {
        Ok(_) => {
            vspace::flush_tlb_all(k);
            error::OK
        },
        Err(_) => error::ILLEGAL_OPERATION,
    }
}

/// What the caller learns of a capability.
pub open spec fn identity(c: Cap) -> [u64; 8] {
    [error::OK, c.cap_type.code() as u64, c.ptr, c.extra, c.rights.0 as u64, 0, 0, 0]
}

/// A reply with the code that comes with the new state.
pub open spec fn with_code(p: (State, u64), f: TrapFrame) -> (State, TrapFrame) {
    (p.0, trap::replied(f, syscall::coded(p.1)))
}

/// The operation that the label in a1 names on the capability `c`, found in the
/// CSpace `cs`.
pub open spec fn invoked(s: State, f: TrapFrame, c: Cap, cs: (u64, u64)) -> (State, TrapFrame) {
    let l = f.x[11];
    if l == label::CAP_IDENTIFY {
        (s, trap::replied(f, identity(c)))
    } else if l == label::DEBUG_PUTCHAR {
        (
            State { tx: s.tx.push(f.x[12] as u8), ..s },
            trap::replied(f, syscall::coded(error::OK)),
        )
    } else if c.cap_type is CNode {
        with_code(cnode_invoked(s, f, c), f)
    } else if c.cap_type is Thread {
        thread_invoked(s, f, c)
    } else if c.cap_type is Endpoint {
        endpoint_invoked(s, f, c)
    } else if c.cap_type is Notification {
        notification_invoked(s, f, c)
    } else if c.cap_type is UntypedMemory && l == label::UNTYPED_RETYPE {
        with_code(untyped_invoked(s, f, c, cs), f)
    } else if c.cap_type is IRQControl && l == label::IRQ_ISSUE_HANDLER {
        with_code(handler_issued(s, f, cs), f)
    } else if c.cap_type is IRQHandler && l == label::IRQ_ACK {
        (
            State { irq_enables: s.irq_enables.push((c.ptr, true)), ..s },
            trap::replied(f, syscall::coded(error::OK)),
        )
    } else if c.cap_type is Frame && l == label::FRAME_MAP {
        with_code(frame_mapped(s, f, c), f)
    } else {
        (s, trap::replied(f, syscall::coded(error::ILLEGAL_OPERATION)))
    }
}

/// Perform an operation on the capability `c`.
pub fn invoke(k: &mut Kernel, frame: &mut TrapFrame, c: Cap, cs_pa: u64, cs_sb: u64)
    requires
        old(k).wf(),
        cnode::cap_ok(c),
        cs_sb < 64,
    ensures
        final(k).wf(),
        (final(k)@, *final(frame)) == invoked(old(k)@, *old(frame), c, (cs_pa, cs_sb)),
{
    let l: u64 = frame.a1();
    if l == label::CAP_IDENTIFY {
        frame.set_reply(
            [
                error::OK,
                c.cap_type.to_u8() as u64,
                c.ptr,
                c.extra,
                c.rights.bits() as u64,
                0,
                0,
                0,
            ],
        );
        return ;
    }
    if l == label::DEBUG_PUTCHAR {
        k.tx.push(frame.a2() as u8);
        frame.set_reply(err(error::OK));
        return ;
    }
    let code: u64 = match c.cap_type {
        CapType::CNode => invoke_cnode(k, frame, c),
        CapType::Thread => {
            invoke_thread(k, frame, c);
            return ;
        },
        CapType::Endpoint => {
            invoke_endpoint(k, frame, c);
            return ;
        },
        CapType::Notification => {
            invoke_notification(k, frame, c);
            return ;
        },
        CapType::UntypedMemory => {
            if l == label::UNTYPED_RETYPE {
                invoke_untyped(k, frame, c, cs_pa, cs_sb)
            } else {
                error::ILLEGAL_OPERATION
            }
        },
        CapType::IRQControl => {
            if l == label::IRQ_ISSUE_HANDLER {
                issue_handler(k, frame, cs_pa, cs_sb)
            } else {
                error::ILLEGAL_OPERATION
            }
        },
        CapType::IRQHandler => {
            if l == label::IRQ_ACK {
                irq::unmask_irq(k, c.ptr);
                error::OK
            } else {
                error::ILLEGAL_OPERATION
            }
        },
        CapType::Frame => {
            if l == label::FRAME_MAP {
                map_frame(k, frame, c)
            } else {
                error::ILLEGAL_OPERATION
            }
        },
        _ => error::ILLEGAL_OPERATION,
    };
    frame.set_reply(err(code));
}

} // verus!
