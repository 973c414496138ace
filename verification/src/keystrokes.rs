//! From a key to the thread that reads it.
use crate::arch::riscv64::trap::{self, TrapFrame};
use crate::cap::grants;
use crate::cap::irq;
use crate::console::{self, BUF_CAP, CONSOLE_IRQ};
use crate::kernel::{self, State};
use crate::sched::{self, queue, MAX_HARTS};
use crate::thread::MLFQ_LEVELS;
use vstd::prelude::*;

verus! {

/// The threads `q` wait for a byte, first to last.
pub open spec fn readers(s: State, q: Seq<u64>) -> bool {
    queue::chain(s, s.rx_head, s.rx_tail, q)
}

/// A key goes to the thread that has waited longest: it runs at once in its own
/// address space, behind its call, with the byte in a1. The return key reads as
/// a line feed. Nothing is buffered, and the others go on waiting.
pub proof fn law_key_reaches_first_reader(s: State, f: TrapFrame, raw: u8, q: Seq<u64>)
    requires
        s.hart < MAX_HARTS,
        readers(s, q),
        q.len() > 0,
    ensures
        ({
            let (s1, f1) = console::byte_received(s, f, raw);
            let saved = kernel::tcb(s, q[0]).frame;
            &&& sched::current(s1) == q[0]
            &&& kernel::tcb(s1, q[0]).state is Running
            &&& kernel::tcb(s1, q[0]).frame == f1
            &&& s1.sched.next_satp[s.hart as int] == kernel::tcb(s, q[0]).satp
            &&& f1.x[10] == 0
            &&& f1.x[11] == (if raw == 13 {
                10
            } else {
                raw
            })
            &&& f1.sepc == saved.sepc
            &&& forall|i: int| 0 <= i < 32 && !(10 <= i < 18) ==> #[trigger] f1.x[i] == saved.x[i]
            &&& readers(s1, q.drop_first())
            &&& s1.rx == s.rx
            &&& s1.sched.io_waiters == s.sched.io_waiters.wrapping_sub(1)
        }),
{
    assert(q.contains(q[0]));
    let s0 = State { tx: s.tx + console::echo(raw), ..s };
    queue::lemma_chain_kept(s, s0, s.rx_head, s.rx_tail, q);
    let (s1, w) = console::waiter_unqueued(s0);
    let s2 = console::with_io_waiters(s1, s1.sched.io_waiters.wrapping_sub(1));
    let b: u64 = console::cooked(raw) as u64;
    let reply = [0, b, 0, 0, 0, 0, 0, 0];
    trap::law_reply_read_back(kernel::tcb(s, q[0]).frame, reply);
    let (s3, f3) = sched::woken_from_irq(s2, w, reply);
    assert(f3 == trap::replied(kernel::tcb(s, q[0]).frame, reply));
    assert(reply[0] == 0 && reply[1] == b);
    queue::lemma_chain_rest(s0, s3, s.rx_head, s.rx_tail, q);
}

/// A key that nobody waits for is kept behind those that came before it, as long
/// as there is room, and the interrupted context goes on.
pub proof fn law_key_kept(s: State, f: TrapFrame, raw: u8)
    requires
        readers(s, Seq::empty()),
    ensures
        ({
            let (s1, f1) = console::byte_received(s, f, raw);
            let b: u8 = if raw == 13 {
                10
            } else {
                raw
            };
            &&& f1 == f
            &&& s1.sched == s.sched
            &&& s1.tcbs == s.tcbs
            &&& s.rx.len() + 1 < BUF_CAP ==> s1.rx == s.rx.push(b)
            &&& s.rx.len() + 1 >= BUF_CAP ==> s1.rx == s.rx
        }),
{
}

/// What is typed shows: every byte echoes as itself, the return key as a line
/// break, and backspace rubs out a character.
pub proof fn law_keys_echo(s: State, f: TrapFrame, raw: u8)
    requires
        s.hart < MAX_HARTS,
    ensures
        ({
            let s1 = console::byte_received(s, f, raw).0;
            &&& s.tx.is_prefix_of(s1.tx)
            &&& raw != 13 && raw != 127 && raw != 8 ==> s1.tx == s.tx.push(raw)
            &&& raw == 13 ==> s1.tx == s.tx.push(13).push(10)
            &&& raw == 127 || raw == 8 ==> s1.tx == s.tx.push(8).push(32).push(8)
        }),
{
    let s1 = console::byte_received(s, f, raw).0;
    assert(s1.tx == s.tx + console::echo(raw));
    assert(s1.tx.take(s.tx.len() as int) =~= s.tx);
    if raw != 13 && raw != 127 && raw != 8 {
        assert(s1.tx =~= s.tx.push(raw));
    } else if raw == 13 {
        assert(s1.tx =~= s.tx.push(13).push(10));
    } else {
        assert(s1.tx =~= s.tx.push(8).push(32).push(8));
    }
}

/// A read takes the oldest byte that was kept and returns at once.
pub proof fn law_read_takes_oldest(s: State, f: TrapFrame)
    requires
        s.rx.len() > 0,
    ensures
        ({
            let (s1, f1) = console::char_got(s, f);
            &&& f1.x[10] == 0
            &&& f1.x[11] == s.rx[0]
            &&& f1.sepc == f.sepc
            &&& s1 == (State { rx: s.rx.drop_first(), ..s })
        }),
{
    let b: u64 = s.rx[0] as u64;
    let reply = [0, b, 0, 0, 0, 0, 0, 0];
    trap::law_reply_read_back(f, reply);
    let f1 = trap::replied(f, reply);
}

/// A read that finds nothing waits behind the other readers, with its context
/// saved, and is counted among those that wait for input.
pub proof fn law_reader_waits(s: State, f: TrapFrame, q: Seq<u64>, qs: Seq<Seq<u64>>)
    requires
        s.hart < MAX_HARTS,
        s.rx.len() == 0,
        sched::current(s) != 0,
        readers(s, q),
        queue::run_queues(s, qs),
        !q.contains(sched::current(s)),
        forall|l: int, p: u64|
            0 <= l < MLFQ_LEVELS && q.contains(p) ==> !(#[trigger] qs[l].contains(p)),
        forall|l: int|
            0 <= l < MLFQ_LEVELS ==> !(#[trigger] qs[l]).contains(sched::current(s)),
    ensures
        ({
            let (s1, f1) = console::char_got(s, f);
            let t = kernel::tcb(s1, sched::current(s));
            &&& readers(s1, q.push(sched::current(s)))
            &&& t.frame == f
            &&& t.state is Blocked
            &&& s1.sched.io_waiters == s.sched.io_waiters.wrapping_add(1)
        }),
{
    let cur = sched::current(s);
    let s0 = console::with_io_waiters(s, s.sched.io_waiters.wrapping_add(1));
    assert forall|l: int| 0 <= l < MLFQ_LEVELS implies queue::run_queue(s0, l, #[trigger] qs[l]) by {
        assert(queue::run_queue(s, l, qs[l]));
        queue::lemma_chain_kept(s, s0, s.sched.queue_head[l], s.sched.queue_tail[l], qs[l]);
    }
    assert(queue::run_queues(s0, qs));
    queue::lemma_chain_kept(s, s0, s.rx_head, s.rx_tail, q);
    grants::lemma_block_keeps_chain(s0, f, qs, s.rx_head, s.rx_tail, q);
    let s1 = sched::blocked(s0, f).0;
    let s2 = console::waiter_queued(s1, cur);
    if q.len() > 0 {
        assert(q.contains(q[0]));
        assert(q.contains(q.last()));
    }
    queue::lemma_chain_append(s1, s2, s.rx_head, s.rx_tail, q, cur);
}

/// The console's interrupt source stays enabled; any other source is masked
/// until it is acknowledged, and is counted. A spurious interrupt does nothing.
pub proof fn law_other_sources_masked(s: State, f: TrapFrame, source: u64, rx: Option<u8>)
    ensures
        ({
            let (s1, f1) = irq::external_handled(s, f, source, rx);
            &&& source == 0 ==> s1 == s && f1 == f
            &&& source == CONSOLE_IRQ && rx is Some ==> {
                &&& s1.irq_enables.last() == (source, true)
                &&& s1.irq_count == s.irq_count
                &&& s1.rx == console::byte_received(s, f, rx->0).0.rx
                &&& f1 == console::byte_received(s, f, rx->0).1
            }
            &&& source != 0 && (source != CONSOLE_IRQ || rx is None) ==> {
                &&& f1 == f
                &&& s1.irq_enables == s.irq_enables.push((source, false))
                &&& s1.irq_count == s.irq_count.wrapping_add(1)
                &&& s1.last_irq == source
                &&& s1.tcbs == s.tcbs && s1.sched == s.sched && s1.rx == s.rx
            }
        }),
{
}

} // verus!
