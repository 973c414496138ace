//! Console: the receive ring buffer and the threads that wait for input.
use crate::arch::riscv64::trap::{self, TrapFrame};
use crate::arch::riscv64::uart::{self, UartWrite};
use crate::kernel::{self, Kernel, State};
use crate::sched::{self, Sched};
use crate::thread::Tcb;
use vstd::prelude::*;

verus! {

/// Interrupt source of the UART.
pub const CONSOLE_IRQ: u64 = 10;

/// Slots of the ring; one stays free, so it holds one byte less.
pub const BUF_CAP: usize = 4096;

/// Received bytes that no thread has read yet.
pub struct RxBuf {
    pub data: [u8; 4096],
    /// Read index.
    pub head: usize,
    /// Write index.
    pub tail: usize,
}

impl RxBuf {
    pub open spec fn wf(&self) -> bool {
        self.head < BUF_CAP && self.tail < BUF_CAP
    }

    pub open spec fn spec_len(&self) -> nat {
        if self.tail >= self.head {
            (self.tail - self.head) as nat
        } else {
            (self.tail + BUF_CAP - self.head) as nat
        }
    }
}

/// Position `i` after `head`, around the ring.
pub open spec fn ring_index(head: int, i: int) -> int {
    if head + i < BUF_CAP {
        head + i
    } else {
        head + i - BUF_CAP
    }
}

impl View for RxBuf {
    type V = Seq<u8>;

    /// The buffered bytes, oldest first.
    open spec fn view(&self) -> Seq<u8> {
        Seq::new(self.spec_len(), |i: int| self.data[ring_index(self.head as int, i)])
    }
}

/// What a full ring drops and any other takes.
pub open spec fn pushed(buf: Seq<u8>, b: u8) -> Seq<u8> {
    if buf.len() + 1 < BUF_CAP {
        buf.push(b)
    } else {
        buf
    }
}

impl RxBuf {
    pub fn new() -> (r: RxBuf)
        ensures
            r.wf(),
            r@ == Seq::<u8>::empty(),
    {
        let r = RxBuf { data: [0;4096], head: 0, tail: 0 };
        assert(r@ =~= Seq::<u8>::empty());
        r
    }

    pub fn is_empty(&self) -> (r: bool)
        requires
            self.wf(),
        ensures
            r == (self@.len() == 0),
    {
        self.head == self.tail
    }

    /// Append a byte; a full ring drops it.
    pub fn push(&mut self, b: u8)
        requires
            old(self).wf(),
        ensures
            final(self).wf(),
            final(self)@ == pushed(old(self)@, b),
    {
        let next: usize = (self.tail + 1) % BUF_CAP;
        if next != self.head {
            self.data[self.tail] = b;
            self.tail = next;
            assert(self@ =~= old(self)@.push(b));
        }
    }

    /// Take the oldest byte.
    pub fn pop(&mut self) -> (r: Option<u8>)
        requires
            old(self).wf(),
        ensures
            final(self).wf(),
            old(self)@.len() == 0 ==> r is None && final(self)@ == old(self)@,
            old(self)@.len() > 0 ==> r == Some(old(self)@[0]) && final(self)@ == old(
                self,
            )@.drop_first(),
    {
        if self.is_empty() {
            return None;
        }
        let b: u8 = self.data[self.head];
        self.head = (self.head + 1) % BUF_CAP;
        assert(self@ =~= old(self)@.drop_first());
        Some(b)
    }
}

/// Putting a thread at the end of the queue of threads that wait for a byte.
pub open spec fn waiter_queued(s: State, pa: u64) -> State {
    let s1 = kernel::with_tcb(s, pa, Tcb { next_pa: 0, ..kernel::tcb(s, pa) });
    if s.rx_tail == 0 {
        State { rx_head: pa, rx_tail: pa, ..s1 }
    } else {
        kernel::with_tcb(
            State { rx_tail: pa, ..s1 },
            s.rx_tail,
            Tcb { next_pa: pa, ..kernel::tcb(s1, s.rx_tail) },
        )
    }
}

/// Taking the first thread that waits for a byte (0 when none does).
pub open spec fn waiter_unqueued(s: State) -> (State, u64) {
    if s.rx_head == 0 {
        (s, 0)
    } else {
        let next = kernel::tcb(s, s.rx_head).next_pa;
        (
            State {
                rx_head: next,
                rx_tail: if next == 0 {
                    0
                } else {
                    s.rx_tail
                },
                ..s
            },
            s.rx_head,
        )
    }
}

pub open spec fn with_io_waiters(s: State, n: u64) -> State {
    State { sched: Sched { io_waiters: n, ..s.sched }, ..s }
}

/// Reading a byte: a buffered one at once, else the caller blocks.
pub open spec fn char_got(s: State, f: TrapFrame) -> (State, TrapFrame) {
    if s.rx.len() > 0 {
        (
            State { rx: s.rx.drop_first(), ..s },
            trap::replied(f, [0, s.rx[0] as u64, 0, 0, 0, 0, 0, 0]),
        )
    } else {
        let cur = sched::current(s);
        let (s1, f1) = sched::blocked(
            with_io_waiters(s, s.sched.io_waiters.wrapping_add(1)),
            f,
        );
        if cur != 0 {
            (waiter_queued(s1, cur), f1)
        } else {
            (s1, f1)
        }
    }
}

/// The byte that a received one stands for: carriage return is a line feed.
pub open spec fn cooked(raw: u8) -> u8 {
    if raw == 13 {
        10
    } else {
        raw
    }
}

/// What a received byte echoes: a line break for carriage return, an erased
/// character for backspace and delete, itself for any other.
pub open spec fn echo(raw: u8) -> Seq<u8> {
    if raw == 13 {
        seq![13u8, 10u8]
    } else if raw == 127 || raw == 8 {
        seq![8u8, 32u8, 8u8]
    } else {
        seq![raw]
    }
}

/// Receiving a byte: echo it, then hand it to the first waiting thread, which
/// runs at once, or buffer it.
pub open spec fn byte_received(s: State, f: TrapFrame, raw: u8) -> (State, TrapFrame) {
    let s0 = State { tx: s.tx + echo(raw), ..s };
    let (s1, waiter) = waiter_unqueued(s0);
    if waiter != 0 {
        sched::woken_from_irq(
            with_io_waiters(s1, s1.sched.io_waiters.wrapping_sub(1)),
            waiter,
            [0, cooked(raw) as u64, 0, 0, 0, 0, 0, 0],
        )
    } else {
        (State { rx: pushed(s1.rx, cooked(raw)), ..s1 }, f)
    }
}

/// Buffering a run of bytes.
pub open spec fn all_pushed(buf: Seq<u8>, data: Seq<u8>) -> Seq<u8>
    decreases data.len(),
{
    if data.len() == 0 {
        buf
    } else {
        pushed(all_pushed(buf, data.drop_last()), data.last())
    }
}

fn enqueue_waiter(k: &mut Kernel, tcb_pa: u64)
    requires
        old(k).wf(),
    ensures
        final(k).wf(),
        final(k)@ == waiter_queued(old(k)@, tcb_pa),
{
    let mut t: Tcb = k.tcb(tcb_pa);
    t.next_pa = 0;
    k.set_tcb(tcb_pa, t);
    let old_tail: u64 = k.rx_tail;
    k.rx_tail = tcb_pa;
    if old_tail == 0 {
        k.rx_head = tcb_pa;
    } else {
        let mut last: Tcb = k.tcb(old_tail);
        last.next_pa = tcb_pa;
        k.set_tcb(old_tail, last);
    }
}

fn dequeue_waiter(k: &mut Kernel) -> (r: u64)
    requires
        old(k).wf(),
    ensures
        final(k).wf(),
        (final(k)@, r) == waiter_unqueued(old(k)@),
{
    let head: u64 = k.rx_head;
    if head == 0 {
        return 0;
    }
    let next: u64 = k.tcb(head).next_pa;
    k.rx_head = next;
    if next == 0 {
        k.rx_tail = 0;
    }
    head
}

/// Load bytes into the ring buffer as if they had been received.
pub fn seed(k: &mut Kernel, data: &[u8])
    requires
        old(k).wf(),
    ensures
        final(k).wf(),
        final(k)@ == (State { rx: all_pushed(old(k)@.rx, data@), ..old(k)@ }),
{
    let mut i: usize = 0;
    assert(data@.take(0) =~= Seq::<u8>::empty());
    while i < data.len()
        invariant
            i <= data@.len(),
            k.wf(),
            k@ == (State { rx: all_pushed(old(k)@.rx, data@.take(i as int)), ..old(k)@ }),
        decreases data@.len() - i,
    {
        assert(data@.take(i + 1).drop_last() =~= data@.take(i as int));
        k.rx.push(data[i]);
        i += 1;
    }
    assert(data@.take(i as int) =~= data@);
}

/// Return a received byte in a1, or block the calling thread until one
/// arrives.
pub fn getchar(k: &mut Kernel, frame: &mut TrapFrame)
    requires
        old(k).wf(),
    ensures
        final(k).wf(),
        (final(k)@, *final(frame)) == char_got(old(k)@, *old(frame)),
{
    match k.rx.pop() {
        Some(b) => {
            frame.set_reply([0, b as u64, 0, 0, 0, 0, 0, 0]);
        },
        None => {
            sched::add_io_waiter(k);
            let tcb_pa: u64 = sched::block_current(k, frame);
            if tcb_pa != 0 {
                enqueue_waiter(k, tcb_pa);
            }
        },
    }
}

/// Queue a byte for transmission.
pub fn putchar(k: &mut Kernel, b: u8)
    requires
        old(k).wf(),
    ensures
        final(k).wf(),
        final(k)@ == (State { tx: old(k)@.tx.push(b), ..old(k)@ }),
{
    k.tx.push(b);
}

/// Handle the byte `raw` that the UART received: echo it, and either wake a
/// waiting thread with it or buffer it.
pub fn rx_irq(k: &mut Kernel, frame: &mut TrapFrame, raw: u8)
    requires
        old(k).wf(),
    ensures
        final(k).wf(),
        (final(k)@, *final(frame)) == byte_received(old(k)@, *old(frame), raw),
{
    let byte: u8 = if raw == 13 {
        putchar(k, 13);
        putchar(k, 10);
        10
    } else if raw == 127 || raw == 8 {
        putchar(k, 8);
        putchar(k, 32);
        putchar(k, 8);
        raw
    } else {
        putchar(k, raw);
        raw
    };
    assert(k@.tx =~= old(k)@.tx + echo(raw));
    let waiter: u64 = dequeue_waiter(k);
    if waiter != 0 {
        sched::remove_io_waiter(k);
        sched::wake_from_irq(k, waiter, [0, byte as u64, 0, 0, 0, 0, 0, 0], frame);
    } else {
        k.rx.push(byte);
    }
}

/// Bytes come out of the ring in the order they went in, as long as it does not
/// overflow.
pub proof fn law_ring_keeps_order(buf: Seq<u8>, data: Seq<u8>)
    requires
        buf.len() + data.len() < BUF_CAP,
    ensures
        all_pushed(buf, data) == buf + data,
    decreases data.len(),
{
    if data.len() > 0 {
        law_ring_keeps_order(buf, data.drop_last());
        assert((buf + data.drop_last()).push(data.last()) =~= buf + data);
    } else {
        assert(buf + data =~= buf);
    }
}

/// The register write that enables the receive interrupt.
pub fn init_rx() -> (r: UartWrite)
    ensures
        r == (UartWrite { reg: uart::IER, value: 0x01 }),
{
    uart::enable_rx_interrupt()
}

} // verus!
