//! NS16550A UART: register offsets and values.
use vstd::prelude::*;

verus! {

pub const UART_BASE: u64 = 0x1000_0000;

/// Transmit holding register.
pub const THR: u64 = 0;

/// Receive holding register.
pub const RHR: u64 = 0;

/// Interrupt enable register.
pub const IER: u64 = 1;

/// FIFO control register.
pub const FCR: u64 = 2;

/// Line control register.
pub const LCR: u64 = 3;

/// Modem control register.
pub const MCR: u64 = 4;

/// Line status register.
pub const LSR: u64 = 5;

/// Divisor latch, low byte.
pub const DLL: u64 = 0;

/// Divisor latch, high byte.
pub const DLH: u64 = 1;

/// The transmit holding register is empty.
pub const LSR_THR_EMPTY: u8 = 0x20;

/// A received byte is available.
pub const LSR_DATA_READY: u8 = 0x01;

/// A write of one UART register.
#[derive(Clone, Copy, Debug, PartialEq, Eq, Structural)]
pub struct UartWrite {
    pub reg: u64,
    pub value: u8,
}

/// The writes that set up 115200 8N1 with FIFOs on and interrupts off.
pub fn init() -> (r: [UartWrite; 8])
    ensures
        r@ == seq![
            UartWrite { reg: IER, value: 0x00 },
            UartWrite { reg: LCR, value: 0x80 },
            UartWrite { reg: DLL, value: 0x01 },
            UartWrite { reg: DLH, value: 0x00 },
            UartWrite { reg: LCR, value: 0x03 },
            UartWrite { reg: FCR, value: 0x07 },
            UartWrite { reg: MCR, value: 0x03 },
            UartWrite { reg: IER, value: 0x00 },
        ],
{
    let r: [UartWrite; 8] = [
        UartWrite { reg: IER, value: 0x00 },
        UartWrite { reg: LCR, value: 0x80 },
        UartWrite { reg: DLL, value: 0x01 },
        UartWrite { reg: DLH, value: 0x00 },
        UartWrite { reg: LCR, value: 0x03 },
        UartWrite { reg: FCR, value: 0x07 },
        UartWrite { reg: MCR, value: 0x03 },
        UartWrite { reg: IER, value: 0x00 },
    ];
    assert(r@ =~= seq![
        UartWrite { reg: IER, value: 0x00 },
        UartWrite { reg: LCR, value: 0x80 },
        UartWrite { reg: DLL, value: 0x01 },
        UartWrite { reg: DLH, value: 0x00 },
        UartWrite { reg: LCR, value: 0x03 },
        UartWrite { reg: FCR, value: 0x07 },
        UartWrite { reg: MCR, value: 0x03 },
        UartWrite { reg: IER, value: 0x00 },
    ]);
    r
}

/// The line status says that a received byte is waiting.
pub fn data_ready(lsr: u8) -> (r: bool)
    ensures
        r == (lsr & LSR_DATA_READY != 0),
{
    lsr & LSR_DATA_READY != 0
}

/// The line status says that a byte can be written.
pub fn can_transmit(lsr: u8) -> (r: bool)
    ensures
        r == (lsr & LSR_THR_EMPTY != 0),
{
    lsr & LSR_THR_EMPTY != 0
}

/// Address to read a received byte from; `data_ready` must hold.
pub fn read_byte() -> (r: u64)
    ensures
        r == UART_BASE + RHR,
{
    UART_BASE + RHR
}

/// Enable the received-data interrupt, and no other.
pub fn enable_rx_interrupt() -> (r: UartWrite)
    ensures
        r == (UartWrite { reg: IER, value: 0x01 }),
{
    UartWrite { reg: IER, value: 0x01 }
}

/// Enable the transmitter-empty interrupt, and no other.
pub fn enable_thre_interrupt() -> (r: UartWrite)
    ensures
        r == (UartWrite { reg: IER, value: 0x02 }),
{
    UartWrite { reg: IER, value: 0x02 }
}

/// Disable all UART interrupts.
pub fn disable_interrupts() -> (r: UartWrite)
    ensures
        r == (UartWrite { reg: IER, value: 0x00 }),
{
    UartWrite { reg: IER, value: 0x00 }
}

/// The write that transmits `byte`, once `can_transmit` holds.
pub fn putchar(byte: u8) -> (r: UartWrite)
    ensures
        r == (UartWrite { reg: THR, value: byte }),
{
    UartWrite { reg: THR, value: byte }
}

/// One step of polling for input: the address to read the byte from, once the
/// line status says that there is one.
pub fn getchar_blocking(lsr: u8) -> (r: Option<u64>)
    ensures
        r == (if lsr & LSR_DATA_READY != 0 {
            Some((UART_BASE + RHR) as u64)
        } else {
            None
        }),
{
    if data_ready(lsr) {
        Some(read_byte())
    } else {
        None
    }
}

/// The bytes that text becomes on the line: a carriage return goes before every
/// line feed.
pub open spec fn cooked_text(s: Seq<u8>) -> Seq<u8>
    decreases s.len(),
{
    if s.len() == 0 {
        Seq::empty()
    } else if s.last() == 10 {
        cooked_text(s.drop_last()).push(13).push(10)
    } else {
        cooked_text(s.drop_last()).push(s.last())
    }
}

/// Text as the UART transmits it.
pub struct UartWriter;

impl UartWriter {
    /// The bytes to transmit for `s`.
    pub fn write_str(&self, s: &[u8]) -> (r: Vec<u8>)
        ensures
            r@ == cooked_text(s@),
    {
        let mut r: Vec<u8> = Vec::new();
        let mut i: usize = 0;
        assert(s@.take(0) =~= Seq::<u8>::empty());
        while i < s.len()
            invariant
                i <= s@.len(),
                r@ == cooked_text(s@.take(i as int)),
            decreases s@.len() - i,
        {
            assert(s@.take(i + 1).drop_last() =~= s@.take(i as int));
            if s[i] == 10 {
                r.push(13);
            }
            r.push(s[i]);
            i += 1;
        }
        assert(s@.take(i as int) =~= s@);
        r
    }
}

/// Text goes out byte by byte in its order: a line feed as carriage return and
/// line feed, every other byte as it is.
pub proof fn law_text_cooked(a: Seq<u8>, b: Seq<u8>, c: u8)
    ensures
        cooked_text(a + b) == cooked_text(a) + cooked_text(b),
        cooked_text(seq![c]) == (if c == 10 {
            seq![13u8, 10]
        } else {
            seq![c]
        }),
        cooked_text(Seq::empty()) == Seq::<u8>::empty(),
    decreases b.len(),
{
    let one = seq![c];
    assert(one.drop_last() =~= Seq::<u8>::empty());
    assert(cooked_text(one.drop_last()) =~= Seq::<u8>::empty());
    if c == 10 {
        assert(cooked_text(one) =~= seq![13u8, 10]);
    } else {
        assert(cooked_text(one) =~= seq![c]);
    }
    if b.len() == 0 {
        assert(a + b =~= a);
        assert(cooked_text(a) + cooked_text(b) =~= cooked_text(a));
    } else {
        law_text_cooked(a, b.drop_last(), c);
        assert((a + b).drop_last() =~= a + b.drop_last());
        assert(cooked_text(a + b) =~= cooked_text(a) + cooked_text(b));
    }
}

} // verus!
