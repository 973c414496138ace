//! Trap frames and the S-mode exception and interrupt dispatcher.
use crate::objects::Zeroed;
use crate::cap::irq;
use crate::kernel::{self, Kernel, State};
use crate::linux_compat;
use crate::linux_compat::files;
use crate::linux_compat::nr;
use crate::sched;
use crate::syscall;
use vstd::prelude::*;

verus! {

/// The saved register file of a trapped context.
#[derive(Clone, Copy)]
pub struct TrapFrame {
    /// `x[i]` is register `xi`; `x[0]` is a dummy.
    pub x: [u64; 32],
    pub sepc: u64,
    pub sstatus: u64,
}

/// `f` with register `i` set to `v`.
pub open spec fn with_x(f: TrapFrame, i: int, v: u64) -> TrapFrame {
    TrapFrame { x: vstd::array::spec_array_update(f.x, i, v), ..f }
}

/// `f` with `reply` in a0 to a7.
pub open spec fn replied(f: TrapFrame, reply: [u64; 8]) -> TrapFrame {
    with_x(
        with_x(
            with_x(
                with_x(
                    with_x(
                        with_x(with_x(with_x(f, 10, reply[0]), 11, reply[1]), 12, reply[2]),
                        13,
                        reply[3],
                    ),
                    14,
                    reply[4],
                ),
                15,
                reply[5],
            ),
            16,
            reply[6],
        ),
        17,
        reply[7],
    )
}

impl Zeroed for TrapFrame {
    open spec fn zeroed() -> TrapFrame {
        TrapFrame {
            x: vstd::array::spec_array_fill_for_copy_type::<u64, 32>(0),
            sepc: 0,
            sstatus: 0,
        }
    }

    fn zero() -> (r: TrapFrame) {
        TrapFrame { x: [0;32], sepc: 0, sstatus: 0 }
    }
}

impl TrapFrame {
    pub fn a0(&self) -> (r: u64)
        ensures
            r == self.x[10],
    {
        self.x[10]
    }

    pub fn a1(&self) -> (r: u64)
        ensures
            r == self.x[11],
    {
        self.x[11]
    }

    pub fn a2(&self) -> (r: u64)
        ensures
            r == self.x[12],
    {
        self.x[12]
    }

    pub fn a3(&self) -> (r: u64)
        ensures
            r == self.x[13],
    {
        self.x[13]
    }

    pub fn a4(&self) -> (r: u64)
        ensures
            r == self.x[14],
    {
        self.x[14]
    }

    pub fn a5(&self) -> (r: u64)
        ensures
            r == self.x[15],
    {
        self.x[15]
    }

    pub fn a6(&self) -> (r: u64)
        ensures
            r == self.x[16],
    {
        self.x[16]
    }

    pub fn a7(&self) -> (r: u64)
        ensures
            r == self.x[17],
    {
        self.x[17]
    }

    /// Write a reply into a0 to a7.
    pub fn set_reply(&mut self, reply: [u64; 8])
        ensures
            *final(self) == replied(*old(self), reply),
    {
        self.x[10] = reply[0];
        self.x[11] = reply[1];
        self.x[12] = reply[2];
        self.x[13] = reply[3];
        self.x[14] = reply[4];
        self.x[15] = reply[5];
        self.x[16] = reply[6];
        self.x[17] = reply[7];
    }

    pub fn set_a0(&mut self, v: u64)
        ensures
            *final(self) == with_x(*old(self), 10, v),
    {
        self.x[10] = v;
    }

    pub fn pc(&self) -> (r: u64)
        ensures
            r == self.sepc,
    {
        self.sepc
    }

    pub fn set_pc(&mut self, v: u64)
        ensures
            *final(self) == (TrapFrame { sepc: v, ..*old(self) }),
    {
        self.sepc = v;
    }
}

/// A reply is read back from a0 to a7, and no other register changes.
pub proof fn law_reply_read_back(f: TrapFrame, reply: [u64; 8])
    ensures
        forall|i: int| 0 <= i < 8 ==> #[trigger] replied(f, reply).x[10 + i] == reply[i],
        forall|i: int|
            0 <= i < 32 && !(10 <= i < 18) ==> #[trigger] replied(f, reply).x[i] == f.x[i],
        replied(f, reply).sepc == f.sepc,
        replied(f, reply).sstatus == f.sstatus,
{
}

pub const CAUSE_BREAKPOINT: u64 = 3;

/// System call from U-mode.
pub const CAUSE_ECALL_U: u64 = 8;

/// System call from S-mode.
pub const CAUSE_ECALL_S: u64 = 9;

/// Set in the cause of an interrupt.
pub const INTERRUPT_BIT: u64 = 0x8000_0000_0000_0000;

pub const INTERRUPT_SUPERVISOR_TIMER: u64 = 0x8000_0000_0000_0005;

pub const INTERRUPT_SUPERVISOR_EXTERNAL: u64 = 0x8000_0000_0000_0009;

/// What the hardware tells about a trap. Only what `needed` names is looked at.
#[derive(Clone, Copy)]
pub struct Devices {
    /// The interrupt source claimed from the controller (0 is none).
    pub irq: u64,
    /// The byte waiting in the UART.
    pub rx: Option<u8>,
    /// A byte read from the console by polling.
    pub input: u8,
    /// The first 16 bits of the instruction that trapped.
    pub instr: u16,
}

/// What a trap needs to know from the hardware.
#[derive(Clone, Copy, Debug, PartialEq, Eq, Structural)]
pub enum Needed {
    Nothing,
    /// The claimed interrupt source, and the UART byte.
    Interrupt,
    /// A byte from the console.
    Byte,
    /// The instruction at the program counter.
    Instruction,
}

/// How a trap ends.
#[derive(Clone, Copy, Debug, PartialEq, Eq, Structural)]
pub enum TrapEnd {
    /// Resume the context.
    Resume,
    /// Arm the timer for the next tick, then resume.
    ArmTimer,
    /// Complete the claim of the interrupt source, then resume.
    CompleteIrq(u64),
    /// Report an interrupt that nothing handles, then resume.
    UnknownInterrupt(u64),
    /// The kernel touched an address that the caller has not mapped.
    KernelFault,
    /// An exception that nothing handles.
    UnknownException,
}

/// The current thread follows the Linux ABI.
pub open spec fn is_linux(s: State) -> bool {
    sched::current(s) != 0 && kernel::tcb(s, sched::current(s)).linux_compat
}

/// What a trap with this cause needs.
pub open spec fn need_of(s: State, f: TrapFrame, scause: u64) -> Needed {
    if scause == INTERRUPT_SUPERVISOR_EXTERNAL {
        Needed::Interrupt
    } else if scause == CAUSE_BREAKPOINT {
        Needed::Instruction
    } else if (scause == CAUSE_ECALL_U || scause == CAUSE_ECALL_S) && is_linux(s) && f.x[17]
        == nr::SYS_READ && files::wants_input(f.x[10], f.x[12]) {
        Needed::Byte
    } else {
        Needed::Nothing
    }
}

/// A system call: it resumes after the instruction, and goes to the dispatcher
/// of the thread's ABI.
pub open spec fn call_served(s: State, f: TrapFrame, input: u8) -> (State, TrapFrame, TrapEnd) {
    let f1 = TrapFrame { sepc: f.sepc.wrapping_add(4), ..f };
    if is_linux(s) {
        let (s1, f2, r) = linux_compat::dispatched(s, f1, input);
        (
            s1,
            f2,
            if r is Ok {
                TrapEnd::Resume
            } else {
                TrapEnd::KernelFault
            },
        )
    } else {
        let (s1, f2) = syscall::dispatched(s, f1);
        (s1, f2, TrapEnd::Resume)
    }
}

/// Length of the instruction that starts with these 16 bits.
pub open spec fn instruction_bytes(instr: u16) -> u64 {
    if instr & 3 == 3 {
        4
    } else {
        2
    }
}

/// Handling a trap.
pub open spec fn trapped(s: State, f: TrapFrame, scause: u64, d: Devices) -> (
    State,
    TrapFrame,
    TrapEnd,
) {
    let s0 = State { trap_count: s.trap_count.wrapping_add(1), ..s };
    if scause & INTERRUPT_BIT != 0 {
        if scause == INTERRUPT_SUPERVISOR_TIMER {
            let (s1, f1) = sched::ticked(s0, f);
            (s1, f1, TrapEnd::ArmTimer)
        } else if scause == INTERRUPT_SUPERVISOR_EXTERNAL {
            let (s1, f1) = irq::external_handled(s0, f, d.irq, d.rx);
            (
                s1,
                f1,
                if d.irq != 0 {
                    TrapEnd::CompleteIrq(d.irq)
                } else {
                    TrapEnd::Resume
                },
            )
        } else {
            (s0, f, TrapEnd::UnknownInterrupt(scause & !INTERRUPT_BIT))
        }
    } else if scause == CAUSE_ECALL_U || scause == CAUSE_ECALL_S {
        call_served(s0, f, d.input)
    } else if scause == CAUSE_BREAKPOINT {
        (
            s0,
            TrapFrame { sepc: f.sepc.wrapping_add(instruction_bytes(d.instr)), ..f },
            TrapEnd::Resume,
        )
    } else {
        (s0, f, TrapEnd::UnknownException)
    }
}

pub fn trap_count(k: &Kernel) -> (r: u64)
    ensures
        r == k@.trap_count,
{
    k.trap_count
}

fn current_is_linux(k: &Kernel) -> (r: bool)
    requires
        k.wf(),
    ensures
        r == is_linux(k@),
{
    let cur: u64 = sched::current_pa(k);
    cur != 0 && k.tcb(cur).linux_compat
}

/// What handling a trap with this cause needs from the hardware.
pub fn needed(k: &Kernel, frame: &TrapFrame, scause: u64) -> (r: Needed)
    requires
        k.wf(),
    ensures
        r == need_of(k@, *frame, scause),
{
    if scause == INTERRUPT_SUPERVISOR_EXTERNAL {
        Needed::Interrupt
    } else if scause == CAUSE_BREAKPOINT {
        Needed::Instruction
    } else if (scause == CAUSE_ECALL_U || scause == CAUSE_ECALL_S) && current_is_linux(k)
        && linux_compat::wants_byte(frame) {
        Needed::Byte
    } else {
        Needed::Nothing
    }
}

fn serve_call(k: &mut Kernel, frame: &mut TrapFrame, input: u8) -> (r: TrapEnd)
    requires
        old(k).wf(),
    ensures
        final(k).wf(),
        (final(k)@, *final(frame), r) == call_served(old(k)@, *old(frame), input),
{
    frame.sepc = frame.sepc.wrapping_add(4);
    if current_is_linux(k) {
        match linux_compat::dispatch(k, frame, input) {
            Ok(_) => TrapEnd::Resume,
            Err(_) => TrapEnd::KernelFault,
        }
    } else {
        syscall::dispatch(k, frame);
        TrapEnd::Resume
    }
}

/// Handle a trap with cause `scause`. The context in `frame` is the one to
/// resume afterwards.
pub fn trap_handler(k: &mut Kernel, frame: &mut TrapFrame, scause: u64, d: Devices) -> (r: TrapEnd)
    requires
        old(k).wf(),
    ensures
        final(k).wf(),
        (final(k)@, *final(frame), r) == trapped(old(k)@, *old(frame), scause, d),
{
    k.trap_count = k.trap_count.wrapping_add(1);
    if scause & INTERRUPT_BIT != 0 {
        if scause == INTERRUPT_SUPERVISOR_TIMER {
            sched::on_timer(k, frame);
            return TrapEnd::ArmTimer;
        }
        if scause == INTERRUPT_SUPERVISOR_EXTERNAL {
            return if irq::handle_external(k, frame, d.irq, d.rx) {
                TrapEnd::CompleteIrq(d.irq)
            } else {
                TrapEnd::Resume
            };
        }
        return TrapEnd::UnknownInterrupt(scause & !INTERRUPT_BIT);
    }
    if scause == CAUSE_ECALL_U || scause == CAUSE_ECALL_S {
        return serve_call(k, frame, d.input);
    }
    if scause == CAUSE_BREAKPOINT {
        let len: u64 = if d.instr & 3 == 3 {
            4
        } else {
            2
        };
        frame.sepc = frame.sepc.wrapping_add(len);
        return TrapEnd::Resume;
    }
    TrapEnd::UnknownException
}

/// Handling a trap depends on the hardware only where `needed` says so.
pub proof fn law_only_needed_input_matters(
    s: State,
    f: TrapFrame,
    scause: u64,
    d: Devices,
    e: Devices,
)
    requires
        need_of(s, f, scause) == Needed::Interrupt ==> d.irq == e.irq && d.rx == e.rx,
        need_of(s, f, scause) == Needed::Byte ==> d.input == e.input,
        need_of(s, f, scause) == Needed::Instruction ==> d.instr == e.instr,
    ensures
        trapped(s, f, scause, d) == trapped(s, f, scause, e),
{
    if scause == CAUSE_ECALL_U || scause == CAUSE_ECALL_S {
        let s0 = State { trap_count: s.trap_count.wrapping_add(1), ..s };
        let f1 = TrapFrame { sepc: f.sepc.wrapping_add(4), ..f };
        if is_linux(s) && need_of(s, f, scause) != Needed::Byte {
            linux_compat::law_input_matters_only_where_wanted(s0, f1, d.input, e.input);
        }
    }
}

proof fn lemma_cause_bits()
    ensures
        3u64 & INTERRUPT_BIT == 0,
        8u64 & INTERRUPT_BIT == 0,
        9u64 & INTERRUPT_BIT == 0,
        0x8000_0000_0000_0005u64 & INTERRUPT_BIT != 0,
        0x8000_0000_0000_0009u64 & INTERRUPT_BIT != 0,
{
    assert(3u64 & 0x8000_0000_0000_0000 == 0 && 8u64 & 0x8000_0000_0000_0000 == 0 && 9u64
        & 0x8000_0000_0000_0000 == 0 && 0x8000_0000_0000_0005u64 & 0x8000_0000_0000_0000 != 0
        && 0x8000_0000_0000_0009u64 & 0x8000_0000_0000_0000 != 0) by (bit_vector);
}

/// A breakpoint goes on behind its instruction: four bytes on where its two low
/// bits are set, else two. It changes nothing else but the number of traps.
pub proof fn law_breakpoint_skipped(s: State, f: TrapFrame, d: Devices)
    ensures
        trapped(s, f, 3, d) == (
            State { trap_count: s.trap_count.wrapping_add(1), ..s },
            TrapFrame {
                sepc: f.sepc.wrapping_add(
                    if d.instr & 3 == 3 {
                        4
                    } else {
                        2
                    },
                ),
                ..f
            },
            TrapEnd::Resume,
        ),
{
    lemma_cause_bits();
}

/// A timer interrupt is a tick of the scheduler, and the timer is armed again; an
/// interrupt of a device is completed with its own number.
pub proof fn law_interrupts_served(s: State, f: TrapFrame, d: Devices)
    ensures
        ({
            let s0 = State { trap_count: s.trap_count.wrapping_add(1), ..s };
            let (s1, f1) = sched::ticked(s0, f);
            trapped(s, f, 0x8000_0000_0000_0005, d) == (s1, f1, TrapEnd::ArmTimer)
        }),
        d.irq != 0 ==> trapped(s, f, 0x8000_0000_0000_0009, d).2 == TrapEnd::CompleteIrq(d.irq),
{
    lemma_cause_bits();
}

/// A system call of a native thread goes to the native calls, one of a Linux
/// thread to the Linux calls.
pub proof fn law_call_by_kind(s: State, f: TrapFrame, d: Devices, scause: u64)
    requires
        scause == 8 || scause == 9,
    ensures
        ({
            let s0 = State { trap_count: s.trap_count.wrapping_add(1), ..s };
            let f1 = TrapFrame { sepc: f.sepc.wrapping_add(4), ..f };
            let got = trapped(s, f, scause, d);
            let cur = sched::current(s);
            &&& cur != 0 && kernel::tcb(s, cur).linux_compat ==> (got.0, got.1) == (
                linux_compat::dispatched(s0, f1, d.input).0,
                linux_compat::dispatched(s0, f1, d.input).1,
            )
            &&& cur != 0 && !kernel::tcb(s, cur).linux_compat ==> (got.0, got.1)
                == syscall::dispatched(s0, f1)
        }),
{
    lemma_cause_bits();
}

} // verus!
