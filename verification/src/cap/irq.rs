//! Interrupt capabilities.
//!
//! An `IRQControl` capability gives authority to mint `IRQHandler`
//! capabilities; an `IRQHandler` capability stands for one interrupt source.
use crate::arch::riscv64::trap::TrapFrame;
use crate::console::{self, CONSOLE_IRQ};
use crate::kernel::{Kernel, State};
use vstd::prelude::*;

verus! {

/// What the claimed interrupt `irq` does, given the byte that the UART received
/// if it has one: the console source delivers its byte and stays enabled; any
/// other source is masked and counted. Source 0 is spurious.
pub open spec fn external_handled(s: State, f: TrapFrame, irq: u64, rx: Option<u8>) -> (
    State,
    TrapFrame,
) {
    if irq == 0 {
        (s, f)
    } else if irq == CONSOLE_IRQ && rx is Some {
        let (s1, f1) = console::byte_received(s, f, rx->0);
        (State { irq_enables: s1.irq_enables.push((irq, true)), ..s1 }, f1)
    } else {
        (
            State {
                irq_enables: s.irq_enables.push((irq, false)),
                irq_count: s.irq_count.wrapping_add(1),
                last_irq: irq,
                ..s
            },
            f,
        )
    }
}

/// Handle the claimed interrupt source `irq`. `rx` is the byte waiting in the
/// UART, read if the source is the console's. Returns whether the claim must be
/// completed, after the enable bits have been written.
pub fn handle_external(k: &mut Kernel, frame: &mut TrapFrame, irq: u64, rx: Option<u8>) -> (r: bool)
    requires
        old(k).wf(),
    ensures
        final(k).wf(),
        r == (irq != 0),
        (final(k)@, *final(frame)) == external_handled(old(k)@, *old(frame), irq, rx),
{
    if irq == 0 {
        return false;
    }
    if irq == CONSOLE_IRQ {
        if let Some(raw) = rx {
            console::rx_irq(k, frame, raw);
            k.irq_enables.push((irq, true));
            return true;
        }
    }
    // Masked before it is completed, so that the controller cannot assert it
    // again while its condition still holds.
    k.irq_enables.push((irq, false));
    k.irq_count = k.irq_count.wrapping_add(1);
    k.last_irq = irq;
    true
}

pub fn irq_count(k: &Kernel) -> (r: u64)
    ensures
        r == k@.irq_count,
{
    k.irq_count
}

pub fn last_irq(k: &Kernel) -> (r: u64)
    ensures
        r == k@.last_irq,
{
    k.last_irq
}

/// Re-enable interrupt source `irq` after its condition is cleared.
pub fn unmask_irq(k: &mut Kernel, irq: u64)
    requires
        old(k).wf(),
    ensures
        final(k).wf(),
        final(k)@ == (State {
            irq_enables: old(k)@.irq_enables.push((irq, true)),
            ..old(k)@
        }),
{
    k.irq_enables.push((irq, true));
}

} // verus!
