//! Platform-level interrupt controller: register addresses and values.
//!
//! Register layout from the base: `priority[n]` at `4 n`; `enable[ctx]` at
//! `0x2000 + 0x80 ctx`, one bit per source; `threshold[ctx]` at
//! `0x20_0000 + 0x1000 ctx`, followed by `claim_complete[ctx]`.
use vstd::prelude::*;

verus! {

pub const PLIC_BASE: u64 = 0x0c00_0000;

/// S-mode context of hart 0.
pub const CTX: u64 = 1;

/// A 32-bit register access.
#[derive(Clone, Copy, Debug, PartialEq, Eq, Structural)]
pub struct RegWrite {
    pub addr: u64,
    pub value: u32,
}

/// Supervisor external interrupts in sie.
pub const SIE_SEIE: u64 = 0x200;

/// Address of the enable word for source `irq`.
pub open spec fn enable_word(irq: int) -> int {
    PLIC_BASE + 0x2080 + (irq / 32) * 4
}

/// Set the priority of source `irq` (0 disables it).
pub fn set_priority(irq: u64, priority: u32) -> (r: RegWrite)
    requires
        PLIC_BASE + irq * 4 <= u64::MAX,
    ensures
        r == (RegWrite { addr: (PLIC_BASE + irq * 4) as u64, value: priority }),
{
    RegWrite { addr: PLIC_BASE + irq * 4, value: priority }
}

/// Address of the word that enables source `irq`.
pub fn enable_addr(irq: u64) -> (r: u64)
    ensures
        r == enable_word(irq as int),
{
    PLIC_BASE + 0x2000 + CTX * 0x80 + (irq / 32) * 4
}

/// Enable or disable source `irq`: the new value of its enable word, whose
/// present value is `word`. Only the bit of the source changes.
pub fn set_enable(irq: u64, enabled: bool, word: u32) -> (r: RegWrite)
    ensures
        r.addr == enable_word(irq as int),
        enabled ==> r.value == word | (1u32 << (irq % 32) as u32),
        !enabled ==> r.value == word & !(1u32 << (irq % 32) as u32),
{
    let bit: u32 = (irq % 32) as u32;
    let value: u32 = if enabled {
        word | (1u32 << bit)
    } else {
        word & !(1u32 << bit)
    };
    RegWrite { addr: enable_addr(irq), value }
}

/// Set the priority threshold; sources at or below it are suppressed.
pub fn set_threshold(threshold: u32) -> (r: RegWrite)
    ensures
        r == (RegWrite { addr: 0x0c20_1000, value: threshold }),
{
    RegWrite { addr: PLIC_BASE + 0x20_0000 + CTX * 0x1000, value: threshold }
}

/// Address to read to claim the highest-priority pending source (0 is none).
pub fn claim() -> (r: u64)
    ensures
        r == 0x0c20_1004,
{
    PLIC_BASE + 0x20_0004 + CTX * 0x1000
}

/// Signal that source `irq` has been handled.
pub fn complete(irq: u64) -> (r: RegWrite)
    ensures
        r == (RegWrite { addr: 0x0c20_1004, value: irq as u32 }),
{
    RegWrite { addr: claim(), value: irq as u32 }
}

/// Initialise the context: the threshold write, and the bits to set in sie.
pub fn init() -> (r: (RegWrite, u64))
    ensures
        r.0 == (RegWrite { addr: 0x0c20_1000, value: 0 }),
        r.1 == SIE_SEIE,
{
    (set_threshold(0), SIE_SEIE)
}

/// Enabling and disabling a source leaves every other source of its word alone,
/// and disabling undoes enabling of a source that was off.
pub proof fn law_enable_is_local(word: u32, bit: u32, other: u32)
    requires
        bit < 32,
        other < 32,
        bit != other,
    ensures
        (word | (1u32 << bit)) & (1u32 << other) == word & (1u32 << other),
        (word & !(1u32 << bit)) & (1u32 << other) == word & (1u32 << other),
        (word | (1u32 << bit)) & (1u32 << bit) != 0,
        (word & !(1u32 << bit)) & (1u32 << bit) == 0,
{
    assert((word | (1u32 << bit)) & (1u32 << other) == word & (1u32 << other) && (word & !(1u32
        << bit)) & (1u32 << other) == word & (1u32 << other) && (word | (1u32 << bit)) & (1u32
        << bit) != 0 && (word & !(1u32 << bit)) & (1u32 << bit) == 0) by (bit_vector)
        requires
            bit < 32,
            other < 32,
            bit != other,
    ;
}

} // verus!
