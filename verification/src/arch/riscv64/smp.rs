//! Starting secondary harts through the SBI hart state management extension.
use vstd::prelude::*;

verus! {

pub const SBI_EXT_HSM: u64 = 0x48534D;

pub const SBI_HSM_HART_START: u64 = 0;

/// Arguments of an SBI call: extension in a7, function in a6, then a0 to a2.
#[derive(Clone, Copy, Debug, PartialEq, Eq, Structural)]
pub struct SbiCall {
    pub ext: u64,
    pub fid: u64,
    pub a0: u64,
    pub a1: u64,
    pub a2: u64,
}

/// The call that starts hart `hartid` at the physical address `start_addr`.
pub fn start_hart(hartid: u64, start_addr: u64) -> (r: SbiCall)
    ensures
        r == (SbiCall {
            ext: SBI_EXT_HSM,
            fid: SBI_HSM_HART_START,
            a0: hartid,
            a1: start_addr,
            a2: 0,
        }),
{
    SbiCall { ext: SBI_EXT_HSM, fid: SBI_HSM_HART_START, a0: hartid, a1: start_addr, a2: 0 }
}

/// The SBI accepted a request.
pub fn accepted(status: i64) -> (r: bool)
    ensures
        r == (status == 0),
{
    status == 0
}

} // verus!
