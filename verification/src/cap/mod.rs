//! Capability model: the core types.
//!
//! A [`Cap`] is a token that authorises operations on one kernel object.
//! Capabilities are stored in CNodes (power-of-two arrays of slots), which are
//! themselves kernel objects described by capabilities.
pub mod carving;
pub mod cnode;
pub mod endpoint;
pub mod grants;
pub mod irq;
pub mod notification;
pub mod rendezvous;
pub mod untyped;

use crate::objects::Zeroed;
use crate::kernel::{Kernel, State};
use vstd::prelude::*;

verus! {

/// Bytes that one capability slot takes.
pub const CAP_BYTES: u64 = 24;

/// Access rights, one bit each.
#[derive(Clone, Copy, Debug, PartialEq, Eq, Structural)]
pub struct Rights(pub u8);

impl Rights {
    pub fn read() -> (r: Rights)
        ensures
            r.0 == 1,
    {
        Rights(1)
    }

    pub fn write() -> (r: Rights)
        ensures
            r.0 == 2,
    {
        Rights(2)
    }

    pub fn grant() -> (r: Rights)
        ensures
            r.0 == 4,
    {
        Rights(4)
    }

    pub fn grant_reply() -> (r: Rights)
        ensures
            r.0 == 8,
    {
        Rights(8)
    }

    pub fn call() -> (r: Rights)
        ensures
            r.0 == 16,
    {
        Rights(16)
    }

    pub fn all() -> (r: Rights)
        ensures
            r == all_rights(),
    {
        Rights(0x1F)
    }

    pub fn none() -> (r: Rights)
        ensures
            r.0 == 0,
    {
        Rights(0)
    }

    pub fn bits(self) -> (r: u8)
        ensures
            r == self.0,
    {
        self.0
    }

    /// Keep the defined right bits of `v` and drop the others.
    pub fn from_bits_truncate(v: u8) -> (r: Rights)
        ensures
            r == truncated(v),
    {
        Rights(v & 0x1F)
    }

    /// Every right of `other` is also in `self`.
    pub fn contains(self, other: Rights) -> (r: bool)
        ensures
            r == includes(self, other),
    {
        (self.0 & other.0) == other.0
    }

}

impl core::ops::BitAnd for Rights {
    type Output = Rights;

    fn bitand(self, rhs: Rights) -> (r: Rights) {
        Rights(self.0 & rhs.0)
    }
}

impl vstd::std_specs::ops::BitAndSpecImpl for Rights {
    open spec fn obeys_bitand_spec() -> bool {
        true
    }

    open spec fn bitand_req(self, rhs: Rights) -> bool {
        true
    }

    open spec fn bitand_spec(self, rhs: Rights) -> Rights {
        common(self, rhs)
    }
}

impl core::ops::BitOr for Rights {
    type Output = Rights;

    fn bitor(self, rhs: Rights) -> (r: Rights) {
        Rights(self.0 | rhs.0)
    }
}

impl vstd::std_specs::ops::BitOrSpecImpl for Rights {
    open spec fn obeys_bitor_spec() -> bool {
        true
    }

    open spec fn bitor_req(self, rhs: Rights) -> bool {
        true
    }

    open spec fn bitor_spec(self, rhs: Rights) -> Rights {
        Rights(self.0 | rhs.0)
    }
}

impl Default for Rights {
    fn default() -> (r: Rights)
        ensures
            r.0 == 0,
    {
        Rights(0)
    }
}

pub open spec fn all_rights() -> Rights {
    Rights(0x1F)
}

pub open spec fn truncated(v: u8) -> Rights {
    Rights(v & 0x1F)
}

pub open spec fn includes(a: Rights, b: Rights) -> bool {
    a.0 & b.0 == b.0
}

pub open spec fn common(a: Rights, b: Rights) -> Rights {
    Rights(a.0 & b.0)
}

/// Masking never adds a right.
pub proof fn law_masking_only_removes(a: Rights, mask: Rights)
    ensures
        includes(a, common(a, mask)),
        includes(mask, common(a, mask)),
{
    let x = a.0;
    let m = mask.0;
    assert(x & (x & m) == x & m && m & (x & m) == x & m) by (bit_vector);
}

/// Inclusion of rights is transitive, so what is derived from a derived set
/// never exceeds the first one.
pub proof fn law_inclusion_transitive(a: Rights, b: Rights, c: Rights)
    requires
        includes(a, b),
        includes(b, c),
    ensures
        includes(a, c),
{
    let x = a.0;
    let y = b.0;
    let z = c.0;
    assert(x & z == z) by (bit_vector)
        requires
            x & y == y,
            y & z == z,
    ;
}

/// Truncation yields defined rights only, and keeps them all.
pub proof fn law_truncation(v: u8)
    ensures
        includes(all_rights(), truncated(v)),
        truncated(truncated(v).0) == truncated(v),
{
    assert(0x1Fu8 & (v & 0x1F) == v & 0x1F && (v & 0x1F) & 0x1F == v & 0x1F) by (bit_vector);
}

/// Kinds of kernel object.
#[derive(Debug, Clone, Copy, PartialEq, Eq, Structural)]
pub enum CapType {
    Null,
    UntypedMemory,
    CNode,
    Thread,
    AddressSpace,
    Endpoint,
    Notification,
    Frame,
    PageTable,
    IRQControl,
    IRQHandler,
}

impl CapType {
    /// The number that stands for the type in registers.
    pub open spec fn code(self) -> u8 {
        match self {
            CapType::Null => 0,
            CapType::UntypedMemory => 1,
            CapType::CNode => 2,
            CapType::Thread => 3,
            CapType::AddressSpace => 4,
            CapType::Endpoint => 5,
            CapType::Notification => 6,
            CapType::Frame => 7,
            CapType::PageTable => 8,
            CapType::IRQControl => 9,
            CapType::IRQHandler => 10,
        }
    }

    pub open spec fn decoded(v: u8) -> Option<CapType> {
        if v == 0 {
            Some(CapType::Null)
        } else if v == 1 {
            Some(CapType::UntypedMemory)
        } else if v == 2 {
            Some(CapType::CNode)
        } else if v == 3 {
            Some(CapType::Thread)
        } else if v == 4 {
            Some(CapType::AddressSpace)
        } else if v == 5 {
            Some(CapType::Endpoint)
        } else if v == 6 {
            Some(CapType::Notification)
        } else if v == 7 {
            Some(CapType::Frame)
        } else if v == 8 {
            Some(CapType::PageTable)
        } else if v == 9 {
            Some(CapType::IRQControl)
        } else if v == 10 {
            Some(CapType::IRQHandler)
        } else {
            None
        }
    }

    pub fn from_u8(v: u8) -> (r: Option<CapType>)
        ensures
            r == CapType::decoded(v),
    {
        Some(
            match v {
                0 => CapType::Null,
                1 => CapType::UntypedMemory,
                2 => CapType::CNode,
                3 => CapType::Thread,
                4 => CapType::AddressSpace,
                5 => CapType::Endpoint,
                6 => CapType::Notification,
                7 => CapType::Frame,
                8 => CapType::PageTable,
                9 => CapType::IRQControl,
                10 => CapType::IRQHandler,
                _ => {
                    return None;
                },
            },
        )
    }

    pub fn to_u8(self) -> (r: u8)
        ensures
            r == self.code(),
    {
        match self {
            CapType::Null => 0,
            CapType::UntypedMemory => 1,
            CapType::CNode => 2,
            CapType::Thread => 3,
            CapType::AddressSpace => 4,
            CapType::Endpoint => 5,
            CapType::Notification => 6,
            CapType::Frame => 7,
            CapType::PageTable => 8,
            CapType::IRQControl => 9,
            CapType::IRQHandler => 10,
        }
    }
}

impl Default for CapType {
    fn default() -> (r: CapType)
        ensures
            r is Null,
    {
        CapType::Null
    }
}

/// Decoding is the exact inverse of encoding.
pub proof fn law_cap_type_codes(t: CapType, v: u8)
    ensures
        CapType::decoded(t.code()) == Some(t),
        CapType::decoded(v) == Some(t) ==> t.code() == v,
        CapType::decoded(v) is None <==> v > 10,
{
}

/// One capability slot.
///
/// `ptr` is the physical address of the kernel object. `extra` is metadata by
/// type: for a CNode the number of slots as a power of two, for a frame its
/// size in bytes.
#[derive(Debug, Clone, Copy, PartialEq, Eq, Structural)]
pub struct Cap {
    pub cap_type: CapType,
    pub rights: Rights,
    pub ptr: u64,
    pub extra: u64,
}

pub open spec fn null_cap() -> Cap {
    Cap { cap_type: CapType::Null, rights: Rights(0), ptr: 0, extra: 0 }
}

impl Zeroed for Cap {
    open spec fn zeroed() -> Cap {
        null_cap()
    }

    fn zero() -> (r: Cap) {
        Cap::null()
    }
}

impl Default for Cap {
    fn default() -> (r: Cap)
        ensures
            r == null_cap(),
    {
        Cap::null()
    }
}

impl Cap {
    pub fn null() -> (r: Cap)
        ensures
            r == null_cap(),
    {
        Cap { cap_type: CapType::Null, rights: Rights(0), ptr: 0, extra: 0 }
    }

    pub fn new(cap_type: CapType, ptr: u64, extra: u64, rights: Rights) -> (r: Cap)
        ensures
            r == (Cap { cap_type, rights, ptr, extra }),
    {
        Cap { cap_type, rights, ptr, extra }
    }

    pub fn is_null(self) -> (r: bool)
        ensures
            r == (self.cap_type is Null),
    {
        match self.cap_type {
            CapType::Null => true,
            _ => false,
        }
    }
}

/// Remember the CNode that threads without a CSpace of their own use.
pub fn set_root_cspace(k: &mut Kernel, pa: u64, size_bits: u64)
    requires
        old(k).wf(),
        size_bits < 64,
    ensures
        final(k).wf(),
        final(k)@ == (State { root_pa: pa, root_sb: size_bits, ..old(k)@ }),
{
    k.root_pa = pa;
    k.root_sb = size_bits;
}

/// The root CSpace: its CNode and its size.
pub fn root_cspace(k: &Kernel) -> (r: (u64, u64))
    ensures
        r == (k@.root_pa, k@.root_sb),
{
    (k.root_pa, k.root_sb)
}

} // verus!
