//! Untyped memory: raw physical memory that can be retyped into kernel objects.
//!
//! An untyped capability gives authority over a contiguous region. A header at
//! its start holds a bump pointer, so that successive retypes carve out areas
//! that do not overlap.
use crate::cap::cnode;
use crate::cap::endpoint::ENDPOINT_BYTES;
use crate::cap::notification::NOTIFICATION_BYTES;
use crate::cap::{self, Cap, CapType, Rights, CAP_BYTES};
use crate::kernel::{self, Kernel, State};
use crate::mm::buddy::PAGE_SIZE;
use crate::objects::{self, Zeroed};
use crate::syscall::error;
use vstd::prelude::*;

verus! {

#[derive(Clone, Copy)]
pub struct UntypedHeader {
    pub start: u64,
    pub end: u64,
    /// Next free byte.
    pub watermark: u64,
}

impl Zeroed for UntypedHeader {
    open spec fn zeroed() -> UntypedHeader {
        UntypedHeader { start: 0, end: 0, watermark: 0 }
    }

    fn zero() -> (r: UntypedHeader) {
        UntypedHeader { start: 0, end: 0, watermark: 0 }
    }
}

/// `w` rounded up with the alignment mask `align - 1`.
pub open spec fn rounded(w: u64, align: u64) -> u64 {
    ((w + align - 1) as u64) & !((align - 1) as u64)
}

/// Carving `size` bytes off a region.
pub open spec fn bumped(h: UntypedHeader, size: u64, align: u64) -> (UntypedHeader, Option<u64>) {
    let pa = rounded(h.watermark, align);
    if pa + size > h.end {
        (h, None)
    } else {
        (UntypedHeader { watermark: (pa + size) as u64, ..h }, Some(pa))
    }
}

impl UntypedHeader {
    /// Allocate `size` bytes with `align`-byte alignment.
    pub fn bump(&mut self, size: u64, align: u64) -> (r: Option<u64>)
        requires
            align >= 1,
            old(self).watermark + align <= u64::MAX,
            rounded(old(self).watermark, align) + size <= u64::MAX,
        ensures
            (*final(self), r) == bumped(*old(self), size, align),
    {
        let aligned: u64 = (self.watermark + align - 1) & !(align - 1);
        if aligned + size > self.end {
            return None;
        }
        self.watermark = aligned + size;
        Some(aligned)
    }

    /// Bytes left in the region.
    pub fn free_bytes(&self) -> (r: u64)
        ensures
            r == (if self.end > self.watermark {
                self.end - self.watermark
            } else {
                0
            }),
    {
        self.end.saturating_sub(self.watermark)
    }
}

proof fn lemma_rounded(w: u64, align: u64)
    requires
        1 <= align <= 0x4000_0000_0000_0000,
        w <= 0x100_0000_0000_0000,
    ensures
        rounded(w, align) <= w + align - 1,
{
    let x = (w + align - 1) as u64;
    let m = (align - 1) as u64;
    assert(x & !m <= x) by (bit_vector);
}

/// Rounding never goes down, and up by less than the alignment. For a power of
/// two it finds the first multiple from `w` on.
pub proof fn law_rounding_aligns(w: u64, align: u64)
    requires
        align >= 1,
        w + align - 1 <= u64::MAX,
    ensures
        w <= rounded(w, align) < w + align,
        align & ((align - 1) as u64) == 0 ==> rounded(w, align) & ((align - 1) as u64) == 0,
{
    let m = (align - 1) as u64;
    let x = (w + m) as u64;
    assert((x & !m) & m == 0 && x - m <= (x & !m) <= x) by (bit_vector)
        requires
            x >= m,
    ;
}

/// Objects carved from one region never overlap and stay inside it.
pub proof fn law_bumps_disjoint(h: UntypedHeader, size1: u64, align1: u64, size2: u64, align2: u64)
    requires
        align1 >= 1,
        align2 >= 1,
        h.watermark + align1 - 1 <= u64::MAX,
        bumped(h, size1, align1).0.watermark + align2 - 1 <= u64::MAX,
        bumped(h, size1, align1).1 is Some,
        bumped(bumped(h, size1, align1).0, size2, align2).1 is Some,
    ensures
        ({
            let (h1, p1) = bumped(h, size1, align1);
            let (h2, p2) = bumped(h1, size2, align2);
            &&& h.watermark <= p1->0
            &&& p1->0 + size1 <= p2->0
            &&& p2->0 + size2 <= h.end
            &&& h1.watermark <= h2.watermark
        }),
{
    law_rounding_aligns(h.watermark, align1);
    law_rounding_aligns(bumped(h, size1, align1).0.watermark, align2);
}

/// Bytes of one object of a type; 0 for types that cannot be made from memory.
pub open spec fn size_of_object(cap_type: CapType, size_bits: u64) -> u64 {
    match cap_type {
        CapType::CNode => CAP_BYTES << size_bits,
        CapType::Frame => PAGE_SIZE << size_bits,
        CapType::Thread => 8192,
        CapType::PageTable => PAGE_SIZE,
        CapType::Endpoint => ENDPOINT_BYTES,
        CapType::Notification => NOTIFICATION_BYTES,
        _ => 0,
    }
}

/// Only the sizes of CNodes and frames depend on the size parameter.
pub open spec fn is_sized(cap_type: CapType) -> bool {
    cap_type is CNode || cap_type is Frame
}

/// Bytes required to store one object of `cap_type` with parameter `size_bits`.
pub fn object_size(cap_type: CapType, size_bits: u64) -> (r: u64)
    requires
        is_sized(cap_type) ==> size_bits < 64,
    ensures
        r == size_of_object(cap_type, size_bits),
{
    match cap_type {
        CapType::CNode => CAP_BYTES << size_bits,
        CapType::Frame => PAGE_SIZE << size_bits,
        CapType::Thread => 8192,
        CapType::PageTable => PAGE_SIZE,
        CapType::Endpoint => ENDPOINT_BYTES,
        CapType::Notification => NOTIFICATION_BYTES,
        _ => 0,
    }
}

/// The first power of two from `p` on that is at least `n`.
pub open spec fn pow2_from(n: u64, p: u64) -> u64
    decreases u64::MAX - p,
{
    if p >= n || p == 0 || p > 0x4000_0000_0000_0000 {
        p
    } else {
        pow2_from(n, (2 * p) as u64)
    }
}

/// Alignment of one object: its size rounded up to a power of two.
pub open spec fn align_of_object(cap_type: CapType, size_bits: u64) -> u64 {
    let size = size_of_object(cap_type, size_bits);
    if size == 0 {
        8
    } else {
        pow2_from(size, 1)
    }
}

/// Required alignment for one object of `cap_type` with `size_bits`.
pub fn object_align(cap_type: CapType, size_bits: u64) -> (r: u64)
    requires
        is_sized(cap_type) ==> size_bits < 64,
        size_of_object(cap_type, size_bits) <= 0x8000_0000_0000_0000,
    ensures
        r == align_of_object(cap_type, size_bits),
        r >= 1,
        size_of_object(cap_type, size_bits) <= 0x4000_0000_0000_0000 ==> r
            <= 0x4000_0000_0000_0000,
{
    let size: u64 = object_size(cap_type, size_bits);
    if size == 0 {
        return 8;
    }
    let mut p: u64 = 1;
    assert(1u64 << 0u64 == 1u64) by (bit_vector);
    while p < size
        invariant
            1 <= p <= 0x8000_0000_0000_0000,
            p > 0x4000_0000_0000_0000 ==> p == 0x8000_0000_0000_0000,
            exists|b: u64| b < 64 && p == 1u64 << b,
            size <= 0x8000_0000_0000_0000,
            size <= 0x4000_0000_0000_0000 ==> p <= 0x4000_0000_0000_0000,
            pow2_from(size, p) == pow2_from(size, 1),
        decreases 0x8000_0000_0000_0000 - p,
    {
        proof {
            let b = choose|b: u64| b < 64 && p == 1u64 << b;
            assert(b < 63 && (1u64 << ((b + 1) as u64)) == 2 * p && p <= 0x4000_0000_0000_0000 && (
            p < 0x4000_0000_0000_0000 ==> p <= 0x2000_0000_0000_0000)) by (bit_vector)
                requires
                    b < 64,
                    p == 1u64 << b,
                    p < 0x8000_0000_0000_0000,
            ;
            assert(((b + 1) as u64) < 64 && 2 * p == 1u64 << ((b + 1) as u64));
        }
        p = p * 2;
    }
    p
}

/// What a fresh capability holds beside its object: for a frame its size in
/// bytes, for everything else the size parameter.
pub open spec fn fresh_extra(cap_type: CapType, size_bits: u64) -> u64 {
    match cap_type {
        CapType::Frame => size_of_object(cap_type, size_bits),
        _ => size_bits,
    }
}

/// Largest object that is looked for; no region holds a larger one.
pub const OBJECT_LIMIT: u64 = 0x4000_0000_0000_0000;

/// Carving objects `i` up to `count` into consecutive slots.
pub open spec fn carved(
    s: State,
    ut_pa: u64,
    cap_type: CapType,
    size_bits: u64,
    cnode_pa: u64,
    cnode_sb: u64,
    slot: u64,
    i: nat,
    count: nat,
) -> (State, u64)
    decreases count - i,
{
    if i >= count {
        (s, error::OK)
    } else {
        let size = size_of_object(cap_type, size_bits);
        let (h, at) = bumped(
            objects::at(s.untypeds, ut_pa),
            size,
            align_of_object(cap_type, size_bits),
        );
        match at {
            None => (s, error::NOT_ENOUGH_MEMORY),
            Some(pa) => {
                let s1 = State { untypeds: s.untypeds.insert(ut_pa, h), ..s };
                let s2 = kernel::zeroed_range(s1, pa as int, pa + size);
                let new = Cap {
                    cap_type,
                    rights: cap::all_rights(),
                    ptr: pa,
                    extra: fresh_extra(cap_type, size_bits),
                };
                let (caps, r) = cnode::inserted(
                    s2.caps,
                    cnode_pa,
                    cnode_sb,
                    (slot + i) as u64,
                    new,
                );
                if r is Err {
                    (s2, error::ILLEGAL_OPERATION)
                } else {
                    carved(
                        State { caps, ..s2 },
                        ut_pa,
                        cap_type,
                        size_bits,
                        cnode_pa,
                        cnode_sb,
                        slot,
                        i + 1,
                        count,
                    )
                }
            },
        }
    }
}

/// Retyping: objects of a type that has a size are carved one by one until one
/// does not fit or its slot is taken.
pub open spec fn retyped(
    s: State,
    ut_pa: u64,
    cap_type: CapType,
    size_bits: u64,
    cnode_pa: u64,
    cnode_sb: u64,
    slot: u64,
    count: u64,
) -> (State, u64) {
    let size = size_of_object(cap_type, size_bits);
    if is_sized(cap_type) && size_bits >= 64 || size == 0 {
        (s, error::INVALID_ARGUMENT)
    } else if size > OBJECT_LIMIT && count > 0 {
        (s, error::NOT_ENOUGH_MEMORY)
    } else {
        carved(s, ut_pa, cap_type, size_bits, cnode_pa, cnode_sb, slot, 0, count as nat)
    }
}

/// A retyped object is named by a capability with all rights in its slot: a frame
/// by its size in bytes, everything else by its size parameter.
pub proof fn law_retyped_cap(
    s: State,
    ut_pa: u64,
    cap_type: CapType,
    size_bits: u64,
    cnode_pa: u64,
    cnode_sb: u64,
    slot: u64,
)
    requires
        retyped(s, ut_pa, cap_type, size_bits, cnode_pa, cnode_sb, slot, 1).1 == error::OK,
    ensures
        ({
            let s1 = retyped(s, ut_pa, cap_type, size_bits, cnode_pa, cnode_sb, slot, 1).0;
            let c = cnode::slot(s1.caps, cnode_pa, slot);
            let h = objects::at(s.untypeds, ut_pa);
            let size = size_of_object(cap_type, size_bits);
            &&& c.cap_type == cap_type
            &&& c.rights == cap::all_rights()
            &&& Some(c.ptr) == bumped(h, size, align_of_object(cap_type, size_bits)).1
            &&& c.extra == (if cap_type is Frame {
                size
            } else {
                size_bits
            })
        }),
{
    reveal_with_fuel(carved, 2);
}

/// Carve `count` objects out of the untyped region, inserting capabilities at
/// the CNode slots from `dst_slot` on. Returns an error code.
pub fn retype(
    k: &mut Kernel,
    untyped: &Cap,
    cap_type: CapType,
    size_bits: u64,
    dst_cnode_pa: u64,
    dst_cnode_size_bits: u64,
    dst_slot: u64,
    count: u64,
) -> (r: u64)
    requires
        old(k).wf(),
        dst_cnode_size_bits < 64,
    ensures
        final(k).wf(),
        (final(k)@, r) == retyped(
            old(k)@,
            untyped.ptr,
            cap_type,
            size_bits,
            dst_cnode_pa,
            dst_cnode_size_bits,
            dst_slot,
            count,
        ),
{
    let sized: bool = match cap_type {
        CapType::CNode | CapType::Frame => true,
        _ => false,
    };
    if sized && size_bits >= 64 {
        return error::INVALID_ARGUMENT;
    }
    let obj_sz: u64 = object_size(cap_type, size_bits);
    if obj_sz == 0 {
        return error::INVALID_ARGUMENT;
    }
    if obj_sz > OBJECT_LIMIT {
        return if count > 0 {
            error::NOT_ENOUGH_MEMORY
        } else {
            error::OK
        };
    }
    let obj_aln: u64 = object_align(cap_type, size_bits);
    let ut_pa: u64 = untyped.ptr;
    let mut i: u64 = 0;
    while i < count
        invariant
            k.wf(),
            is_sized(cap_type) ==> size_bits < 64,
            dst_cnode_size_bits < 64,
            i <= count,
            i > 0 ==> dst_slot + i <= u64::MAX,
            0 < obj_sz <= OBJECT_LIMIT,
            1 <= obj_aln <= OBJECT_LIMIT,
            obj_sz == size_of_object(cap_type, size_bits),
            obj_aln == align_of_object(cap_type, size_bits),
            ut_pa == untyped.ptr,
            carved(
                k@,
                ut_pa,
                cap_type,
                size_bits,
                dst_cnode_pa,
                dst_cnode_size_bits,
                dst_slot,
                i as nat,
                count as nat,
            ) == retyped(
                old(k)@,
                ut_pa,
                cap_type,
                size_bits,
                dst_cnode_pa,
                dst_cnode_size_bits,
                dst_slot,
                count,
            ),
        decreases count - i,
    {
        let mut hdr: UntypedHeader = k.untypeds.read(ut_pa);
        proof {
            assert(objects::at(k@.untypeds, ut_pa).watermark <= 0x100_0000_0000_0000);
            lemma_rounded(hdr.watermark, obj_aln);
        }
        let pa: u64 = match hdr.bump(obj_sz, obj_aln) {
            Some(p) => p,
            None => {
                return error::NOT_ENOUGH_MEMORY;
            },
        };
        k.set_untyped(ut_pa, hdr);
        k.zero_range(pa, obj_sz);
        let extra: u64 = match cap_type {
            CapType::Frame => obj_sz,
            _ => size_bits,
        };
        let new: Cap = Cap::new(cap_type, pa, extra, Rights::all());
        let r = cnode::insert(
            &mut k.caps,
            dst_cnode_pa,
            dst_cnode_size_bits,
            dst_slot + i,
            new,
        );
        if r.is_err() {
            return error::ILLEGAL_OPERATION;
        }
        i += 1;
    }
    error::OK
}

} // verus!
