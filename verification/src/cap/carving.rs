//! What retyping makes: objects that lie one after the other in their region,
//! zeroed, each named by a capability in its slot.
use crate::cap::cnode;
use crate::cap::untyped::{self, UntypedHeader, OBJECT_LIMIT};
use crate::cap::{self, Cap, CapType, CAP_BYTES};
use crate::kernel::{self, State};
use crate::mm::buddy::PA_LIMIT;
use crate::objects;
use crate::syscall::error;
use vstd::prelude::*;

verus! {

/// `n` objects fit in what is left of the region.
pub open spec fn fits(h: UntypedHeader, size: u64, align: u64, n: nat) -> bool
    decreases n,
{
    n == 0 || untyped::bumped(h, size, align).1 is Some && fits(
        untyped::bumped(h, size, align).0,
        size,
        align,
        (n - 1) as nat,
    )
}

/// Where object `i` goes.
pub open spec fn place(h: UntypedHeader, size: u64, align: u64, i: nat) -> u64
    decreases i,
{
    if i == 0 {
        untyped::rounded(h.watermark, align)
    } else {
        place(untyped::bumped(h, size, align).0, size, align, (i - 1) as nat)
    }
}

/// The region after `n` objects.
pub open spec fn header_after(h: UntypedHeader, size: u64, align: u64, n: nat) -> UntypedHeader
    decreases n,
{
    if n == 0 {
        h
    } else {
        header_after(untyped::bumped(h, size, align).0, size, align, (n - 1) as nat)
    }
}

/// A power of two.
pub open spec fn is_power(p: u64) -> bool {
    p != 0 && p & ((p - 1) as u64) == 0
}

/// The search for a power of two finds the least that is large enough.
proof fn lemma_power(n: u64, p: u64)
    requires
        0 < n <= 0x8000_0000_0000_0000,
        is_power(p),
        p == 1 || p / 2 < n,
    ensures
        ({
            let r = untyped::pow2_from(n, p);
            is_power(r) && r >= n && (r == 1 || r / 2 < n)
        }),
    decreases u64::MAX - p,
{
    if p < n {
        assert(p < 0x8000_0000_0000_0000 ==> p <= 0x4000_0000_0000_0000) by (bit_vector)
            requires
                p & ((p - 1) as u64) == 0,
                p != 0,
        ;
        let q = (2 * p) as u64;
        assert(q & ((q - 1) as u64) == 0) by (bit_vector)
            requires
                p & ((p - 1) as u64) == 0,
                p != 0,
                p <= 0x4000_0000_0000_0000,
                q == 2 * p,
        ;
        lemma_power(n, q);
    }
}

/// The alignment of an object is the least power of two that is at least its
/// size, and 8 for a type without a size.
pub proof fn law_alignment_least_power(cap_type: CapType, size_bits: u64)
    requires
        untyped::size_of_object(cap_type, size_bits) <= 0x8000_0000_0000_0000,
    ensures
        ({
            let n = untyped::size_of_object(cap_type, size_bits);
            let r = untyped::align_of_object(cap_type, size_bits);
            &&& n == 0 ==> r == 8
            &&& n > 0 ==> is_power(r) && r >= n
            &&& n > 0 ==> forall|p: u64| #[trigger] is_power(p) && p >= n ==> r <= p
        }),
{
    let n = untyped::size_of_object(cap_type, size_bits);
    let r = untyped::align_of_object(cap_type, size_bits);
    if n > 0 {
        assert(1u64 & 0 == 0) by (bit_vector);
        lemma_power(n, 1);
        assert forall|p: u64| #[trigger] is_power(p) && p >= n implies r <= p by {
            if p < r {
                assert(p <= r / 2) by (bit_vector)
                    requires
                        p < r,
                        p != 0,
                        p & ((p - 1) as u64) == 0,
                        r & ((r - 1) as u64) == 0,
                ;
            }
        }
    }
}

/// The objects lie in the region one after the other, each aligned.
proof fn lemma_places(h: UntypedHeader, size: u64, align: u64, n: nat)
    requires
        1 <= align <= OBJECT_LIMIT,
        h.watermark <= PA_LIMIT,
        h.end <= PA_LIMIT,
        fits(h, size, align, n),
    ensures
        header_after(h, size, align, n).end == h.end,
        header_after(h, size, align, n).watermark == (if n == 0 {
            h.watermark as int
        } else {
            place(h, size, align, (n - 1) as nat) + size
        }),
        forall|i: nat|
            i < n ==> h.watermark <= #[trigger] place(h, size, align, i) && place(h, size, align, i)
                + size <= h.end,
        forall|i: nat|
            i < n && is_power(align) ==> #[trigger] place(h, size, align, i) & ((align
                - 1) as u64) == 0,
        forall|i: nat, j: nat|
            i < j < n ==> #[trigger] place(h, size, align, i) + size <= #[trigger] place(
                h,
                size,
                align,
                j,
            ),
    decreases n,
{
    if n > 0 {
        let h1 = untyped::bumped(h, size, align).0;
        let m = (n - 1) as nat;
        untyped::law_rounding_aligns(h.watermark, align);
        lemma_places(h1, size, align, m);
        assert forall|i: nat| i < n implies h.watermark <= #[trigger] place(h, size, align, i)
            && place(h, size, align, i) + size <= h.end by {
            if i > 0 {
                assert(place(h, size, align, i) == place(h1, size, align, (i - 1) as nat));
            }
        }
        assert forall|i: nat| i < n && is_power(align) implies #[trigger] place(h, size, align, i)
            & ((align - 1) as u64) == 0 by {
            if i > 0 {
                assert(place(h, size, align, i) == place(h1, size, align, (i - 1) as nat));
            }
        }
        assert forall|i: nat, j: nat| i < j < n implies #[trigger] place(h, size, align, i) + size
            <= #[trigger] place(h, size, align, j) by {
            assert(place(h, size, align, j) == place(h1, size, align, (j - 1) as nat));
            if i > 0 {
                assert(place(h, size, align, i) == place(h1, size, align, (i - 1) as nat));
            }
        }
        if m > 0 {
            assert(place(h, size, align, m) == place(h1, size, align, (m - 1) as nat));
        }
    }
}

/// The capability of object `i`.
pub open spec fn object_cap(cap_type: CapType, size_bits: u64, pa: u64) -> Cap {
    Cap {
        cap_type,
        rights: cap::all_rights(),
        ptr: pa,
        extra: untyped::fresh_extra(cap_type, size_bits),
    }
}

/// Slots from `from` up to `to` are in range and empty, and no slot of the CNode
/// wraps around.
pub open spec fn slots_free(
    caps: Map<u64, Cap>,
    cnode_pa: u64,
    cnode_sb: u64,
    from: int,
    to: int,
) -> bool {
    &&& cnode_pa + cnode::slot_count(cnode_sb) * CAP_BYTES <= u64::MAX
    &&& 0 <= from
    &&& to <= cnode::slot_count(cnode_sb)
    &&& forall|j: int|
        from <= j < to ==> (#[trigger] cnode::slot(caps, cnode_pa, j as u64)).cap_type is Null
}

/// What is left of the region holds neither its header nor slots of the CNode.
pub open spec fn region_apart(
    h: UntypedHeader,
    ut_pa: u64,
    cnode_pa: u64,
    cnode_sb: u64,
) -> bool {
    &&& !(h.watermark <= ut_pa < h.end)
    &&& forall|j: int|
        0 <= j < cnode::slot_count(cnode_sb) ==> !(h.watermark <= #[trigger] cnode::slot_addr(
            cnode_pa,
            j as u64,
        ) < h.end)
}

/// Slots of a CNode that does not wrap around have addresses of their own.
proof fn lemma_slot_addr(cnode_pa: u64, cnode_sb: u64, i: int, j: int)
    requires
        cnode_pa + cnode::slot_count(cnode_sb) * CAP_BYTES <= u64::MAX,
        0 <= i < cnode::slot_count(cnode_sb),
        0 <= j < cnode::slot_count(cnode_sb),
    ensures
        cnode::slot_addr(cnode_pa, i as u64) == cnode_pa + 24 * i,
        cnode::slot_addr(cnode_pa, i as u64) == cnode::slot_addr(cnode_pa, j as u64) ==> i == j,
{
}

/// Carving from object `i` on.
proof fn lemma_carved(
    s: State,
    ut_pa: u64,
    cap_type: CapType,
    size_bits: u64,
    cnode_pa: u64,
    cnode_sb: u64,
    slot: u64,
    i: nat,
    count: nat,
)
    requires
        i <= count,
        1 <= untyped::align_of_object(cap_type, size_bits) <= OBJECT_LIMIT,
        ({
            let h = objects::at(s.untypeds, ut_pa);
            let size = untyped::size_of_object(cap_type, size_bits);
            let align = untyped::align_of_object(cap_type, size_bits);
            &&& h.watermark <= PA_LIMIT
            &&& h.end <= PA_LIMIT
            &&& fits(h, size, align, (count - i) as nat)
            &&& region_apart(h, ut_pa, cnode_pa, cnode_sb)
        }),
        slots_free(s.caps, cnode_pa, cnode_sb, slot + i, slot + count),
    ensures
        ({
            let h = objects::at(s.untypeds, ut_pa);
            let size = untyped::size_of_object(cap_type, size_bits);
            let align = untyped::align_of_object(cap_type, size_bits);
            let n = (count - i) as nat;
            let (s1, r) = untyped::carved(
                s,
                ut_pa,
                cap_type,
                size_bits,
                cnode_pa,
                cnode_sb,
                slot,
                i,
                count,
            );
            &&& r == error::OK
            &&& objects::at(s1.untypeds, ut_pa) == header_after(h, size, align, n)
            &&& forall|j: nat|
                j < n ==> cnode::slot(s1.caps, cnode_pa, (slot + i + j) as u64) == object_cap(
                    cap_type,
                    size_bits,
                    #[trigger] place(h, size, align, j),
                )
            &&& forall|j: int|
                0 <= j < cnode::slot_count(cnode_sb) && !(slot + i <= j < slot + count)
                    ==> #[trigger] cnode::slot(s1.caps, cnode_pa, j as u64) == cnode::slot(
                    s.caps,
                    cnode_pa,
                    j as u64,
                )
            &&& forall|a: u64|
                !(h.watermark <= a < h.end) ==> #[trigger] objects::at(s1.bytes, a) == objects::at(
                    s.bytes,
                    a,
                )
            &&& forall|a: u64|
                objects::at(s.bytes, a) == 0 ==> #[trigger] objects::at(s1.bytes, a) == 0
            &&& forall|j: nat, a: u64|
                #![trigger place(h, size, align, j), objects::at(s1.bytes, a)]
                j < n && place(h, size, align, j) <= a < place(h, size, align, j) + size
                    ==> objects::at(s1.bytes, a) == 0
        }),
    decreases count - i,
{
    if i < count {
        let h = objects::at(s.untypeds, ut_pa);
        let size = untyped::size_of_object(cap_type, size_bits);
        let align = untyped::align_of_object(cap_type, size_bits);
        let n = (count - i) as nat;
        let m = (n - 1) as nat;
        let (h1, at) = untyped::bumped(h, size, align);
        let pa = at->0;
        untyped::law_rounding_aligns(h.watermark, align);
        let s1 = State { untypeds: s.untypeds.insert(ut_pa, h1), ..s };
        let s2 = kernel::zeroed_range(s1, pa as int, pa + size);
        let here = slot + i;
        assert forall|j: int| 0 <= j < cnode::slot_count(cnode_sb) implies #[trigger] cnode::slot(
            s2.caps,
            cnode_pa,
            j as u64,
        ) == cnode::slot(s.caps, cnode_pa, j as u64) by {
            assert(!(h.watermark <= cnode::slot_addr(cnode_pa, j as u64) < h.end));
        }
        let new = object_cap(cap_type, size_bits, pa);
        assert(cnode::slot(s2.caps, cnode_pa, here as u64) == cnode::slot(
            s.caps,
            cnode_pa,
            here as u64,
        ));
        let caps = s2.caps.insert(cnode::slot_addr(cnode_pa, here as u64), new);
        let s3 = State { caps, ..s2 };
        assert(untyped::carved(
            s,
            ut_pa,
            cap_type,
            size_bits,
            cnode_pa,
            cnode_sb,
            slot,
            i,
            count,
        ) == untyped::carved(
            s3,
            ut_pa,
            cap_type,
            size_bits,
            cnode_pa,
            cnode_sb,
            slot,
            i + 1,
            count,
        ));
        assert(objects::at(s3.untypeds, ut_pa) == h1);
        assert forall|j: int|
            0 <= j < cnode::slot_count(cnode_sb) && j != here implies #[trigger] cnode::slot(
            s3.caps,
            cnode_pa,
            j as u64,
        ) == cnode::slot(s.caps, cnode_pa, j as u64) by {
            lemma_slot_addr(cnode_pa, cnode_sb, j, here);
            assert(cnode::slot(s2.caps, cnode_pa, j as u64) == cnode::slot(
                s.caps,
                cnode_pa,
                j as u64,
            ));
        }
        lemma_carved(
            s3,
            ut_pa,
            cap_type,
            size_bits,
            cnode_pa,
            cnode_sb,
            slot,
            i + 1,
            count,
        );
        let last = untyped::carved(
            s3,
            ut_pa,
            cap_type,
            size_bits,
            cnode_pa,
            cnode_sb,
            slot,
            i + 1,
            count,
        ).0;
        assert(cnode::slot(s3.caps, cnode_pa, here as u64) == new);
        assert(cnode::slot(last.caps, cnode_pa, here as u64) == new);
        assert forall|j: nat| j < n implies cnode::slot(
            last.caps,
            cnode_pa,
            (slot + i + j) as u64,
        ) == object_cap(cap_type, size_bits, #[trigger] place(h, size, align, j)) by {
            if j > 0 {
                assert(place(h, size, align, j) == place(h1, size, align, (j - 1) as nat));
                assert(slot + i + j == slot + (i + 1) + (j - 1));
            }
        }
        assert forall|j: int|
            0 <= j < cnode::slot_count(cnode_sb) && !(slot + i <= j < slot
                + count) implies #[trigger] cnode::slot(last.caps, cnode_pa, j as u64)
            == cnode::slot(s.caps, cnode_pa, j as u64) by {
            assert(cnode::slot(s3.caps, cnode_pa, j as u64) == cnode::slot(
                s.caps,
                cnode_pa,
                j as u64,
            ));
        }
        assert forall|a: u64| !(h.watermark <= a < h.end) implies #[trigger] objects::at(
            last.bytes,
            a,
        ) == objects::at(s.bytes, a) by {
            assert(objects::at(s3.bytes, a) == objects::at(s.bytes, a));
        }
        assert forall|a: u64| objects::at(s.bytes, a) == 0 implies #[trigger] objects::at(
            last.bytes,
            a,
        ) == 0 by {
            assert(objects::at(s3.bytes, a) == 0);
        }
        assert forall|j: nat, a: u64|
            #![trigger place(h, size, align, j), objects::at(last.bytes, a)]
            j < n && place(h, size, align, j) <= a < place(h, size, align, j)
                + size implies objects::at(last.bytes, a) == 0 by {
            if j == 0 {
                assert(objects::at(s3.bytes, a) == 0);
            } else {
                assert(place(h, size, align, j) == place(h1, size, align, (j - 1) as nat));
            }
        }
    }
}

/// Retyping makes all objects where they fit and their slots are free: the call
/// is answered OK; each object is aligned, zeroed and named by a capability with
/// all rights in its slot; the objects do not overlap and lie in what was left
/// of the region, which goes on after the last of them; every other slot is as
/// it was.
pub proof fn law_retype_makes_all(
    s: State,
    ut_pa: u64,
    cap_type: CapType,
    size_bits: u64,
    cnode_pa: u64,
    cnode_sb: u64,
    slot: u64,
    count: u64,
)
    requires
        untyped::is_sized(cap_type) ==> size_bits < 64,
        ({
            let h = objects::at(s.untypeds, ut_pa);
            let size = untyped::size_of_object(cap_type, size_bits);
            let align = untyped::align_of_object(cap_type, size_bits);
            &&& 0 < size <= OBJECT_LIMIT
            &&& h.watermark <= PA_LIMIT
            &&& h.end <= PA_LIMIT
            &&& fits(h, size, align, count as nat)
            &&& region_apart(h, ut_pa, cnode_pa, cnode_sb)
        }),
        slots_free(s.caps, cnode_pa, cnode_sb, slot as int, slot + count),
    ensures
        ({
            let h = objects::at(s.untypeds, ut_pa);
            let size = untyped::size_of_object(cap_type, size_bits);
            let align = untyped::align_of_object(cap_type, size_bits);
            let (s1, r) = untyped::retyped(
                s,
                ut_pa,
                cap_type,
                size_bits,
                cnode_pa,
                cnode_sb,
                slot,
                count,
            );
            &&& r == error::OK
            &&& forall|i: nat|
                i < count ==> cnode::slot(s1.caps, cnode_pa, (slot + i) as u64) == object_cap(
                    cap_type,
                    size_bits,
                    #[trigger] place(h, size, align, i),
                )
            &&& forall|i: nat|
                i < count ==> h.watermark <= #[trigger] place(h, size, align, i) && place(
                    h,
                    size,
                    align,
                    i,
                ) + size <= h.end && place(h, size, align, i) & ((align - 1) as u64) == 0
            &&& forall|i: nat, j: nat|
                i < j < count ==> #[trigger] place(h, size, align, i) + size <= #[trigger] place(
                    h,
                    size,
                    align,
                    j,
                )
            &&& forall|i: nat, a: u64|
                #![trigger place(h, size, align, i), objects::at(s1.bytes, a)]
                i < count && place(h, size, align, i) <= a < place(h, size, align, i) + size
                    ==> objects::at(s1.bytes, a) == 0
            &&& count > 0 ==> objects::at(s1.untypeds, ut_pa) == (UntypedHeader {
                watermark: (place(h, size, align, (count - 1) as nat) + size) as u64,
                ..h
            })
            &&& forall|j: int|
                0 <= j < cnode::slot_count(cnode_sb) && !(slot <= j < slot + count)
                    ==> #[trigger] cnode::slot(s1.caps, cnode_pa, j as u64) == cnode::slot(
                    s.caps,
                    cnode_pa,
                    j as u64,
                )
        }),
{
    let h = objects::at(s.untypeds, ut_pa);
    let size = untyped::size_of_object(cap_type, size_bits);
    let align = untyped::align_of_object(cap_type, size_bits);
    law_alignment_least_power(cap_type, size_bits);
    assert(is_power(0x4000_0000_0000_0000u64)) by (bit_vector);
    lemma_places(h, size, align, count as nat);
    lemma_header_start(h, size, align, count as nat);
    lemma_carved(s, ut_pa, cap_type, size_bits, cnode_pa, cnode_sb, slot, 0, count as nat);
}

/// Carving leaves the start of a region.
proof fn lemma_header_start(h: UntypedHeader, size: u64, align: u64, n: nat)
    ensures
        header_after(h, size, align, n).start == h.start,
    decreases n,
{
    if n > 0 {
        lemma_header_start(untyped::bumped(h, size, align).0, size, align, (n - 1) as nat);
    }
}

} // verus!
