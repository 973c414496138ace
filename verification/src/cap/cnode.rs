//! CNodes: tables of capability slots.
//!
//! A CNode is a contiguous array of slots. The slot count is `2^size_bits`; the
//! size lives in the capability that refers to the CNode, not in the CNode.
use crate::cap::{self, Cap, Rights, CAP_BYTES};
use crate::kernel::{self, Kernel, State};
use crate::mm::buddy::{self, MAX_ORDER, PAGE_SIZE};
use crate::mm::{self, alloc_pages};
use crate::objects::{self, Objects};
use crate::thread::Tcb;
use vstd::prelude::*;

verus! {

#[derive(Debug, Clone, Copy, PartialEq, Eq, Structural)]
pub enum Error {
    OutOfRange,
    SlotOccupied,
    SlotEmpty,
    InsufficientRights,
    InvalidArgument,
}

/// The size of a CNode that a capability names can be counted.
pub open spec fn cap_ok(c: Cap) -> bool {
    c.cap_type is CNode ==> c.extra < 64
}

pub open spec fn caps_ok(caps: Map<u64, Cap>) -> bool {
    forall|a: u64| cap_ok(#[trigger] objects::at(caps, a))
}

/// Number of slots of a CNode.
pub open spec fn slot_count(size_bits: u64) -> u64 {
    1u64 << size_bits
}

/// Address of slot `index` of the CNode at `cnode_pa`.
pub open spec fn slot_addr(cnode_pa: u64, index: u64) -> u64 {
    cnode_pa.wrapping_add(index.wrapping_mul(CAP_BYTES))
}

/// The capability in slot `index`.
pub open spec fn slot(caps: Map<u64, Cap>, cnode_pa: u64, index: u64) -> Cap {
    objects::at(caps, slot_addr(cnode_pa, index))
}

/// Filling a slot, which must be empty.
pub open spec fn inserted(
    caps: Map<u64, Cap>,
    cnode_pa: u64,
    size_bits: u64,
    index: u64,
    cap: Cap,
) -> (Map<u64, Cap>, Result<(), Error>) {
    if index >= slot_count(size_bits) {
        (caps, Err(Error::OutOfRange))
    } else if !(slot(caps, cnode_pa, index).cap_type is Null) {
        (caps, Err(Error::SlotOccupied))
    } else {
        (caps.insert(slot_addr(cnode_pa, index), cap), Ok(()))
    }
}

/// Copying slot `src` to the empty slot `dst` with the rights in `mask` only.
pub open spec fn duplicated(
    caps: Map<u64, Cap>,
    cnode_pa: u64,
    size_bits: u64,
    src: u64,
    dst: u64,
    mask: Rights,
) -> (Map<u64, Cap>, Result<(), Error>) {
    let c = slot(caps, cnode_pa, src);
    if src >= slot_count(size_bits) {
        (caps, Err(Error::OutOfRange))
    } else if c.cap_type is Null {
        (caps, Err(Error::SlotEmpty))
    } else {
        inserted(caps, cnode_pa, size_bits, dst, Cap { rights: cap::common(c.rights, mask), ..c })
    }
}

/// Moving slot `src` to the empty slot `dst`.
pub open spec fn moved(
    caps: Map<u64, Cap>,
    cnode_pa: u64,
    size_bits: u64,
    src: u64,
    dst: u64,
) -> (Map<u64, Cap>, Result<(), Error>) {
    let c = slot(caps, cnode_pa, src);
    if src >= slot_count(size_bits) {
        (caps, Err(Error::OutOfRange))
    } else if c.cap_type is Null {
        (caps, Err(Error::SlotEmpty))
    } else {
        let (caps1, r) = inserted(caps, cnode_pa, size_bits, dst, c);
        match r {
            Err(e) => (caps1, Err(e)),
            Ok(_) => (caps1.insert(slot_addr(cnode_pa, src), cap::null_cap()), Ok(())),
        }
    }
}

/// Copying slot `src` to the empty slot `dst` with exactly `rights`, which the
/// source must include.
pub open spec fn minted(
    caps: Map<u64, Cap>,
    cnode_pa: u64,
    size_bits: u64,
    src: u64,
    dst: u64,
    rights: Rights,
) -> (Map<u64, Cap>, Result<(), Error>) {
    let c = slot(caps, cnode_pa, src);
    if src >= slot_count(size_bits) {
        (caps, Err(Error::OutOfRange))
    } else if c.cap_type is Null {
        (caps, Err(Error::SlotEmpty))
    } else if !cap::includes(c.rights, rights) {
        (caps, Err(Error::InsufficientRights))
    } else {
        inserted(caps, cnode_pa, size_bits, dst, Cap { rights, ..c })
    }
}

/// Clearing a slot, which must hold a capability.
pub open spec fn deleted(caps: Map<u64, Cap>, cnode_pa: u64, size_bits: u64, index: u64) -> (
    Map<u64, Cap>,
    Result<Cap, Error>,
) {
    let c = slot(caps, cnode_pa, index);
    if index >= slot_count(size_bits) {
        (caps, Err(Error::OutOfRange))
    } else if c.cap_type is Null {
        (caps, Err(Error::SlotEmpty))
    } else {
        (caps.insert(slot_addr(cnode_pa, index), cap::null_cap()), Ok(c))
    }
}

fn slot_address(cnode_pa: u64, index: u64) -> (r: u64)
    ensures
        r == slot_addr(cnode_pa, index),
{
    cnode_pa.wrapping_add(index.wrapping_mul(CAP_BYTES))
}

fn check_index(size_bits: u64, index: u64) -> (r: Result<(), Error>)
    requires
        size_bits < 64,
    ensures
        r == (if index < slot_count(size_bits) {
            Ok::<(), Error>(())
        } else {
            Err::<(), Error>(Error::OutOfRange)
        }),
{
    if index < (1u64 << size_bits) {
        Ok(())
    } else {
        Err(Error::OutOfRange)
    }
}

/// Read the capability in slot `index`.
pub fn lookup(caps: &Objects<Cap>, cnode_pa: u64, size_bits: u64, index: u64) -> (r: Result<
    Cap,
    Error,
>)
    requires
        size_bits < 64,
    ensures
        r == (if index < slot_count(size_bits) {
            Ok::<Cap, Error>(slot(caps@, cnode_pa, index))
        } else {
            Err::<Cap, Error>(Error::OutOfRange)
        }),
{
    match check_index(size_bits, index) {
        Ok(_) => Ok(caps.read(slot_address(cnode_pa, index))),
        Err(e) => Err(e),
    }
}

/// Write `cap` into slot `index`, which must be empty.
pub fn insert(
    caps: &mut Objects<Cap>,
    cnode_pa: u64,
    size_bits: u64,
    index: u64,
    cap: Cap,
) -> (r: Result<(), Error>)
    requires
        size_bits < 64,
    ensures
        (final(caps)@, r) == inserted(old(caps)@, cnode_pa, size_bits, index, cap),
        caps_ok(old(caps)@) && cap_ok(cap) ==> caps_ok(final(caps)@),
{
    match check_index(size_bits, index) {
        Ok(_) => {},
        Err(e) => {
            return Err(e);
        },
    }
    let addr: u64 = slot_address(cnode_pa, index);
    let existing: Cap = caps.read(addr);
    if !existing.is_null() {
        return Err(Error::SlotOccupied);
    }
    caps.write(addr, cap);
    proof {
        lemma_caps_ok_insert(old(caps)@, addr, cap);
    }
    Ok(())
}

proof fn lemma_caps_ok_insert(caps: Map<u64, Cap>, addr: u64, cap: Cap)
    ensures
        caps_ok(caps) && cap_ok(cap) ==> caps_ok(caps.insert(addr, cap)),
{
    if caps_ok(caps) && cap_ok(cap) {
        assert forall|a: u64| cap_ok(#[trigger] objects::at(caps.insert(addr, cap), a)) by {
            assert(cap_ok(objects::at(caps, a)));
        }
    }
}

/// Overwrite slot `index` whatever it holds.
pub fn force_insert(caps: &mut Objects<Cap>, cnode_pa: u64, index: u64, cap: Cap)
    ensures
        final(caps)@ == old(caps)@.insert(slot_addr(cnode_pa, index), cap),
        caps_ok(old(caps)@) && cap_ok(cap) ==> caps_ok(final(caps)@),
{
    let addr: u64 = slot_address(cnode_pa, index);
    caps.write(addr, cap);
    proof {
        lemma_caps_ok_insert(old(caps)@, addr, cap);
    }
}

/// Copy `src` to `dst`, intersecting the rights with `mask`. `dst` must be
/// empty.
pub fn copy(
    caps: &mut Objects<Cap>,
    cnode_pa: u64,
    size_bits: u64,
    src: u64,
    dst: u64,
    mask: Rights,
) -> (r: Result<(), Error>)
    requires
        size_bits < 64,
    ensures
        (final(caps)@, r) == duplicated(old(caps)@, cnode_pa, size_bits, src, dst, mask),
        caps_ok(old(caps)@) ==> caps_ok(final(caps)@),
{
    let mut c: Cap = match lookup(caps, cnode_pa, size_bits, src) {
        Ok(c) => c,
        Err(e) => {
            return Err(e);
        },
    };
    if c.is_null() {
        return Err(Error::SlotEmpty);
    }
    c.rights = c.rights & mask;
    insert(caps, cnode_pa, size_bits, dst, c)
}

/// Move `src` to `dst`, which must be empty, clearing `src`.
pub fn move_cap(
    caps: &mut Objects<Cap>,
    cnode_pa: u64,
    size_bits: u64,
    src: u64,
    dst: u64,
) -> (r: Result<(), Error>)
    requires
        size_bits < 64,
    ensures
        (final(caps)@, r) == moved(old(caps)@, cnode_pa, size_bits, src, dst),
        caps_ok(old(caps)@) ==> caps_ok(final(caps)@),
{
    let c: Cap = match lookup(caps, cnode_pa, size_bits, src) {
        Ok(c) => c,
        Err(e) => {
            return Err(e);
        },
    };
    if c.is_null() {
        return Err(Error::SlotEmpty);
    }
    match insert(caps, cnode_pa, size_bits, dst, c) {
        Ok(_) => {},
        Err(e) => {
            return Err(e);
        },
    }
    force_insert(caps, cnode_pa, src, Cap::null());
    Ok(())
}

/// Copy `src` to `dst` with a specific set of rights, none of which the source
/// may lack.
pub fn mint(
    caps: &mut Objects<Cap>,
    cnode_pa: u64,
    size_bits: u64,
    src: u64,
    dst: u64,
    new_rights: Rights,
) -> (r: Result<(), Error>)
    requires
        size_bits < 64,
    ensures
        (final(caps)@, r) == minted(old(caps)@, cnode_pa, size_bits, src, dst, new_rights),
        caps_ok(old(caps)@) ==> caps_ok(final(caps)@),
{
    let mut c: Cap = match lookup(caps, cnode_pa, size_bits, src) {
        Ok(c) => c,
        Err(e) => {
            return Err(e);
        },
    };
    if c.is_null() {
        return Err(Error::SlotEmpty);
    }
    if !c.rights.contains(new_rights) {
        return Err(Error::InsufficientRights);
    }
    c.rights = new_rights;
    insert(caps, cnode_pa, size_bits, dst, c)
}

/// Clear slot `index`, returning the capability it held.
pub fn delete(caps: &mut Objects<Cap>, cnode_pa: u64, size_bits: u64, index: u64) -> (r: Result<
    Cap,
    Error,
>)
    requires
        size_bits < 64,
    ensures
        (final(caps)@, r) == deleted(old(caps)@, cnode_pa, size_bits, index),
        caps_ok(old(caps)@) ==> caps_ok(final(caps)@),
{
    let c: Cap = match lookup(caps, cnode_pa, size_bits, index) {
        Ok(c) => c,
        Err(e) => {
            return Err(e);
        },
    };
    if c.is_null() {
        return Err(Error::SlotEmpty);
    }
    force_insert(caps, cnode_pa, index, Cap::null());
    Ok(c)
}

/// `c` refers to the object that `target` refers to.
pub open spec fn is_copy(c: Cap, target: Cap) -> bool {
    !(c.cap_type is Null) && c.cap_type == target.cap_type && c.ptr == target.ptr
}

/// `a` is one of the first `n` slots of the CNode at `pa`.
pub open spec fn in_slots(pa: u64, n: u64, a: u64) -> bool {
    exists|i: u64| i < n && a == #[trigger] slot_addr(pa, i)
}

/// Nullifying the copies of `target` among the slots in `dead`.
pub open spec fn struck(caps: Map<u64, Cap>, target: Cap, dead: spec_fn(u64) -> bool) -> Map<
    u64,
    Cap,
> {
    Map::new(
        |a: u64| caps.contains_key(a),
        |a: u64|
            if dead(a) && is_copy(caps[a], target) {
                cap::null_cap()
            } else {
                caps[a]
            },
    )
}

/// `a` is a slot of the private CSpace of the `n`-th thread.
pub open spec fn in_thread_cspace(s: State, n: int, a: u64) -> bool {
    let t = kernel::tcb(s, s.threads[n]);
    t.cspace_pa != 0 && t.cspace_pa != s.root_pa && in_slots(
        t.cspace_pa,
        slot_count(t.cspace_sb),
        a,
    )
}

/// `a` is a slot of the root CSpace or of the CSpace of one of the first `n`
/// threads.
pub open spec fn scanned(s: State, n: int, a: u64) -> bool {
    in_slots(s.root_pa, slot_count(s.root_sb), a) || exists|m: int|
        0 <= m < n && #[trigger] in_thread_cspace(s, m, a)
}

/// Revoking slot `index`: every copy in the root CSpace and in the CSpaces of
/// all threads goes, and the slot itself.
pub open spec fn revoked(s: State, cnode_pa: u64, size_bits: u64, index: u64) -> (
    State,
    Result<(), Error>,
) {
    let target = slot(s.caps, cnode_pa, index);
    if index >= slot_count(size_bits) {
        (s, Err(Error::OutOfRange))
    } else if target.cap_type is Null {
        (s, Err(Error::SlotEmpty))
    } else {
        let left = struck(s.caps, target, |a: u64| scanned(s, s.threads.len() as int, a));
        (State { caps: left.insert(slot_addr(cnode_pa, index), cap::null_cap()), ..s }, Ok(()))
    }
}

/// Nullify the copies of `target` in one CSpace.
fn nullify(caps: &mut Objects<Cap>, cs_pa: u64, cs_sb: u64, target: Cap)
    requires
        cs_sb < 64,
    ensures
        final(caps)@ == struck(
            old(caps)@,
            target,
            |a: u64| in_slots(cs_pa, slot_count(cs_sb), a),
        ),
{
    let n: u64 = 1u64 << cs_sb;
    let mut i: u64 = 0;
    assert(caps@ =~= struck(old(caps)@, target, |a: u64| in_slots(cs_pa, 0, a)));
    while i < n
        invariant
            i <= n,
            caps@ == struck(old(caps)@, target, |a: u64| in_slots(cs_pa, i, a)),
        decreases n - i,
    {
        let addr: u64 = slot_address(cs_pa, i);
        let c: Cap = caps.read(addr);
        let ghost before = caps@;
        if !c.is_null() && c.cap_type == target.cap_type && c.ptr == target.ptr {
            caps.write(addr, Cap::null());
        }
        proof {
            let next = struck(old(caps)@, target, |a: u64| in_slots(cs_pa, (i + 1) as u64, a));
            assert forall|a: u64|
                in_slots(cs_pa, (i + 1) as u64, a) <==> in_slots(cs_pa, i, a) || a == addr by {
                if in_slots(cs_pa, (i + 1) as u64, a) {
                    let j = choose|j: u64| j < i + 1 && a == #[trigger] slot_addr(cs_pa, j);
                    if j < i {
                        assert(in_slots(cs_pa, i, a));
                    }
                }
                if in_slots(cs_pa, i, a) {
                    let j = choose|j: u64| j < i && a == #[trigger] slot_addr(cs_pa, j);
                    assert(j < i + 1 && a == slot_addr(cs_pa, j));
                }
                if a == addr {
                    assert(i < i + 1 && a == slot_addr(cs_pa, i));
                }
            }
            assert(caps@ =~= next);
        }
        i += 1;
    }
}

proof fn lemma_struck_caps_ok(caps: Map<u64, Cap>, target: Cap, dead: spec_fn(u64) -> bool)
    requires
        caps_ok(caps),
    ensures
        caps_ok(struck(caps, target, dead)),
{
    assert forall|a: u64| cap_ok(#[trigger] objects::at(struck(caps, target, dead), a)) by {
        assert(cap_ok(objects::at(caps, a)));
    }
}

/// Revoke the capability at slot `index`: nullify every copy of it in the root
/// CSpace and in every per-process CSpace, then clear the slot itself.
pub fn revoke(k: &mut Kernel, cnode_pa: u64, size_bits: u64, index: u64) -> (r: Result<(), Error>)
    requires
        old(k).wf(),
        size_bits < 64,
    ensures
        final(k).wf(),
        (final(k)@, r) == revoked(old(k)@, cnode_pa, size_bits, index),
{
    let ghost s = k@;
    let target: Cap = match lookup(&k.caps, cnode_pa, size_bits, index) {
        Ok(c) => c,
        Err(e) => {
            return Err(e);
        },
    };
    if target.is_null() {
        return Err(Error::SlotEmpty);
    }
    let root_pa: u64 = k.root_pa;
    let root_sb: u64 = k.root_sb;
    nullify(&mut k.caps, root_pa, root_sb, target);
    proof {
        assert(k@.caps =~= struck(s.caps, target, |a: u64| scanned(s, 0, a)));
        lemma_struck_caps_ok(s.caps, target, |a: u64| scanned(s, 0, a));
    }
    let mut n: usize = 0;
    while n < k.threads.len()
        invariant
            k.wf(),
            n <= s.threads.len(),
            s == old(k)@,
            root_pa == s.root_pa,
            caps_ok(s.caps),
            k@ == (State {
                caps: struck(s.caps, target, |a: u64| scanned(s, n as int, a)),
                ..s
            }),
        decreases s.threads.len() - n,
    {
        let t: Tcb = k.tcb(k.threads[n]);
        let ghost before = k@.caps;
        if t.cspace_pa != 0 && t.cspace_pa != root_pa {
            nullify(&mut k.caps, t.cspace_pa, t.cspace_sb, target);
        }
        proof {
            let next = struck(s.caps, target, |a: u64| scanned(s, n + 1, a));
            assert forall|a: u64|
                scanned(s, n + 1, a) <==> scanned(s, n as int, a) || in_thread_cspace(
                    s,
                    n as int,
                    a,
                ) by {
                if scanned(s, n + 1, a) && !in_slots(s.root_pa, slot_count(s.root_sb), a) {
                    let m = choose|m: int| 0 <= m < n + 1 && #[trigger] in_thread_cspace(s, m, a);
                    if m < n {
                        assert(scanned(s, n as int, a));
                    }
                }
                if scanned(s, n as int, a) && !in_slots(s.root_pa, slot_count(s.root_sb), a) {
                    let m = choose|m: int| 0 <= m < n && #[trigger] in_thread_cspace(s, m, a);
                    assert(0 <= m < n + 1 && in_thread_cspace(s, m, a));
                }
                if in_thread_cspace(s, n as int, a) {
                    assert(0 <= n < n + 1 && in_thread_cspace(s, n as int, a));
                }
            }
            assert(k@.caps =~= next);
            lemma_struck_caps_ok(s.caps, target, |a: u64| scanned(s, n + 1, a));
        }
        n += 1;
    }
    force_insert(&mut k.caps, cnode_pa, index, Cap::null());
    Ok(())
}

/// The order of the block that holds a CNode: the smallest that is large enough.
pub open spec fn cnode_order(bytes: int, order: nat) -> nat
    decreases MAX_ORDER - order,
{
    if order >= MAX_ORDER || buddy::block_bytes(order) >= bytes {
        order
    } else {
        cnode_order(bytes, order + 1)
    }
}

/// Bytes that a CNode of `2^size_bits` slots takes.
pub open spec fn cnode_bytes(size_bits: u64) -> u64 {
    CAP_BYTES << size_bits
}

/// Creating a CNode: a block of memory, zeroed, so that every slot is empty.
pub open spec fn cnode_made(s: State, size_bits: u64) -> (State, Option<u64>) {
    let order = cnode_order(cnode_bytes(size_bits) as int, 0);
    let (m, block) = mm::pages_taken(s.mm, order);
    match block {
        None => (s, None),
        Some(pa) => (
            kernel::zeroed_range(State { mm: m, ..s }, pa as int, pa + buddy::block_bytes(order)),
            Some(pa),
        ),
    }
}

/// Allocate a CNode with `2^size_bits` empty slots. The largest block holds
/// `2^25` slots.
pub fn allocate(k: &mut Kernel, size_bits: u64) -> (r: Option<u64>)
    requires
        old(k).wf(),
        size_bits <= 25,
    ensures
        final(k).wf(),
        (final(k)@, r) == cnode_made(old(k)@, size_bits),
{
    let bytes: u64 = CAP_BYTES << size_bits;
    let mut order: usize = 0;
    proof {
        buddy::lemma_order_table(0);
    }
    while order < MAX_ORDER && (PAGE_SIZE << order) < bytes
        invariant
            order <= MAX_ORDER,
            cnode_order(bytes as int, 0) == cnode_order(bytes as int, order as nat),
            buddy::block_bytes(order as nat) == PAGE_SIZE << order,
        decreases MAX_ORDER - order,
    {
        order += 1;
        proof {
            buddy::lemma_order_table(order as nat);
        }
    }
    proof {
        buddy::lemma_order_table(order as nat);
    }
    match alloc_pages(&mut k.mm, order) {
        None => None,
        Some(pa) => {
            k.zero_range(pa, PAGE_SIZE << order);
            Some(pa)
        },
    }
}

/// What was inserted is what a lookup returns; every other slot is unchanged.
pub proof fn law_insert_then_lookup(
    caps: Map<u64, Cap>,
    cnode_pa: u64,
    size_bits: u64,
    index: u64,
    cap: Cap,
    a: u64,
)
    requires
        inserted(caps, cnode_pa, size_bits, index, cap).1 is Ok,
    ensures
        ({
            let after = inserted(caps, cnode_pa, size_bits, index, cap).0;
            &&& slot(after, cnode_pa, index) == cap
            &&& a != slot_addr(cnode_pa, index) ==> objects::at(after, a) == objects::at(caps, a)
        }),
{
}

/// A capability can be inserted again once its slot was deleted.
pub proof fn law_delete_frees_slot(
    caps: Map<u64, Cap>,
    cnode_pa: u64,
    size_bits: u64,
    index: u64,
    cap: Cap,
)
    requires
        deleted(caps, cnode_pa, size_bits, index).1 is Ok,
    ensures
        ({
            let after = deleted(caps, cnode_pa, size_bits, index).0;
            &&& slot(after, cnode_pa, index) == cap::null_cap()
            &&& inserted(after, cnode_pa, size_bits, index, cap).1 is Ok
        }),
{
}

/// Neither copying nor minting ever gives a right that the source lacks, nor
/// authority over another object.
pub proof fn law_derivation_never_escalates(
    caps: Map<u64, Cap>,
    cnode_pa: u64,
    size_bits: u64,
    src: u64,
    dst: u64,
    rights: Rights,
)
    ensures
        ({
            let c = slot(caps, cnode_pa, src);
            let (after, r) = duplicated(caps, cnode_pa, size_bits, src, dst, rights);
            r is Ok ==> {
                let d = slot(after, cnode_pa, dst);
                cap::includes(c.rights, d.rights) && is_copy(d, c) && d.extra == c.extra
            }
        }),
        ({
            let c = slot(caps, cnode_pa, src);
            let (after, r) = minted(caps, cnode_pa, size_bits, src, dst, rights);
            r is Ok ==> {
                let d = slot(after, cnode_pa, dst);
                cap::includes(c.rights, d.rights) && is_copy(d, c) && d.extra == c.extra
            }
        }),
{
    crate::cap::law_masking_only_removes(slot(caps, cnode_pa, src).rights, rights);
}

/// Moving keeps the capability and empties the slot it came from.
pub proof fn law_move_relocates(
    caps: Map<u64, Cap>,
    cnode_pa: u64,
    size_bits: u64,
    src: u64,
    dst: u64,
)
    requires
        moved(caps, cnode_pa, size_bits, src, dst).1 is Ok,
    ensures
        ({
            let after = moved(caps, cnode_pa, size_bits, src, dst).0;
            &&& slot(after, cnode_pa, src) == cap::null_cap()
            &&& slot(after, cnode_pa, dst) == slot(caps, cnode_pa, src)
        }),
{
}

/// After a revocation no CSpace that the kernel can reach holds a copy of the
/// revoked capability, and every slot that did not hold one is unchanged.
pub proof fn law_revoke_leaves_no_copy(
    s: State,
    cnode_pa: u64,
    size_bits: u64,
    index: u64,
    a: u64,
)
    requires
        revoked(s, cnode_pa, size_bits, index).1 is Ok,
    ensures
        ({
            let target = slot(s.caps, cnode_pa, index);
            let after = revoked(s, cnode_pa, size_bits, index).0;
            &&& slot(after.caps, cnode_pa, index) == cap::null_cap()
            &&& scanned(s, s.threads.len() as int, a) ==> !is_copy(objects::at(after.caps, a), target)
            &&& !is_copy(objects::at(s.caps, a), target) ==> objects::at(after.caps, a) == objects::at(s.caps, a)
        }),
{
}

proof fn lemma_cnode_order(bytes: int, order: nat)
    requires
        order <= MAX_ORDER,
        bytes <= buddy::block_bytes(MAX_ORDER as nat),
    ensures
        cnode_order(bytes, order) <= MAX_ORDER,
        bytes <= buddy::block_bytes(cnode_order(bytes, order)),
    decreases MAX_ORDER - order,
{
    if order < MAX_ORDER && buddy::block_bytes(order) < bytes {
        lemma_cnode_order(bytes, order + 1);
    }
}

/// Every slot of a new CNode is empty.
pub proof fn law_new_cnode_empty(s: State, size_bits: u64, index: u64)
    requires
        buddy::lists_ok(s.mm.lists),
        size_bits <= 25,
        index < slot_count(size_bits),
        cnode_made(s, size_bits).1 is Some,
    ensures
        slot(cnode_made(s, size_bits).0.caps, cnode_made(s, size_bits).1->0, index) == cap::null_cap(),
{
    assert(24u64 << size_bits == 24 * (1u64 << size_bits) && (1u64 << size_bits) <= 33554432)
        by (bit_vector)
        requires
            size_bits <= 25,
    ;
    let order = cnode_order(cnode_bytes(size_bits) as int, 0);
    buddy::lemma_order_table(MAX_ORDER as nat);
    lemma_cnode_order(cnode_bytes(size_bits) as int, 0);
    buddy::lemma_first_fit(s.mm.lists, order);
    buddy::lemma_split(s.mm.lists, order, buddy::first_fit(s.mm.lists, order));
}

} // verus!
