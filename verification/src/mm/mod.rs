//! Physical memory management: the page allocator and the slab caches on top
//! of it.
pub mod buddy;
pub mod cells;
pub mod devicetree;
pub mod occupancy;
pub mod slab;

use crate::kernel::{self, Kernel, State};
use crate::mm::buddy::{BuddyAllocator, FreeLists, MAX_ORDER, PAGE_SIZE, PA_LIMIT};
use crate::mm::devicetree::memory_regions;
use crate::mm::slab::Slabs;
use crate::objects;
use vstd::prelude::*;

verus! {

/// The memory that is free, as the allocators hold it.
#[verifier::ext_equal]
pub struct MmState {
    pub lists: FreeLists,
    pub free_pages: u64,
    pub total_pages: u64,
    pub cells: Seq<Seq<u64>>,
}

/// The page and slab allocators.
pub struct Mm {
    pub buddy: BuddyAllocator,
    pub slabs: Slabs,
}

impl View for Mm {
    type V = MmState;

    open spec fn view(&self) -> MmState {
        MmState {
            lists: self.buddy.lists(),
            free_pages: self.buddy.free_pages,
            total_pages: self.buddy.total_pages,
            cells: self.slabs.cells(),
        }
    }
}

impl Mm {
    pub open spec fn wf(&self) -> bool {
        self.buddy.wf() && self.slabs.wf()
    }

    /// Allocators that manage no memory yet.
    pub fn new() -> (r: Mm)
        ensures
            r.wf(),
            r@ == (MmState {
                lists: Seq::new((MAX_ORDER + 1) as nat, |o: int| Seq::<u64>::empty()),
                free_pages: 0,
                total_pages: 0,
                cells: Seq::new(3, |c: int| Seq::<u64>::empty()),
            }),
    {
        Mm { buddy: BuddyAllocator::new(), slabs: Slabs::new() }
    }
}

/// Taking a block of `2^order` pages: what is left, and the block.
pub open spec fn pages_taken(m: MmState, order: nat) -> (MmState, Option<u64>) {
    let found = buddy::first_fit(m.lists, order);
    if found > MAX_ORDER {
        (m, None)
    } else {
        (
            MmState {
                lists: buddy::split_lists(m.lists, order, found),
                free_pages: (m.free_pages - buddy::order_pages(order)) as u64,
                ..m
            },
            Some(m.lists[found as int].last()),
        )
    }
}

/// Taking a slab cell for `size` bytes: what is left, and the cell.
pub open spec fn cell_taken(m: MmState, size: int) -> (MmState, Option<u64>) {
    match slab::class_for(size) {
        None => (m, None),
        Some(c) => {
            let free = m.cells[c];
            if free.len() > 0 {
                (MmState { cells: m.cells.update(c, free.drop_last()), ..m }, Some(free.last()))
            } else {
                let (m1, page) = pages_taken(m, 0);
                match page {
                    None => (m, None),
                    Some(p) => (
                        MmState {
                            cells: m1.cells.update(
                                c,
                                slab::page_cells(p as int, slab::cell_bytes(c)).drop_last(),
                            ),
                            ..m1
                        },
                        Some(p),
                    ),
                }
            }
        },
    }
}

/// Returning a slab cell for `size` bytes.
pub open spec fn cell_returned(m: MmState, pa: u64, size: int) -> MmState {
    match slab::class_for(size) {
        None => m,
        Some(c) => MmState { cells: m.cells.update(c, m.cells[c].push(pa)), ..m },
    }
}

/// Allocate one 4 KiB page. Returns its physical address.
pub fn alloc_page(mm: &mut Mm) -> (r: Option<u64>)
    requires
        old(mm).wf(),
    ensures
        final(mm).wf(),
        (final(mm)@, r) == pages_taken(old(mm)@, 0),
        r matches Some(pa) ==> 0 < pa && pa % 4096 == 0 && pa + 4096 <= PA_LIMIT,
{
    let r = alloc_pages(mm, 0);
    proof {
        buddy::lemma_order_table(0);
    }
    r
}

/// Free one 4 KiB page at physical address `pa`.
pub fn free_page(mm: &mut Mm, pa: u64)
    requires
        old(mm).wf(),
        buddy::is_block(pa as int, 0),
        buddy::block_apart(old(mm)@.lists, pa as int, 0),
        old(mm)@.free_pages < old(mm)@.total_pages,
    ensures
        final(mm).wf(),
        final(mm)@ == (MmState {
            lists: buddy::merge_lists(old(mm)@.lists, pa as int, 0),
            free_pages: (old(mm)@.free_pages + 1) as u64,
            ..old(mm)@
        }),
{
    mm.buddy.free(pa, 0);
}

/// Allocate `2^order` pages. Returns the physical address of the first.
pub fn alloc_pages(mm: &mut Mm, order: usize) -> (r: Option<u64>)
    requires
        old(mm).wf(),
        order <= MAX_ORDER,
    ensures
        final(mm).wf(),
        (final(mm)@, r) == pages_taken(old(mm)@, order as nat),
        r matches Some(pa) ==> buddy::is_block(pa as int, order as nat) && buddy::block_apart(
            final(mm)@.lists,
            pa as int,
            order as nat,
        ),
{
    mm.buddy.allocate(order)
}

/// Free `2^order` pages at physical address `pa`.
pub fn free_pages(mm: &mut Mm, pa: u64, order: usize)
    requires
        old(mm).wf(),
        buddy::is_block(pa as int, order as nat),
        buddy::block_apart(old(mm)@.lists, pa as int, order as nat),
        old(mm)@.free_pages + buddy::order_pages(order as nat) <= old(mm)@.total_pages,
    ensures
        final(mm).wf(),
        final(mm)@ == (MmState {
            lists: buddy::merge_lists(old(mm)@.lists, pa as int, order as nat),
            free_pages: (old(mm)@.free_pages + buddy::order_pages(order as nat)) as u64,
            ..old(mm)@
        }),
{
    mm.buddy.free(pa, order);
}

/// Take a slab cell large enough for `size` bytes, as it is. Returns its address.
fn take_cell(mm: &mut Mm, size: u64) -> (r: Option<u64>)
    requires
        old(mm).wf(),
    ensures
        final(mm).wf(),
        (final(mm)@, r) == cell_taken(old(mm)@, size as int),
        r matches Some(pa) ==> 0 < pa && pa + slab::cell_bytes(slab::class_for(size as int)->0)
            <= PA_LIMIT,
{
    slab::allocate(&mut mm.slabs, &mut mm.buddy, size)
}

/// Take a zeroed slab cell large enough for `size` bytes. Returns its address,
/// which is never 0.
pub fn slab_alloc(k: &mut Kernel, size: u64) -> (r: Option<u64>)
    requires
        old(k).wf(),
    ensures
        final(k).wf(),
        (final(k)@, r) == kernel::cell_made(old(k)@, size as int),
        r matches Some(pa) ==> 0 < pa && pa + slab::cell_bytes(slab::class_for(size as int)->0)
            <= PA_LIMIT,
{
    match take_cell(&mut k.mm, size) {
        None => None,
        Some(pa) => {
            let len: u64 = if size <= 16 {
                16
            } else if size <= 32 {
                32
            } else {
                512
            };
            k.zero_range(pa, len);
            Some(pa)
        },
    }
}

/// Return a slab cell to its cache. `size` must match the allocation. Address 0
/// stands for no cell.
pub fn slab_free(k: &mut Kernel, pa: u64, size: u64)
    requires
        old(k).wf(),
        slab::class_for(size as int) matches Some(c) ==> 0 < pa && pa + slab::cell_bytes(c)
            <= PA_LIMIT,
    ensures
        final(k).wf(),
        final(k)@ == kernel::cell_freed(old(k)@, pa, size as int),
{
    slab::free(&mut k.mm.slabs, pa, size);
}

/// A cell comes with all its bytes zero, and nothing outside of it changes.
pub proof fn law_cell_zeroed(s: State, size: int, addr: u64)
    ensures
        kernel::cell_made(s, size) matches (s1, Some(pa)) ==> {
            let end = pa + slab::cell_bytes(slab::class_for(size)->0);
            &&& pa <= addr < end ==> objects::at(s1.bytes, addr) == 0
            &&& !(pa <= addr < end) ==> objects::at(s1.bytes, addr) == objects::at(s.bytes, addr)
        },
{
}

/// A cell that was returned is handed out next, zeroed; sizes above the largest
/// class get none.
pub proof fn law_returned_cell_zeroed(s: State, pa: u64, size: int)
    requires
        s.mm.cells.len() == 3,
    ensures
        ({
            let (s1, again) = kernel::cell_made(kernel::cell_freed(s, pa, size), size);
            if size <= 512 {
                &&& again == Some(pa)
                &&& s1.mm == s.mm
                &&& forall|a: u64|
                    pa <= a < pa + slab::cell_bytes(slab::class_for(size)->0)
                        ==> #[trigger] objects::at(s1.bytes, a) == 0
            } else {
                again is None && s1 == s
            }
        }),
{
    if size <= 512 {
        law_cell_reused(s.mm, pa, size);
    }
}

/// A returned cell is the next one of its class to be handed out.
pub proof fn law_cell_reused(m: MmState, pa: u64, size: int)
    requires
        m.cells.len() == 3,
        slab::class_for(size) is Some,
    ensures
        cell_taken(cell_returned(m, pa, size), size) == (m, Some(pa)),
{
    let c = slab::class_for(size)->0;
    let back = cell_returned(m, pa, size);
    assert(back.cells[c].drop_last() =~= m.cells[c]);
    assert(back.cells.update(c, m.cells[c]) =~= m.cells);
}

/// Memory is kept clear from this boundary below the device tree blob on.
pub const FDT_GUARD: u64 = 0x40_0000;

/// `addr` rounded up to a multiple of `align`.
pub fn align_up(addr: u64, align: u64) -> (r: u64)
    requires
        align > 0,
        addr + align - 1 <= u64::MAX,
    ensures
        r == (addr + align - 1) - (addr + align - 1) % (align as int),
{
    let top: u64 = addr + (align - 1);
    top - top % align
}

/// `addr` rounded down to a multiple of `align`.
pub fn align_down(addr: u64, align: u64) -> (r: u64)
    requires
        align > 0,
    ensures
        r == addr - addr % align,
{
    assert(addr % align <= addr) by (nonlinear_arith)
        requires
            align > 0,
    ;
    addr - addr % align
}

/// Why physical memory cannot be managed.
#[derive(Debug, Clone, Copy, PartialEq, Eq, Structural)]
pub enum MemoryError {
    /// The device tree blob cannot be read.
    InvalidFdt,
    /// A region does not start on a page, exceeds the physical address space or
    /// overlaps another one.
    BadRegion,
}

/// The part of the region `[start, start + size)` that may be used: above the
/// kernel image and below the device tree blob. Bytes after the last whole page
/// are left out.
pub open spec fn usable(start: u64, size: u64, kernel_end: u64, fdt_addr: u64) -> (int, int) {
    let first = (kernel_end + 4095) - (kernel_end + 4095) % 4096;
    let guard = fdt_addr - fdt_addr as int % 0x40_0000;
    let end = start + size;
    let last = if end < guard {
        end
    } else {
        guard
    };
    (
        if first > start {
            first
        } else {
            start as int
        },
        last - last % 4096,
    )
}

/// `[lo, hi)` can be handed to the page allocator.
pub open spec fn region_ok(m: MmState, lo: int, hi: int) -> bool {
    &&& 0 < lo
    &&& lo % 4096 == 0
    &&& hi % 4096 == 0
    &&& hi <= PA_LIMIT
    &&& m.total_pages + (hi - lo) / 4096 <= u64::MAX
    &&& forall|addr: int| lo <= addr < hi ==> !#[trigger] buddy::is_free(m.lists, addr)
}

/// Handing out the usable parts of `regions` in their order. Regions without a
/// size are passed over.
pub open spec fn regions_added(
    m: MmState,
    regions: Seq<(u64, Option<u64>)>,
    kernel_end: u64,
    fdt_addr: u64,
) -> Option<MmState>
    decreases regions.len(),
{
    if regions.len() == 0 {
        Some(m)
    } else {
        let (start, len) = regions[0];
        let size = match len {
            Some(n) => n,
            None => 0,
        };
        let (lo, hi) = usable(start, size, kernel_end, fdt_addr);
        if size == 0 {
            regions_added(m, regions.drop_first(), kernel_end, fdt_addr)
        } else if start + size > u64::MAX {
            None
        } else if lo >= hi {
            regions_added(m, regions.drop_first(), kernel_end, fdt_addr)
        } else if !region_ok(m, lo, hi) {
            None
        } else {
            let m1 = MmState {
                lists: buddy::region_lists(m.lists, lo, hi),
                free_pages: (m.free_pages + (hi - lo) / 4096) as u64,
                total_pages: (m.total_pages + (hi - lo) / 4096) as u64,
                ..m
            };
            regions_added(m1, regions.drop_first(), kernel_end, fdt_addr)
        }
    }
}

/// Nothing is managed yet.
pub open spec fn unmanaged() -> MmState {
    MmState {
        lists: Seq::new((MAX_ORDER + 1) as nat, |o: int| Seq::<u64>::empty()),
        free_pages: 0,
        total_pages: 0,
        cells: Seq::new(3, |c: int| Seq::<u64>::empty()),
    }
}

/// The free addresses are those of the ranges in `used`.
pub open spec fn free_in(l: FreeLists, used: Seq<(u64, u64)>) -> bool {
    forall|addr: int| #[trigger]
        buddy::is_free(l, addr) <==> exists|j: int|
            0 <= j < used.len() && (#[trigger] used[j]).0 <= addr < used[j].1
}

proof fn lemma_apart(l: FreeLists, lo: int, hi: int)
    requires
        buddy::lists_ok(l),
        lo < hi,
        forall|addr: int| lo <= addr < hi ==> !#[trigger] buddy::is_free(l, addr),
    ensures
        forall|o: int, i: int| #[trigger]
            buddy::listed(l, o, i) ==> l[o][i] + buddy::block_bytes(o as nat) <= lo || hi
                <= l[o][i],
{
    assert forall|o: int, i: int| #[trigger] buddy::listed(l, o, i) implies l[o][i]
        + buddy::block_bytes(o as nat) <= lo || hi <= l[o][i] by {
        let pa = l[o][i] as int;
        buddy::lemma_order_positive(o as nat);
        let addr = if pa < lo {
            lo
        } else {
            pa
        };
        if pa + buddy::block_bytes(o as nat) > lo && hi > pa {
            assert(buddy::covers(l, o, i, addr));
            assert(buddy::is_free(l, addr));
        }
    }
}

/// Whether `[lo, hi)` meets one of the ranges in `used`.
fn meets(used: &Vec<(u64, u64)>, lo: u64, hi: u64) -> (r: bool)
    requires
        lo < hi,
        forall|j: int| 0 <= j < used@.len() ==> (#[trigger] used@[j]).0 < used@[j].1,
    ensures
        r == exists|j: int|
            0 <= j < used@.len() && (#[trigger] used@[j]).0 < hi && lo < used@[j].1,
{
    let mut i: usize = 0;
    while i < used.len()
        invariant
            i <= used@.len(),
            forall|j: int| 0 <= j < i ==> !((#[trigger] used@[j]).0 < hi && lo < used@[j].1),
        decreases used@.len() - i,
    {
        if used[i].0 < hi && lo < used[i].1 {
            return true;
        }
        i += 1;
    }
    false
}

/// Hand the range `[lo, hi)` to the page allocator.
fn add_range(mm: &mut Mm, used: &mut Vec<(u64, u64)>, lo: u64, hi: u64) -> (r: bool)
    requires
        old(mm).wf(),
        lo < hi,
        free_in(old(mm)@.lists, old(used)@),
        forall|j: int| 0 <= j < old(used)@.len() ==> (#[trigger] old(used)@[j]).0 < old(used)@[j].1,
    ensures
        r == region_ok(old(mm)@, lo as int, hi as int),
        r ==> final(mm).wf() && free_in(final(mm)@.lists, final(used)@) && final(mm)@ == (MmState {
            lists: buddy::region_lists(old(mm)@.lists, lo as int, hi as int),
            free_pages: (old(mm)@.free_pages + (hi - lo) / 4096) as u64,
            total_pages: (old(mm)@.total_pages + (hi - lo) / 4096) as u64,
            ..old(mm)@
        }) && forall|j: int|
            0 <= j < final(used)@.len() ==> (#[trigger] final(used)@[j]).0 < final(used)@[j].1,
{
    let ghost l0 = mm@.lists;
    let ghost u0 = used@;
    if lo == 0 || lo % PAGE_SIZE != 0 || hi % PAGE_SIZE != 0 || hi > PA_LIMIT {
        return false;
    }
    if (hi - lo) / PAGE_SIZE > u64::MAX - mm.buddy.total_pages {
        return false;
    }
    if meets(used, lo, hi) {
        proof {
            let j = choose|j: int|
                0 <= j < u0.len() && (#[trigger] u0[j]).0 < hi && lo < u0[j].1;
            let addr = if u0[j].0 < lo {
                lo as int
            } else {
                u0[j].0 as int
            };
            assert(u0[j].0 < u0[j].1);
            assert(buddy::is_free(l0, addr));
        }
        return false;
    }
    proof {
        assert forall|addr: int| lo <= addr < hi implies !#[trigger] buddy::is_free(l0, addr) by {
            if buddy::is_free(l0, addr) {
                let j = choose|j: int|
                    0 <= j < u0.len() && (#[trigger] u0[j]).0 <= addr < u0[j].1;
                assert(u0[j].0 < hi && lo < u0[j].1);
            }
        }
        lemma_apart(l0, lo as int, hi as int);
    }
    mm.buddy.add_region(lo, hi);
    used.push((lo, hi));
    proof {
        assert forall|addr: int| #[trigger]
            buddy::is_free(mm@.lists, addr) <==> exists|j: int|
                0 <= j < used@.len() && (#[trigger] used@[j]).0 <= addr < used@[j].1 by {
            if buddy::is_free(mm@.lists, addr) {
                if lo <= addr < hi {
                    assert(used@[u0.len() as int] == (lo, hi));
                } else {
                    assert(buddy::is_free(l0, addr));
                    let j = choose|j: int|
                        0 <= j < u0.len() && (#[trigger] u0[j]).0 <= addr < u0[j].1;
                    assert(used@[j] == u0[j]);
                }
            }
            if exists|j: int|
                0 <= j < used@.len() && (#[trigger] used@[j]).0 <= addr < used@[j].1 {
                let j = choose|j: int|
                    0 <= j < used@.len() && (#[trigger] used@[j]).0 <= addr < used@[j].1;
                if j < u0.len() {
                    assert(used@[j] == u0[j]);
                    assert(buddy::is_free(l0, addr));
                }
            }
        }
        assert forall|j: int| 0 <= j < used@.len() implies (#[trigger] used@[j]).0 < used@[j].1 by {
            if j < u0.len() {
                assert(used@[j] == u0[j]);
            }
        }
    }
    true
}

/// Manage the usable parts of `regions`.
pub fn from_regions(regions: &Vec<(u64, Option<u64>)>, kernel_end: u64, fdt_addr: u64) -> (r: Result<
    Mm,
    MemoryError,
>)
    requires
        kernel_end <= PA_LIMIT,
    ensures
        match regions_added(unmanaged(), regions@, kernel_end, fdt_addr) {
            Some(m) => r is Ok && r->Ok_0.wf() && r->Ok_0@ == m,
            None => r is Err && r->Err_0 == MemoryError::BadRegion,
        },
{
    let mut mm: Mm = Mm::new();
    let mut used: Vec<(u64, u64)> = Vec::new();
    let first: u64 = align_up(kernel_end, PAGE_SIZE);
    let guard: u64 = align_down(fdt_addr, FDT_GUARD);
    let mut i: usize = 0;
    assert(regions@.skip(0) =~= regions@);
    assert(free_in(mm@.lists, used@)) by {
        assert forall|addr: int| !#[trigger] buddy::is_free(mm@.lists, addr) by {}
    }
    while i < regions.len()
        invariant
            i <= regions@.len(),
            mm.wf(),
            kernel_end <= PA_LIMIT,
            first == (kernel_end + 4095) - (kernel_end + 4095) % 4096,
            guard == fdt_addr - fdt_addr as int % 0x40_0000,
            free_in(mm@.lists, used@),
            forall|j: int| 0 <= j < used@.len() ==> (#[trigger] used@[j]).0 < used@[j].1,
            regions_added(mm@, regions@.skip(i as int), kernel_end, fdt_addr) == regions_added(
                unmanaged(),
                regions@,
                kernel_end,
                fdt_addr,
            ),
        decreases regions@.len() - i,
    {
        assert(regions@.skip(i as int)[0] == regions@[i as int]);
        assert(regions@.skip(i as int).drop_first() =~= regions@.skip(i + 1));
        let (start, len): (u64, Option<u64>) = regions[i];
        let size: u64 = match len {
            Some(n) => n,
            None => 0,
        };
        if size != 0 {
            if size > u64::MAX - start {
                return Err(MemoryError::BadRegion);
            }
            let end: u64 = start + size;
            let lo: u64 = if first > start {
                first
            } else {
                start
            };
            let last: u64 = if end < guard {
                end
            } else {
                guard
            };
            let hi: u64 = align_down(last, PAGE_SIZE);
            if lo < hi {
                if !add_range(&mut mm, &mut used, lo, hi) {
                    return Err(MemoryError::BadRegion);
                }
            }
        }
        i += 1;
    }
    assert(regions@.skip(i as int) =~= Seq::<(u64, Option<u64>)>::empty());
    Ok(mm)
}

/// Initialise physical memory management from the device tree blob at
/// `fdt_addr`: all memory between the kernel image, which ends at `kernel_end`,
/// and the blob.
pub fn init(blob: &[u8], fdt_addr: u64, kernel_end: u64) -> (r: Result<Mm, MemoryError>)
    requires
        kernel_end <= PA_LIMIT,
    ensures
        !devicetree::readable(blob@) ==> r is Err && r->Err_0 == MemoryError::InvalidFdt,
        devicetree::readable(blob@) ==> match regions_added(
            unmanaged(),
            devicetree::blob_regions(blob@),
            kernel_end,
            fdt_addr,
        ) {
            Some(m) => r is Ok && r->Ok_0.wf() && r->Ok_0@ == m,
            None => r is Err && r->Err_0 == MemoryError::BadRegion,
        },
{
    match memory_regions(blob) {
        None => Err(MemoryError::InvalidFdt),
        Some(regions) => from_regions(&regions, kernel_end, fdt_addr),
    }
}

/// The region has a size and covers `[lo, hi)`.
pub open spec fn spans(r: (u64, Option<u64>), lo: int, hi: int) -> bool {
    r.1 matches Some(n) && r.0 <= lo && hi <= r.0 + n
}

/// The memory that is managed lies in the regions, above the kernel image and
/// below the device tree blob; and every whole page of a region between the
/// image and the guard below the blob is managed.
pub proof fn law_managed_memory(
    m: MmState,
    regions: Seq<(u64, Option<u64>)>,
    kernel_end: u64,
    fdt_addr: u64,
    addr: int,
)
    requires
        buddy::lists_ok(m.lists),
    ensures
        regions_added(m, regions, kernel_end, fdt_addr) matches Some(m1) ==> {
            let page = addr - addr % 4096;
            &&& buddy::lists_ok(m1.lists)
            &&& buddy::is_free(m.lists, addr) ==> buddy::is_free(m1.lists, addr)
            &&& buddy::is_free(m1.lists, addr) && !buddy::is_free(m.lists, addr) ==> {
                &&& kernel_end <= addr < fdt_addr
                &&& exists|j: int|
                    0 <= j < regions.len() && spans(#[trigger] regions[j], addr, addr + 1)
            }
            &&& kernel_end <= page && page + 4096 <= fdt_addr - fdt_addr as int % 0x40_0000 && (
            exists|j: int| 0 <= j < regions.len() && spans(#[trigger] regions[j], page, page + 4096))
                ==> buddy::is_free(m1.lists, addr)
        },
    decreases regions.len(),
{
    if regions.len() > 0 && regions_added(m, regions, kernel_end, fdt_addr) is Some {
        let (start, len) = regions[0];
        let size = match len {
            Some(n) => n,
            None => 0,
        };
        let rest = regions.drop_first();
        let (lo, hi) = usable(start, size, kernel_end, fdt_addr);
        let m1 = if size == 0 || lo >= hi {
            m
        } else {
            MmState {
                lists: buddy::region_lists(m.lists, lo, hi),
                free_pages: (m.free_pages + (hi - lo) / 4096) as u64,
                total_pages: (m.total_pages + (hi - lo) / 4096) as u64,
                ..m
            }
        };
        if size != 0 && lo < hi {
            lemma_apart(m.lists, lo, hi);
            buddy::law_region_freed(m.lists, lo, hi);
        }
        law_managed_memory(m1, rest, kernel_end, fdt_addr, addr);
        let m2 = regions_added(m, regions, kernel_end, fdt_addr)->0;
        assert(regions_added(m1, rest, kernel_end, fdt_addr) == Some(m2));
        let page = addr - addr % 4096;
        if buddy::is_free(m2.lists, addr) && !buddy::is_free(m.lists, addr) {
            if buddy::is_free(m1.lists, addr) {
                assert(lo <= addr < hi);
                assert(spans(regions[0], addr, addr + 1));
            } else {
                let j = choose|j: int|
                    0 <= j < rest.len() && spans(#[trigger] rest[j], addr, addr + 1);
                assert(regions[j + 1] == rest[j]);
                assert(spans(regions[j + 1], addr, addr + 1));
            }
        }
        if kernel_end <= page && page + 4096 <= fdt_addr - fdt_addr as int % 0x40_0000 && (exists|j: int|
            0 <= j < regions.len() && spans(#[trigger] regions[j], page, page + 4096)) {
            let j = choose|j: int|
                0 <= j < regions.len() && spans(#[trigger] regions[j], page, page + 4096);
            if j == 0 {
                assert(lo <= page && page + 4096 <= hi);
                assert(buddy::is_free(m1.lists, addr));
            } else {
                assert(rest[j - 1] == regions[j]);
                assert(spans(rest[j - 1], page, page + 4096));
            }
        }
    }
}

} // verus!
