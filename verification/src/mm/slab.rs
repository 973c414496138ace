//! Slab allocator for small kernel objects.
//!
//! Three size classes: 16 B (notifications), 32 B (endpoints) and 512 B
//! (thread control blocks). A slab is one buddy page divided into equal cells.
//! The free cells of a class form a stack.
use crate::mm::buddy::{self, BuddyAllocator, PA_LIMIT};
use vstd::prelude::*;

verus! {

/// Cell size of a class.
pub open spec fn cell_bytes(class: int) -> int {
    if class == 0 {
        16
    } else if class == 1 {
        32
    } else {
        512
    }
}

/// The smallest class whose cells hold `size` bytes, if any does.
pub open spec fn class_for(size: int) -> Option<int> {
    if size <= 16 {
        Some(0int)
    } else if size <= 32 {
        Some(1int)
    } else if size <= 512 {
        Some(2int)
    } else {
        None
    }
}

/// Cells of `cell` bytes in a page.
pub open spec fn per_page(cell: int) -> int {
    4096int / cell
}

/// The cells of a fresh page in stack order: the lowest address is on top.
pub open spec fn page_cells(page: int, cell: int) -> Seq<u64> {
    Seq::new(per_page(cell) as nat, |i: int| (page + (per_page(cell) - 1 - i) * cell) as u64)
}

/// The free cells of one size class.
pub struct SlabCache {
    /// Free cells; the next one to hand out is the last.
    pub cells: Vec<u64>,
    pub cell_size: u64,
}

impl SlabCache {
    pub open spec fn wf(&self) -> bool {
        &&& self.cell_size == 16 || self.cell_size == 32 || self.cell_size == 512
        &&& forall|i: int|
            0 <= i < self.cells@.len() ==> 0 < #[trigger] self.cells@[i] && self.cells@[i]
                + self.cell_size <= PA_LIMIT
    }

    fn new(cell_size: u64) -> (r: SlabCache)
        ensures
            r.cell_size == cell_size,
            r.cells@ == Seq::<u64>::empty(),
            cell_size == 16 || cell_size == 32 || cell_size == 512 ==> r.wf(),
    {
        SlabCache { cells: Vec::new(), cell_size }
    }

    /// Hand out a cell, taking a new page from `buddy` when none is free.
    fn allocate(&mut self, buddy: &mut BuddyAllocator) -> (r: Option<u64>)
        requires
            old(self).wf(),
            old(buddy).wf(),
        ensures
            final(self).wf(),
            final(self).cell_size == old(self).cell_size,
            final(buddy).wf(),
            r matches Some(pa) ==> 0 < pa && pa + old(self).cell_size <= PA_LIMIT,
            old(self).cells@.len() > 0 ==> {
                &&& r == Some(old(self).cells@.last())
                &&& final(self).cells@ == old(self).cells@.drop_last()
                &&& *final(buddy) == *old(buddy)
            },
            old(self).cells@.len() == 0 ==> {
                let l = old(buddy).lists();
                let found = buddy::first_fit(l, 0);
                if found > buddy::MAX_ORDER {
                    r is None && *final(self) == *old(self) && *final(buddy) == *old(buddy)
                } else {
                    let page = l[found as int].last();
                    &&& r == Some(page)
                    &&& final(self).cells@ == page_cells(
                        page as int,
                        old(self).cell_size as int,
                    ).drop_last()
                    &&& final(buddy).lists() == buddy::split_lists(l, 0, found)
                    &&& final(buddy).free_pages == old(buddy).free_pages - 1
                    &&& final(buddy).total_pages == old(buddy).total_pages
                }
            },
    {
        if self.cells.len() == 0 {
            if !self.grow(buddy) {
                return None;
            }
        }
        self.cells.pop()
    }

    /// Return a cell; it is the next one handed out.
    fn free(&mut self, pa: u64)
        requires
            old(self).wf(),
            0 < pa,
            pa + old(self).cell_size <= PA_LIMIT,
        ensures
            final(self).wf(),
            final(self).cells@ == old(self).cells@.push(pa),
            final(self).cell_size == old(self).cell_size,
    {
        self.cells.push(pa);
    }

    /// Fill the empty cache with the cells of a new page, the lowest on top.
    fn grow(&mut self, buddy: &mut BuddyAllocator) -> (r: bool)
        requires
            old(self).wf(),
            old(self).cells@.len() == 0,
            old(buddy).wf(),
        ensures
            final(self).wf(),
            final(self).cell_size == old(self).cell_size,
            final(buddy).wf(),
            ({
                let l = old(buddy).lists();
                let found = buddy::first_fit(l, 0);
                if found > buddy::MAX_ORDER {
                    !r && *final(self) == *old(self) && *final(buddy) == *old(buddy)
                } else {
                    let page = l[found as int].last();
                    &&& r
                    &&& final(self).cells@ == page_cells(page as int, old(self).cell_size as int)
                    &&& final(self).cells@.len() > 0
                    &&& final(self).cells@.last() == page
                    &&& final(buddy).lists() == buddy::split_lists(l, 0, found)
                    &&& final(buddy).free_pages == old(buddy).free_pages - 1
                    &&& final(buddy).total_pages == old(buddy).total_pages
                }
            }),
    {
        let page: u64 = match buddy.allocate(0) {
            Some(p) => p,
            None => {
                return false;
            },
        };
        let size: u64 = self.cell_size;
        let mut i: u64 = 4096 / size;
        proof {
            buddy::lemma_order_table(0);
        }
        while i > 0
            invariant
                size == 16 || size == 32 || size == 512,
                size == self.cell_size,
                i <= per_page(size as int),
                0 < page,
                page + 4096 <= PA_LIMIT,
                self.wf(),
                self.cells@.len() == per_page(size as int) - i,
                self.cells@ =~= page_cells(page as int, size as int).take(per_page(size as int) - i),
            decreases i,
        {
            i -= 1;
            assert(i * size <= 4096 - size && i * size >= 0) by (nonlinear_arith)
                requires
                    size == 16 || size == 32 || size == 512,
                    i < 4096int / (size as int),
            ;
            self.cells.push(page + i * size);
        }
        proof {
            assert(self.cells@ =~= page_cells(page as int, size as int));
            assert(0 * (size as int) == 0);
        }
        true
    }
}

/// The caches of all size classes.
pub struct Slabs {
    pub caches: [SlabCache; 3],
}

impl Slabs {
    pub open spec fn wf(&self) -> bool {
        forall|c: int|
            0 <= c < 3 ==> (#[trigger] self.caches[c]).wf() && self.caches[c].cell_size
                == cell_bytes(c)
    }

    /// The free cells of each class.
    pub open spec fn cells(&self) -> Seq<Seq<u64>> {
        Seq::new(3, |c: int| self.caches[c].cells@)
    }

    pub fn new() -> (r: Slabs)
        ensures
            r.wf(),
            r.cells() == Seq::new(3, |c: int| Seq::<u64>::empty()),
    {
        let r = Slabs { caches: [SlabCache::new(16), SlabCache::new(32), SlabCache::new(512)] };
        assert(r.cells() =~= Seq::new(3, |c: int| Seq::<u64>::empty()));
        r
    }
}

fn class_index(size: u64) -> (r: Option<usize>)
    ensures
        r matches Some(i) ==> class_for(size as int) == Some(i as int) && i < 3,
        r is None ==> class_for(size as int) is None,
{
    if size <= 16 {
        Some(0)
    } else if size <= 32 {
        Some(1)
    } else if size <= 512 {
        Some(2)
    } else {
        None
    }
}

/// Allocate a cell large enough for `size` bytes.
pub fn allocate(slabs: &mut Slabs, buddy: &mut BuddyAllocator, size: u64) -> (r: Option<u64>)
    requires
        old(slabs).wf(),
        old(buddy).wf(),
    ensures
        final(slabs).wf(),
        final(buddy).wf(),
        r matches Some(pa) ==> 0 < pa && pa + cell_bytes(class_for(size as int)->0)
            <= PA_LIMIT,
        ({
            let l = old(buddy).lists();
            let found = buddy::first_fit(l, 0);
            match class_for(size as int) {
                None => r is None && final(slabs).cells() == old(slabs).cells() && *final(buddy)
                    == *old(buddy),
                Some(c) => {
                    let free = old(slabs).cells()[c];
                    if free.len() > 0 {
                        &&& r == Some(free.last())
                        &&& final(slabs).cells() == old(slabs).cells().update(c, free.drop_last())
                        &&& *final(buddy) == *old(buddy)
                    } else if found > buddy::MAX_ORDER {
                        r is None && final(slabs).cells() == old(slabs).cells() && *final(buddy)
                            == *old(buddy)
                    } else {
                        let page = l[found as int].last();
                        &&& r == Some(page)
                        &&& final(slabs).cells() == old(slabs).cells().update(
                            c,
                            page_cells(page as int, cell_bytes(c)).drop_last(),
                        )
                        &&& final(buddy).lists() == buddy::split_lists(l, 0, found)
                        &&& final(buddy).free_pages == old(buddy).free_pages - 1
                        &&& final(buddy).total_pages == old(buddy).total_pages
                    }
                },
            }
        }),
{
    match class_index(size) {
        None => None,
        Some(i) => {
            let r = slabs.caches[i].allocate(buddy);
            proof {
                let c = i as int;
                assert(slabs.cells() =~= old(slabs).cells().update(c, slabs.caches[c].cells@));
                if slabs.caches[c].cells@ == old(slabs).caches[c].cells@ {
                    assert(slabs.cells() =~= old(slabs).cells());
                }
            }
            r
        },
    }
}

/// Return a cell to its cache. `size` must be the value passed to `allocate`.
pub fn free(slabs: &mut Slabs, pa: u64, size: u64)
    requires
        old(slabs).wf(),
        class_for(size as int) matches Some(c) ==> 0 < pa && pa + cell_bytes(c) <= PA_LIMIT,
    ensures
        final(slabs).wf(),
        match class_for(size as int) {
            None => final(slabs).cells() == old(slabs).cells(),
            Some(c) => final(slabs).cells() == old(slabs).cells().update(
                c,
                old(slabs).cells()[c].push(pa),
            ),
        },
{
    match class_index(size) {
        None => {},
        Some(i) => {
            slabs.caches[i].free(pa);
            assert(slabs.cells() =~= old(slabs).cells().update(
                i as int,
                old(slabs).cells()[i as int].push(pa),
            ));
        },
    }
}

} // verus!
