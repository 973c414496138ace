//! Memory in use: allocation never touches it.
use crate::kernel::{self, State};
use crate::mm::buddy;
use crate::mm::cells;
use crate::mm::slab;
use crate::mm::{self, MmState};
use crate::objects;
use vstd::prelude::*;

verus! {

/// The address `a` is in use: it lies in no free page and in no free cell.
pub open spec fn in_use(m: MmState, a: u64) -> bool {
    &&& !buddy::is_free(m.lists, a as int)
    &&& forall|c: int, i: int| #[trigger]
        cells::cell_listed(m, c, i) ==> !(m.cells[c][i] <= a < m.cells[c][i] + slab::cell_bytes(c))
}

/// What lies at `a` is the same in `s` and `t`, whatever it is but plain bytes
/// and page-table entries, and is in use in both.
pub open spec fn kept(s: State, t: State, a: u64) -> bool {
    &&& in_use(s.mm, a)
    &&& in_use(t.mm, a)
    &&& objects::at(t.caps, a) == objects::at(s.caps, a)
    &&& objects::at(t.tcbs, a) == objects::at(s.tcbs, a)
    &&& objects::at(t.endpoints, a) == objects::at(s.endpoints, a)
    &&& objects::at(t.notifications, a) == objects::at(s.notifications, a)
    &&& objects::at(t.inodes, a) == objects::at(s.inodes, a)
    &&& objects::at(t.dirents, a) == objects::at(s.dirents, a)
    &&& objects::at(t.fd_tables, a) == objects::at(s.fd_tables, a)
}

/// Pages that are handed out were not in use, and what is in use stays so.
pub proof fn lemma_pages_taken(m: MmState, order: nat, a: u64)
    requires
        cells::cells_ok(m),
        order <= buddy::MAX_ORDER,
        in_use(m, a),
    ensures
        ({
            let (m1, page) = mm::pages_taken(m, order);
            &&& cells::cells_ok(m1)
            &&& in_use(m1, a)
            &&& m1.cells == m.cells
            &&& page matches Some(pa) ==> {
                &&& !(pa <= a < pa + buddy::block_bytes(order))
                &&& pa + buddy::block_bytes(order) <= buddy::PA_LIMIT
                &&& pa > 0
                &&& pa % (buddy::block_bytes(order) as u64) == 0
                &&& forall|x: int|
                    pa <= x < pa + buddy::block_bytes(order) ==> !#[trigger] buddy::is_free(
                        m1.lists,
                        x,
                    ) && buddy::is_free(m.lists, x)
            }
        }),
{
    let l = m.lists;
    let found = buddy::first_fit(l, order);
    buddy::lemma_first_fit(l, order);
    let (m1, page) = mm::pages_taken(m, order);
    if found <= buddy::MAX_ORDER {
        buddy::lemma_split(l, order, found);
        let pa = l[found as int].last() as int;
        buddy::lemma_order_table(order);
        assert forall|x: int| pa <= x < pa + buddy::block_bytes(order) implies !#[trigger] buddy::is_free(
            m1.lists,
            x,
        ) && buddy::is_free(l, x) by {
            assert(buddy::in_block(pa, order, x));
            if buddy::is_free(m1.lists, x) {
                let (o, i) = choose|o: int, i: int| buddy::covers(m1.lists, o, i, x);
                assert(buddy::listed(m1.lists, o, i));
                assert(buddy::disjoint(m1.lists[o][i] as int, o as nat, pa, order));
            }
        }
        if buddy::is_free(m1.lists, a as int) {
            assert(buddy::is_free(l, a as int));
        }
        if pa <= a < pa + buddy::block_bytes(order) {
            assert(buddy::is_free(l, a as int));
        }
        assert forall|c: int, i: int| #[trigger]
            cells::cell_listed(m1, c, i) implies cells::cell_in_use(m1, m1.cells[c][i] as int, c) by {
            assert(cells::cell_listed(m, c, i));
            assert(cells::cell_in_use(m, m.cells[c][i] as int, c));
            assert forall|x: int|
                m1.cells[c][i] <= x < m1.cells[c][i] + slab::cell_bytes(c) implies !#[trigger] buddy::is_free(
                m1.lists,
                x,
            ) by {
                assert(!buddy::is_free(l, x));
            }
        }
        assert forall|c: int, i: int, d: int, j: int|
            #![trigger cells::cell_listed(m1, c, i), cells::cell_listed(m1, d, j)]
            cells::cell_listed(m1, c, i) && cells::cell_listed(m1, d, j) && !(c == d && i == j) implies cells::cells_apart(
            m1.cells[c][i] as int,
            c,
            m1.cells[d][j] as int,
            d,
        ) by {
            assert(cells::cell_listed(m, c, i) && cells::cell_listed(m, d, j));
        }
        assert forall|c: int, i: int| #[trigger] cells::cell_listed(m1, c, i) implies !(
        m1.cells[c][i] <= a < m1.cells[c][i] + slab::cell_bytes(c)) by {
            assert(cells::cell_listed(m, c, i));
        }
    }
}

/// A cell that is handed out was not in use, and what is in use stays so.
pub proof fn lemma_cell_taken(m: MmState, size: int, a: u64)
    requires
        cells::cells_ok(m),
        in_use(m, a),
    ensures
        mm::cell_taken(m, size) matches (m1, Some(pa)) ==> {
            &&& cells::cells_ok(m1)
            &&& in_use(m1, a)
            &&& !(pa <= a < pa + slab::cell_bytes(slab::class_for(size)->0))
            &&& in_use(m1, pa)
        },
{
    cells::law_cells_apart(m, size);
    let (m1, taken) = mm::cell_taken(m, size);
    if let Some(class) = slab::class_for(size) {
        if let Some(pa) = taken {
            let free = m.cells[class];
            if free.len() > 0 {
                assert(cells::cell_listed(m, class, free.len() - 1));
                assert forall|c: int, i: int| #[trigger] cells::cell_listed(m1, c, i) implies !(
                m1.cells[c][i] <= a < m1.cells[c][i] + slab::cell_bytes(c)) by {
                    assert(cells::cell_listed(m, c, i) && m1.cells[c][i] == m.cells[c][i]);
                }
            } else {
                lemma_pages_taken(m, 0, a);
                buddy::lemma_order_table(0);
                let (m0, page) = mm::pages_taken(m, 0);
                let fresh = slab::page_cells(pa as int, slab::cell_bytes(class)).drop_last();
                assert forall|c: int, i: int| #[trigger] cells::cell_listed(m1, c, i) implies !(
                m1.cells[c][i] <= a < m1.cells[c][i] + slab::cell_bytes(c)) by {
                    if c == class {
                        cells::lemma_page_cell(pa as int, class, i);
                    } else {
                        assert(cells::cell_listed(m, c, i));
                    }
                }
            }
            assert(cells::cell_in_use(m1, pa as int, class));
            assert(!buddy::is_free(m1.lists, pa as int));
            assert forall|c: int, i: int| #[trigger] cells::cell_listed(m1, c, i) implies !(
            m1.cells[c][i] <= pa < m1.cells[c][i] + slab::cell_bytes(c)) by {
                assert(cells::cells_apart(pa as int, class, m1.cells[c][i] as int, c));
            }
        }
    }
}

/// Taking a page keeps what is in use, and the page itself is in use then.
pub proof fn lemma_page_made_keeps(s: State, a: u64)
    requires
        cells::cells_ok(s.mm),
        in_use(s.mm, a),
    ensures
        ({
            let (s1, page) = kernel::page_made(s);
            &&& kept(s, s1, a)
            &&& cells::cells_ok(s1.mm)
            &&& objects::at(s1.bytes, a) == objects::at(s.bytes, a)
            &&& objects::at(s1.ptes, a) == objects::at(s.ptes, a)
            &&& objects::at(s1.untypeds, a) == objects::at(s.untypeds, a)
            &&& page matches Some(pa) ==> pa != 0 && pa != a && !(pa <= a < pa + 4096) && pa + 4096
                <= buddy::PA_LIMIT && in_use(s1.mm, pa)
        }),
{
    lemma_pages_taken(s.mm, 0, a);
    buddy::lemma_order_table(0);
    let (m, page) = mm::pages_taken(s.mm, 0);
    if let Some(pa) = page {
        assert(buddy::block_bytes(0) == 4096);
        assert(!buddy::is_free(m.lists, pa as int));
        assert forall|c: int, i: int| #[trigger] cells::cell_listed(m, c, i) implies !(m.cells[c][i]
            <= pa < m.cells[c][i] + slab::cell_bytes(c)) by {
            assert(cells::cell_listed(s.mm, c, i));
            assert(cells::cell_in_use(s.mm, s.mm.cells[c][i] as int, c));
            assert(buddy::is_free(s.mm.lists, pa as int));
        }
    }
}

} // verus!
