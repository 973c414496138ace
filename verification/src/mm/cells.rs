//! Slab cells: no two of them overlap, and none overlaps free pages.
use crate::mm::buddy;
use crate::mm::slab;
use crate::mm::{self, MmState};
use vstd::prelude::*;

verus! {

/// `(c, i)` names a free cell.
pub open spec fn cell_listed(m: MmState, c: int, i: int) -> bool {
    0 <= c < 3 && 0 <= i < m.cells[c].len()
}

/// The cells of class `c` at `x` and of class `d` at `y` do not overlap.
pub open spec fn cells_apart(x: int, c: int, y: int, d: int) -> bool {
    x + slab::cell_bytes(c) <= y || y + slab::cell_bytes(d) <= x
}

/// The cell of class `c` at `x` holds no free page.
pub open spec fn cell_in_use(m: MmState, x: int, c: int) -> bool {
    forall|a: int| x <= a < x + slab::cell_bytes(c) ==> !#[trigger] buddy::is_free(m.lists, a)
}

/// Free cells lie outside free pages and do not overlap.
pub open spec fn cells_ok(m: MmState) -> bool {
    &&& buddy::lists_ok(m.lists)
    &&& m.cells.len() == 3
    &&& forall|c: int, i: int| #[trigger]
        cell_listed(m, c, i) ==> cell_in_use(m, m.cells[c][i] as int, c)
    &&& forall|c: int, i: int, d: int, j: int|
        #![trigger cell_listed(m, c, i), cell_listed(m, d, j)]
        cell_listed(m, c, i) && cell_listed(m, d, j) && !(c == d && i == j) ==> cells_apart(
            m.cells[c][i] as int,
            c,
            m.cells[d][j] as int,
            d,
        )
}

/// The cells of a page, in stack order.
pub proof fn lemma_page_cell(page: int, c: int, i: int)
    requires
        0 <= c < 3,
        0 <= page,
        page + 4096 <= u64::MAX,
        0 <= i < slab::per_page(slab::cell_bytes(c)),
    ensures
        ({
            let cell = slab::cell_bytes(c);
            let n = slab::per_page(cell);
            &&& n * cell == 4096
            &&& slab::page_cells(page, cell).len() == n
            &&& slab::page_cells(page, cell)[i] == page + (n - 1 - i) * cell
            &&& page <= page + (n - 1 - i) * cell
            &&& page + (n - 1 - i) * cell + cell <= page + 4096
        }),
{
    let cell = slab::cell_bytes(c);
    let n = slab::per_page(cell);
    assert(n == 256 || n == 128 || n == 8);
    assert(n * cell == 4096);
    assert(0 <= (n - 1 - i) * cell && (n - 1 - i) * cell + cell <= n * cell) by (nonlinear_arith)
        requires
            0 <= i < n,
            cell > 0,
    ;
}

/// A cell that is handed out overlaps no free cell and no free page, and the
/// free cells stay apart.
pub proof fn law_cells_apart(m: MmState, size: int)
    requires
        cells_ok(m),
    ensures
        mm::cell_taken(m, size) matches (m1, Some(pa)) ==> {
            let class = slab::class_for(size)->0;
            &&& cells_ok(m1)
            &&& size <= slab::cell_bytes(class)
            &&& cell_in_use(m1, pa as int, class)
            &&& forall|c: int, i: int| #[trigger]
                cell_listed(m1, c, i) ==> cells_apart(pa as int, class, m1.cells[c][i] as int, c)
        },
{
    if let Some(class) = slab::class_for(size) {
        let (m1, taken) = mm::cell_taken(m, size);
        let free = m.cells[class];
        if free.len() > 0 {
            assert(cell_listed(m, class, free.len() - 1));
            assert forall|c: int, i: int| #[trigger]
                cell_listed(m1, c, i) implies cell_listed(m, c, i) && m1.cells[c][i]
                == m.cells[c][i] && !(c == class && i == free.len() - 1) by {}
            assert forall|c: int, i: int, d: int, j: int|
                #![trigger cell_listed(m1, c, i), cell_listed(m1, d, j)]
                cell_listed(m1, c, i) && cell_listed(m1, d, j) && !(c == d && i == j) implies cells_apart(
                m1.cells[c][i] as int,
                c,
                m1.cells[d][j] as int,
                d,
            ) by {
                assert(cell_listed(m, c, i) && cell_listed(m, d, j));
            }
        } else {
            let found = buddy::first_fit(m.lists, 0);
            buddy::lemma_first_fit(m.lists, 0);
            if found <= buddy::MAX_ORDER {
                lemma_fresh_cells(m, class);
            }
        }
    }
}

/// The case of a fresh page.
proof fn lemma_fresh_cells(m: MmState, class: int)
    requires
        cells_ok(m),
        0 <= class < 3,
        m.cells[class].len() == 0,
        buddy::first_fit(m.lists, 0) <= buddy::MAX_ORDER,
    ensures
        ({
            let (m0, page) = mm::pages_taken(m, 0);
            let pa = page->0;
            let fresh = slab::page_cells(pa as int, slab::cell_bytes(class)).drop_last();
            let m1 = MmState { cells: m0.cells.update(class, fresh), ..m0 };
            &&& cells_ok(m1)
            &&& cell_in_use(m1, pa as int, class)
            &&& forall|c: int, i: int| #[trigger]
                cell_listed(m1, c, i) ==> cells_apart(pa as int, class, m1.cells[c][i] as int, c)
        }),
{
    let l = m.lists;
    let found = buddy::first_fit(l, 0);
    buddy::lemma_first_fit(l, 0);
    buddy::lemma_split(l, 0, found);
    assert(buddy::block_bytes(0) == 4096);
    let (m0, page) = mm::pages_taken(m, 0);
    let pa = page->0;
    let cell = slab::cell_bytes(class);
    let n = slab::per_page(cell);
    let fresh = slab::page_cells(pa as int, cell).drop_last();
    let m1 = MmState { cells: m0.cells.update(class, fresh), ..m0 };
    lemma_page_cell(pa as int, class, 0);
    lemma_page_cell(pa as int, class, n - 1);
    assert forall|a: int| pa <= a < pa + 4096 implies buddy::is_free(l, a) && !#[trigger] buddy::is_free(
        m1.lists,
        a,
    ) by {
        assert(buddy::in_block(pa as int, 0, a));
        assert(buddy::is_free(l, a));
        if buddy::is_free(m1.lists, a) {
            let (o, i) = choose|o: int, i: int| buddy::covers(m1.lists, o, i, a);
            assert(buddy::listed(m1.lists, o, i));
            assert(buddy::disjoint(m1.lists[o][i] as int, o as nat, pa as int, 0));
        }
    }
    assert forall|c: int, i: int| #[trigger] cell_listed(m1, c, i) implies cell_in_use(
        m1,
        m1.cells[c][i] as int,
        c,
    ) && cells_apart(pa as int, class, m1.cells[c][i] as int, c) by {
        if c == class {
            lemma_page_cell(pa as int, class, i);
            assert((n - 1 - i) * cell >= cell) by (nonlinear_arith)
                requires
                    i < n - 1,
                    cell > 0,
            ;
        } else {
            assert(cell_listed(m, c, i));
            let x = m.cells[c][i] as int;
            assert(cell_in_use(m, x, c));
            assert forall|a: int| x <= a < x + slab::cell_bytes(c) implies !#[trigger] buddy::is_free(
                m1.lists,
                a,
            ) by {
                assert(!buddy::is_free(l, a));
            }
            lemma_in_use_apart(m, x, c, pa as int);
        }
    }
    assert forall|c: int, i: int, d: int, j: int|
        #![trigger cell_listed(m1, c, i), cell_listed(m1, d, j)]
        cell_listed(m1, c, i) && cell_listed(m1, d, j) && !(c == d && i == j) implies cells_apart(
        m1.cells[c][i] as int,
        c,
        m1.cells[d][j] as int,
        d,
    ) by {
        if c == class && d == class {
            lemma_page_cell(pa as int, class, i);
            lemma_page_cell(pa as int, class, j);
            assert(i < j ==> (n - 1 - j) * cell + cell <= (n - 1 - i) * cell) by (nonlinear_arith)
                requires
                    cell > 0,
            ;
            assert(j < i ==> (n - 1 - i) * cell + cell <= (n - 1 - j) * cell) by (nonlinear_arith)
                requires
                    cell > 0,
            ;
        } else if c == class {
            lemma_page_cell(pa as int, class, i);
            assert(cell_listed(m, d, j));
            lemma_in_use_apart(m, m.cells[d][j] as int, d, pa as int);
        } else if d == class {
            lemma_page_cell(pa as int, class, j);
            assert(cell_listed(m, c, i));
            lemma_in_use_apart(m, m.cells[c][i] as int, c, pa as int);
        } else {
            assert(cell_listed(m, c, i) && cell_listed(m, d, j));
        }
    }
}

/// A cell in use does not reach into a free page.
proof fn lemma_in_use_apart(m: MmState, x: int, c: int, page: int)
    requires
        cell_in_use(m, x, c),
        forall|a: int| page <= a < page + 4096 ==> buddy::is_free(m.lists, a),
    ensures
        x + slab::cell_bytes(c) <= page || page + 4096 <= x,
{
    if page <= x < page + 4096 {
        assert(buddy::is_free(m.lists, x));
    }
    if x <= page < x + slab::cell_bytes(c) {
        assert(buddy::is_free(m.lists, page));
    }
}

} // verus!
