//! Buddy physical-page allocator.
//!
//! Manages physical RAM as 4 KiB pages organised into power-of-two orders
//! (order 0 is one page, order `MAX_ORDER` is `2^MAX_ORDER` pages). Each order
//! has a free list that is used as a stack: a freed block goes on top and the
//! next allocation takes it from there.
use vstd::prelude::*;

verus! {

pub const PAGE_SIZE: u64 = 4096;

pub const _PAGE_SHIFT: usize = 12;

/// Largest order: 4 KiB * 2^18 = 1 GiB.
pub const MAX_ORDER: usize = 18;

/// Physical addresses have 56 bits.
pub const PA_LIMIT: u64 = 0x100_0000_0000_0000;

/// Number of pages in a block of the given order.
pub open spec fn order_pages(order: nat) -> nat
    decreases order,
{
    if order == 0 {
        1
    } else {
        2 * order_pages((order - 1) as nat)
    }
}

/// Number of bytes in a block of the given order.
pub open spec fn block_bytes(order: nat) -> int {
    (4096 * order_pages(order)) as int
}

/// The two blocks of an order that together make one block of the next order
/// are each other's buddies.
pub open spec fn buddy_of(pa: int, order: nat) -> int {
    if pa % (2 * block_bytes(order)) == 0 {
        pa + block_bytes(order)
    } else {
        pa - block_bytes(order)
    }
}

/// `addr` lies in the block of `order` that starts at `pa`.
pub open spec fn in_block(pa: int, order: nat, addr: int) -> bool {
    pa <= addr < pa + block_bytes(order)
}

pub open spec fn disjoint(pa1: int, o1: nat, pa2: int, o2: nat) -> bool {
    pa1 + block_bytes(o1) <= pa2 || pa2 + block_bytes(o2) <= pa1
}

/// A block that a list of the given order may hold.
pub open spec fn is_block(pa: int, order: nat) -> bool {
    &&& order <= MAX_ORDER
    &&& 0 < pa
    &&& pa % block_bytes(order) == 0
    &&& pa + block_bytes(order) <= PA_LIMIT
}

/// The free lists, one per order, each with its top at the end.
pub type FreeLists = Seq<Seq<u64>>;

/// `(o, i)` names a block on a free list.
pub open spec fn listed(l: FreeLists, o: int, i: int) -> bool {
    0 <= o < l.len() && 0 <= i < l[o].len()
}

/// The block at position `i` of the list of order `o` covers `addr`.
pub open spec fn covers(l: FreeLists, o: int, i: int, addr: int) -> bool {
    listed(l, o, i) && in_block(l[o][i] as int, o as nat, addr)
}

/// `addr` lies in some free block.
pub open spec fn is_free(l: FreeLists, addr: int) -> bool {
    exists|o: int, i: int| covers(l, o, i, addr)
}

/// No listed block overlaps the block of `order` at `pa`.
pub open spec fn block_apart(l: FreeLists, pa: int, order: nat) -> bool {
    forall|o: int, i: int| #[trigger]
        listed(l, o, i) ==> disjoint(l[o][i] as int, o as nat, pa, order)
}

/// The listed blocks are well placed and no two of them overlap.
pub open spec fn lists_ok(l: FreeLists) -> bool {
    &&& l.len() == MAX_ORDER + 1
    &&& forall|o: int, i: int| #[trigger] listed(l, o, i) ==> is_block(l[o][i] as int, o as nat)
    &&& forall|o1: int, i1: int, o2: int, i2: int|
        #![trigger listed(l, o1, i1), listed(l, o2, i2)]
        listed(l, o1, i1) && listed(l, o2, i2) && !(o1 == o2 && i1 == i2) ==> disjoint(
            l[o1][i1] as int,
            o1 as nat,
            l[o2][i2] as int,
            o2 as nat,
        )
}

/// Pages on the lists of orders below `n`.
pub open spec fn pages_below(l: FreeLists, n: nat) -> nat
    decreases n,
{
    if n == 0 {
        0
    } else {
        pages_below(l, (n - 1) as nat) + l[n - 1].len() * order_pages((n - 1) as nat)
    }
}

/// The smallest order from `order` up whose list holds a block, or
/// `MAX_ORDER + 1` when there is none.
pub open spec fn first_fit(l: FreeLists, order: nat) -> nat
    decreases MAX_ORDER + 1 - order,
{
    if order > MAX_ORDER {
        (MAX_ORDER + 1) as nat
    } else if l[order as int].len() > 0 {
        order
    } else {
        first_fit(l, order + 1)
    }
}

/// Taking the top block of order `found` and splitting it down to `order`
/// lists the upper half of every split.
pub open spec fn split_lists(l: FreeLists, order: nat, found: nat) -> FreeLists {
    let pa = l[found as int].last();
    Seq::new(
        l.len(),
        |o: int|
            if o == found {
                l[o].drop_last()
            } else if order <= o < found {
                l[o].push((pa + block_bytes(o as nat)) as u64)
            } else {
                l[o]
            },
    )
}

/// Listing a block, after merging it with its buddy for as long as the buddy
/// is listed.
pub open spec fn merge_lists(l: FreeLists, pa: int, order: nat) -> FreeLists
    decreases MAX_ORDER - order,
{
    let list = l[order as int];
    let buddy = buddy_of(pa, order);
    if order < MAX_ORDER && list.contains(buddy as u64) {
        let rest = l.update(order as int, list.remove(list.index_of(buddy as u64)));
        merge_lists(rest, if pa < buddy { pa } else { buddy }, order + 1)
    } else {
        l.update(order as int, list.push(pa as u64))
    }
}

/// The largest order up to `o` at which `start` is aligned and the block still
/// ends by `end`.
pub open spec fn fit_order(start: int, end: int, o: nat) -> nat
    decreases o,
{
    if o == 0 || (start % block_bytes(o) == 0 && start + block_bytes(o) <= end) {
        o
    } else {
        fit_order(start, end, (o - 1) as nat)
    }
}

/// Listing `[start, end)` as a run of blocks, each the largest that fits.
pub open spec fn region_lists(l: FreeLists, start: int, end: int) -> FreeLists
    decreases
            (if start < end {
                end - start
            } else {
                0
            }),
{
    if start >= end {
        l
    } else {
        let o = fit_order(start, end, MAX_ORDER as nat);
        proof {
            lemma_order_positive(o);
        }
        region_lists(
            l.update(o as int, l[o as int].push(start as u64)),
            start + block_bytes(o),
            end,
        )
    }
}

pub proof fn lemma_order_positive(order: nat)
    ensures
        order_pages(order) >= 1,
        block_bytes(order) >= 4096,
    decreases order,
{
    if order > 0 {
        lemma_order_positive((order - 1) as nat);
    }
}

/// The block sizes of all orders in use.
pub proof fn lemma_order_table(order: nat)
    requires
        order <= MAX_ORDER,
    ensures
        order_pages(order) == (1u64 << order as usize),
        block_bytes(order) == (PAGE_SIZE << order as usize),
        1 <= order_pages(order) <= 0x4_0000,
        order == 0 ==> order_pages(order) == 1,
        order == 1 ==> order_pages(order) == 2,
        order == 2 ==> order_pages(order) == 4,
        order == 3 ==> order_pages(order) == 8,
        order == 4 ==> order_pages(order) == 16,
        order == 5 ==> order_pages(order) == 32,
        order == 6 ==> order_pages(order) == 64,
        order == 7 ==> order_pages(order) == 128,
        order == 8 ==> order_pages(order) == 256,
        order == 9 ==> order_pages(order) == 512,
        order == 10 ==> order_pages(order) == 1024,
        order == 11 ==> order_pages(order) == 2048,
        order == 12 ==> order_pages(order) == 4096,
        order == 13 ==> order_pages(order) == 8192,
        order == 14 ==> order_pages(order) == 16384,
        order == 15 ==> order_pages(order) == 32768,
        order == 16 ==> order_pages(order) == 65536,
        order == 17 ==> order_pages(order) == 131072,
        order == 18 ==> order_pages(order) == 262144,
{
    reveal_with_fuel(order_pages, 19);
    lemma_shift_table(order as usize);
}

proof fn lemma_shift_table(k: usize)
    by (bit_vector)
    ensures
        k == 0 ==> 1u64 << k == 1 && 4096u64 << k == 4096,
        k == 1 ==> 1u64 << k == 2 && 4096u64 << k == 8192,
        k == 2 ==> 1u64 << k == 4 && 4096u64 << k == 16384,
        k == 3 ==> 1u64 << k == 8 && 4096u64 << k == 32768,
        k == 4 ==> 1u64 << k == 16 && 4096u64 << k == 65536,
        k == 5 ==> 1u64 << k == 32 && 4096u64 << k == 131072,
        k == 6 ==> 1u64 << k == 64 && 4096u64 << k == 262144,
        k == 7 ==> 1u64 << k == 128 && 4096u64 << k == 524288,
        k == 8 ==> 1u64 << k == 256 && 4096u64 << k == 1048576,
        k == 9 ==> 1u64 << k == 512 && 4096u64 << k == 2097152,
        k == 10 ==> 1u64 << k == 1024 && 4096u64 << k == 4194304,
        k == 11 ==> 1u64 << k == 2048 && 4096u64 << k == 8388608,
        k == 12 ==> 1u64 << k == 4096 && 4096u64 << k == 16777216,
        k == 13 ==> 1u64 << k == 8192 && 4096u64 << k == 33554432,
        k == 14 ==> 1u64 << k == 16384 && 4096u64 << k == 67108864,
        k == 15 ==> 1u64 << k == 32768 && 4096u64 << k == 134217728,
        k == 16 ==> 1u64 << k == 65536 && 4096u64 << k == 268435456,
        k == 17 ==> 1u64 << k == 131072 && 4096u64 << k == 536870912,
        k == 18 ==> 1u64 << k == 262144 && 4096u64 << k == 1073741824,
{
}

proof fn lemma_mod_table(pa: u64)
    by (bit_vector)
    ensures
        pa % 4096 == pa & 4095,
        pa % 8192 == pa & 8191,
        pa % 16384 == pa & 16383,
        pa % 32768 == pa & 32767,
        pa % 65536 == pa & 65535,
        pa % 131072 == pa & 131071,
        pa % 262144 == pa & 262143,
        pa % 524288 == pa & 524287,
        pa % 1048576 == pa & 1048575,
        pa % 2097152 == pa & 2097151,
        pa % 4194304 == pa & 4194303,
        pa % 8388608 == pa & 8388607,
        pa % 16777216 == pa & 16777215,
        pa % 33554432 == pa & 33554431,
        pa % 67108864 == pa & 67108863,
        pa % 134217728 == pa & 134217727,
        pa % 268435456 == pa & 268435455,
        pa % 536870912 == pa & 536870911,
        pa % 1073741824 == pa & 1073741823,
{
}

/// Flipping one bit adds or subtracts it.
proof fn lemma_xor_bit(pa: u64, bit: u64)
    by (bit_vector)
    requires
        bit == 4096 || bit == 8192 || bit == 16384 || bit == 32768 || bit == 65536 || bit == 131072
            || bit == 262144 || bit == 524288 || bit == 1048576 || bit == 2097152 || bit == 4194304
            || bit == 8388608 || bit == 16777216 || bit == 33554432 || bit == 67108864 || bit
            == 134217728 || bit == 268435456 || bit == 536870912,
    ensures
        pa & bit == 0 ==> pa ^ bit == pa + bit,
        pa & bit != 0 ==> pa ^ bit == pa - bit,
{
}

proof fn lemma_bit_table(pa: u64)
    by (bit_vector)
    ensures
        pa & 8191 == 0 ==> pa & 4096 == 0,
        pa & 4095 == 0 && pa & 8191 != 0 ==> pa & 4096 != 0,
        pa & 16383 == 0 ==> pa & 8192 == 0,
        pa & 8191 == 0 && pa & 16383 != 0 ==> pa & 8192 != 0,
        pa & 32767 == 0 ==> pa & 16384 == 0,
        pa & 16383 == 0 && pa & 32767 != 0 ==> pa & 16384 != 0,
        pa & 65535 == 0 ==> pa & 32768 == 0,
        pa & 32767 == 0 && pa & 65535 != 0 ==> pa & 32768 != 0,
        pa & 131071 == 0 ==> pa & 65536 == 0,
        pa & 65535 == 0 && pa & 131071 != 0 ==> pa & 65536 != 0,
        pa & 262143 == 0 ==> pa & 131072 == 0,
        pa & 131071 == 0 && pa & 262143 != 0 ==> pa & 131072 != 0,
        pa & 524287 == 0 ==> pa & 262144 == 0,
        pa & 262143 == 0 && pa & 524287 != 0 ==> pa & 262144 != 0,
        pa & 1048575 == 0 ==> pa & 524288 == 0,
        pa & 524287 == 0 && pa & 1048575 != 0 ==> pa & 524288 != 0,
        pa & 2097151 == 0 ==> pa & 1048576 == 0,
        pa & 1048575 == 0 && pa & 2097151 != 0 ==> pa & 1048576 != 0,
        pa & 4194303 == 0 ==> pa & 2097152 == 0,
        pa & 2097151 == 0 && pa & 4194303 != 0 ==> pa & 2097152 != 0,
        pa & 8388607 == 0 ==> pa & 4194304 == 0,
        pa & 4194303 == 0 && pa & 8388607 != 0 ==> pa & 4194304 != 0,
        pa & 16777215 == 0 ==> pa & 8388608 == 0,
        pa & 8388607 == 0 && pa & 16777215 != 0 ==> pa & 8388608 != 0,
        pa & 33554431 == 0 ==> pa & 16777216 == 0,
        pa & 16777215 == 0 && pa & 33554431 != 0 ==> pa & 16777216 != 0,
        pa & 67108863 == 0 ==> pa & 33554432 == 0,
        pa & 33554431 == 0 && pa & 67108863 != 0 ==> pa & 33554432 != 0,
        pa & 134217727 == 0 ==> pa & 67108864 == 0,
        pa & 67108863 == 0 && pa & 134217727 != 0 ==> pa & 67108864 != 0,
        pa & 268435455 == 0 ==> pa & 134217728 == 0,
        pa & 134217727 == 0 && pa & 268435455 != 0 ==> pa & 134217728 != 0,
        pa & 536870911 == 0 ==> pa & 268435456 == 0,
        pa & 268435455 == 0 && pa & 536870911 != 0 ==> pa & 268435456 != 0,
        pa & 1073741823 == 0 ==> pa & 536870912 == 0,
        pa & 536870911 == 0 && pa & 1073741823 != 0 ==> pa & 536870912 != 0,
{
}

/// Flipping the size bit of an aligned address gives the buddy's address.
proof fn lemma_buddy_xor(pa: u64, order: nat)
    requires
        order < MAX_ORDER,
        pa as int % block_bytes(order) == 0,
    ensures
        (pa ^ (PAGE_SIZE << order as usize)) == buddy_of(pa as int, order),
{
    lemma_order_table(order);
    lemma_mod_table(pa);
    lemma_bit_table(pa);
    lemma_xor_bit(pa, PAGE_SIZE << order as usize);
}

/// An address aligned to `2 * s` is aligned to `s`; one aligned to `s` only is
/// `s` above one aligned to `2 * s`.
proof fn lemma_halves(pa: int, s: int)
    requires
        s > 0,
    ensures
        pa % (2 * s) == 0 ==> pa % s == 0 && (pa + s) % s == 0,
        pa % s == 0 && pa % (2 * s) != 0 ==> (pa - s) % (2 * s) == 0,
{
    if pa % (2 * s) == 0 {
        let q = pa / (2 * s);
        vstd::arithmetic::div_mod::lemma_fundamental_div_mod(pa, 2 * s);
        assert(pa == (2 * q) * s) by (nonlinear_arith)
            requires
                pa == (2 * s) * q + 0,
        ;
        assert(pa + s == (2 * q + 1) * s) by (nonlinear_arith)
            requires
                pa == (2 * q) * s,
        ;
        vstd::arithmetic::div_mod::lemma_mod_multiples_basic(2 * q, s);
        vstd::arithmetic::div_mod::lemma_mod_multiples_basic(2 * q + 1, s);
    } else if pa % s == 0 {
        let k = pa / s;
        vstd::arithmetic::div_mod::lemma_fundamental_div_mod(pa, s);
        let h = k / 2;
        if k % 2 == 0 {
            assert(pa == h * (2 * s)) by (nonlinear_arith)
                requires
                    pa == s * k + 0,
                    k == 2 * h,
            ;
            vstd::arithmetic::div_mod::lemma_mod_multiples_basic(h, 2 * s);
        } else {
            assert(pa - s == h * (2 * s)) by (nonlinear_arith)
                requires
                    pa == s * k + 0,
                    k == 2 * h + 1,
            ;
            vstd::arithmetic::div_mod::lemma_mod_multiples_basic(h, 2 * s);
        }
    }
}

/// A block and its buddy make one block of the next order, at the lower of the
/// two addresses.
proof fn lemma_merge_shape(pa: int, order: nat)
    requires
        order < MAX_ORDER,
        pa % block_bytes(order) == 0,
    ensures
        block_bytes(order + 1) == 2 * block_bytes(order),
        ({
            let b = buddy_of(pa, order);
            let low = if pa < b { pa } else { b };
            low % block_bytes(order + 1) == 0 && (pa == low || pa == low + block_bytes(order)) && (b
                == low || b == low + block_bytes(order)) && pa != b
        }),
{
    lemma_order_positive(order);
    lemma_halves(pa, block_bytes(order));
}

/// The lower half of a block is a block of the order below, and so is the upper.
proof fn lemma_split_shape(pa: int, order: nat)
    requires
        0 < order <= MAX_ORDER,
        pa % block_bytes(order) == 0,
    ensures
        block_bytes(order) == 2 * block_bytes((order - 1) as nat),
        pa % block_bytes((order - 1) as nat) == 0,
        (pa + block_bytes((order - 1) as nat)) % block_bytes((order - 1) as nat) == 0,
{
    lemma_order_positive((order - 1) as nat);
    lemma_halves(pa, block_bytes((order - 1) as nat));
}

proof fn lemma_pages_update(l: FreeLists, o: int, list: Seq<u64>, n: nat)
    requires
        0 <= o < l.len(),
        n <= l.len(),
    ensures
        o < n ==> pages_below(l.update(o, list), n) == pages_below(l, n) + (list.len() as int
            - l[o].len() as int) * order_pages(o as nat),
        o >= n ==> pages_below(l.update(o, list), n) == pages_below(l, n),
    decreases n,
{
    if n > 0 {
        lemma_pages_update(l, o, list, (n - 1) as nat);
        if o == n - 1 {
            let a = list.len() as int;
            let b = l[o].len() as int;
            let p = order_pages(o as nat) as int;
            assert(a * p == b * p + (a - b) * p) by (nonlinear_arith);
        }
    }
}

/// Listing a block that no listed block overlaps.
proof fn lemma_push(l: FreeLists, pa: u64, order: nat)
    requires
        lists_ok(l),
        is_block(pa as int, order),
        block_apart(l, pa as int, order),
    ensures
        lists_ok(l.update(order as int, l[order as int].push(pa))),
        pages_below(l.update(order as int, l[order as int].push(pa)), (MAX_ORDER + 1) as nat)
            == pages_below(l, (MAX_ORDER + 1) as nat) + order_pages(order),
        forall|addr: int| #[trigger]
            is_free(l.update(order as int, l[order as int].push(pa)), addr) <==> is_free(l, addr)
                || in_block(pa as int, order, addr),
        forall|q: int, qo: nat| #[trigger]
            block_apart(l.update(order as int, l[order as int].push(pa)), q, qo) <== block_apart(
                l,
                q,
                qo,
            ) && disjoint(pa as int, order, q, qo),
{
    let o = order as int;
    let m = l.update(o, l[o].push(pa));
    assert forall|p: int, i: int| #[trigger] listed(m, p, i) implies is_block(
        m[p][i] as int,
        p as nat,
    ) && (listed(l, p, i) && m[p][i] == l[p][i] || p == o && i == l[o].len() && m[p][i] == pa) by {
        if listed(l, p, i) {
        }
    }
    assert forall|o1: int, i1: int, o2: int, i2: int|
        #![trigger listed(m, o1, i1), listed(m, o2, i2)]
        listed(m, o1, i1) && listed(m, o2, i2) && !(o1 == o2 && i1 == i2) implies disjoint(
        m[o1][i1] as int,
        o1 as nat,
        m[o2][i2] as int,
        o2 as nat,
    ) by {
        if listed(l, o1, i1) && listed(l, o2, i2) {
        } else if listed(l, o1, i1) {
        } else {
            assert(listed(l, o2, i2));
        }
    }
    assert forall|addr: int| #[trigger]
        is_free(m, addr) <==> is_free(l, addr) || in_block(pa as int, order, addr) by {
        if is_free(m, addr) {
            let (p, i) = choose|p: int, i: int| covers(m, p, i, addr);
            assert(listed(m, p, i));
            if listed(l, p, i) {
                assert(covers(l, p, i, addr));
            }
        }
        if is_free(l, addr) {
            let (p, i) = choose|p: int, i: int| covers(l, p, i, addr);
            assert(covers(m, p, i, addr));
        }
        if in_block(pa as int, order, addr) {
            assert(covers(m, o, l[o].len() as int, addr));
        }
    }
    assert forall|q: int, qo: nat| block_apart(l, q, qo) && disjoint(pa as int, order, q, qo) implies
        #[trigger] block_apart(m, q, qo) by {
        assert forall|p: int, i: int| #[trigger] listed(m, p, i) implies disjoint(
            m[p][i] as int,
            p as nat,
            q,
            qo,
        ) by {
            if listed(l, p, i) {
            }
        }
    }
    lemma_pages_update(l, o, l[o].push(pa), (MAX_ORDER + 1) as nat);
    assert((l[o].push(pa).len() as int - l[o].len() as int) * order_pages(order) == order_pages(
        order,
    )) by (nonlinear_arith)
        requires
            l[o].push(pa).len() as int - l[o].len() as int == 1,
    ;
}

/// Taking a block off its list.
proof fn lemma_take(l: FreeLists, o: int, i: int)
    requires
        lists_ok(l),
        listed(l, o, i),
    ensures
        lists_ok(l.update(o, l[o].remove(i))),
        is_block(l[o][i] as int, o as nat),
        block_apart(l.update(o, l[o].remove(i)), l[o][i] as int, o as nat),
        pages_below(l.update(o, l[o].remove(i)), (MAX_ORDER + 1) as nat) + order_pages(o as nat)
            == pages_below(l, (MAX_ORDER + 1) as nat),
        forall|addr: int| #[trigger]
            is_free(l, addr) <==> is_free(l.update(o, l[o].remove(i)), addr) || in_block(
                l[o][i] as int,
                o as nat,
                addr,
            ),
        forall|q: int, qo: nat| #[trigger]
            block_apart(l.update(o, l[o].remove(i)), q, qo) <== block_apart(l, q, qo),
{
    let m = l.update(o, l[o].remove(i));
    let back = |p: int, j: int|
        if p == o && j >= i {
            j + 1
        } else {
            j
        };
    assert forall|p: int, j: int| #[trigger] listed(m, p, j) implies listed(l, p, back(p, j))
        && m[p][j] == l[p][back(p, j)] && !(p == o && back(p, j) == i) by {}
    assert forall|p: int, j: int| #[trigger] listed(m, p, j) implies is_block(
        m[p][j] as int,
        p as nat,
    ) by {
        assert(listed(l, p, back(p, j)));
    }
    assert forall|o1: int, i1: int, o2: int, i2: int|
        #![trigger listed(m, o1, i1), listed(m, o2, i2)]
        listed(m, o1, i1) && listed(m, o2, i2) && !(o1 == o2 && i1 == i2) implies disjoint(
        m[o1][i1] as int,
        o1 as nat,
        m[o2][i2] as int,
        o2 as nat,
    ) by {
        assert(listed(l, o1, back(o1, i1)) && listed(l, o2, back(o2, i2)));
    }
    assert forall|p: int, j: int| #[trigger] listed(m, p, j) implies disjoint(
        m[p][j] as int,
        p as nat,
        l[o][i] as int,
        o as nat,
    ) by {
        assert(listed(l, p, back(p, j)) && listed(l, o, i));
    }
    assert forall|addr: int| #[trigger]
        is_free(l, addr) <==> is_free(m, addr) || in_block(l[o][i] as int, o as nat, addr) by {
        if is_free(l, addr) {
            let (p, j) = choose|p: int, j: int| covers(l, p, j, addr);
            if p != o || j < i {
                assert(covers(m, p, j, addr));
            } else if j > i {
                assert(covers(m, p, j - 1, addr));
            }
        }
        if is_free(m, addr) {
            let (p, j) = choose|p: int, j: int| covers(m, p, j, addr);
            assert(listed(m, p, j));
            assert(covers(l, p, back(p, j), addr));
        }
        if in_block(l[o][i] as int, o as nat, addr) {
            assert(covers(l, o, i, addr));
        }
    }
    assert forall|q: int, qo: nat| block_apart(l, q, qo) implies #[trigger] block_apart(
        m,
        q,
        qo,
    ) by {
        assert forall|p: int, j: int| #[trigger] listed(m, p, j) implies disjoint(
            m[p][j] as int,
            p as nat,
            q,
            qo,
        ) by {
            assert(listed(l, p, back(p, j)));
        }
    }
    lemma_pages_update(l, o, l[o].remove(i), (MAX_ORDER + 1) as nat);
    assert((l[o].remove(i).len() as int - l[o].len() as int) * order_pages(o as nat) == -(
    order_pages(o as nat) as int)) by (nonlinear_arith)
        requires
            l[o].remove(i).len() as int - l[o].len() as int == -1,
    ;
}

proof fn lemma_order_monotone(a: nat, b: nat)
    requires
        a <= b,
    ensures
        order_pages(a) <= order_pages(b),
        block_bytes(a) <= block_bytes(b),
    decreases b,
{
    if a < b {
        lemma_order_monotone(a, (b - 1) as nat);
    }
}

/// What splitting the top block of order `found` down to `order` leaves.
pub proof fn lemma_split(l: FreeLists, order: nat, found: nat)
    requires
        lists_ok(l),
        order <= found <= MAX_ORDER,
        l[found as int].len() > 0,
    ensures
        ({
            let m = split_lists(l, order, found);
            let pa = l[found as int].last() as int;
            &&& lists_ok(m)
            &&& is_block(pa, found)
            &&& is_block(pa, order)
            &&& block_apart(m, pa, order)
            &&& pages_below(m, (MAX_ORDER + 1) as nat) + order_pages(order) == pages_below(
                l,
                (MAX_ORDER + 1) as nat,
            )
            &&& forall|addr: int| #[trigger]
                is_free(l, addr) <==> is_free(m, addr) || in_block(pa, order, addr)
        }),
    decreases found - order,
{
    let m = split_lists(l, order, found);
    let pa = l[found as int].last();
    if order == found {
        let top = l[found as int].len() - 1;
        assert(listed(l, found as int, top));
        assert(l[found as int].drop_last() =~= l[found as int].remove(top));
        lemma_take(l, found as int, top);
        assert(m =~= l.update(found as int, l[found as int].remove(top)));
    } else {
        let before = split_lists(l, order + 1, found);
        lemma_split(l, order + 1, found);
        lemma_split_shape(pa as int, order + 1);
        lemma_order_table(order);
        let half = (pa + block_bytes(order)) as u64;
        assert forall|o: int, i: int| #[trigger] listed(before, o, i) implies disjoint(
            before[o][i] as int,
            o as nat,
            half as int,
            order,
        ) && disjoint(before[o][i] as int, o as nat, pa as int, order) by {
            lemma_order_positive(o as nat);
        }
        lemma_push(before, half, order);
        assert(m =~= before.update(order as int, before[order as int].push(half)));
        assert(block_apart(before, pa as int, order));
        assert(block_apart(m, pa as int, order));
        assert forall|addr: int| #[trigger]
            is_free(l, addr) <==> is_free(m, addr) || in_block(pa as int, order, addr) by {
            assert(is_free(l, addr) <==> is_free(before, addr) || in_block(
                pa as int,
                order + 1,
                addr,
            ));
            assert(is_free(m, addr) <==> is_free(before, addr) || in_block(
                half as int,
                order,
                addr,
            ));
        }
    }
}

/// One step of coalescing: the listed buddy leaves its list and the block
/// grows to the next order.
proof fn lemma_merge_step(l: FreeLists, pa: int, order: nat)
    requires
        lists_ok(l),
        order < MAX_ORDER,
        is_block(pa, order),
        block_apart(l, pa, order),
        l[order as int].contains(buddy_of(pa, order) as u64),
    ensures
        ({
            let buddy = buddy_of(pa, order);
            let list = l[order as int];
            let rest = l.update(order as int, list.remove(list.index_of(buddy as u64)));
            let low = if pa < buddy {
                pa
            } else {
                buddy
            };
            &&& 0 < buddy <= u64::MAX
            &&& lists_ok(rest)
            &&& is_block(low, order + 1)
            &&& block_apart(rest, low, order + 1)
            &&& pages_below(rest, (MAX_ORDER + 1) as nat) + order_pages(order) == pages_below(
                l,
                (MAX_ORDER + 1) as nat,
            )
            &&& forall|addr: int| #[trigger]
                is_free(l, addr) || in_block(pa, order, addr) <==> is_free(rest, addr) || in_block(
                    low,
                    order + 1,
                    addr,
                )
        }),
{
    let buddy = buddy_of(pa, order);
    let list = l[order as int];
    let i = list.index_of(buddy as u64);
    let rest = l.update(order as int, list.remove(i));
    let low = if pa < buddy {
        pa
    } else {
        buddy
    };
    lemma_order_table(order);
    lemma_merge_shape(pa, order);
    lemma_buddy_xor(pa as u64, order);
    assert(listed(l, order as int, i));
    lemma_take(l, order as int, i);
    assert(block_apart(rest, pa, order));
    assert forall|o: int, j: int| #[trigger] listed(rest, o, j) implies disjoint(
        rest[o][j] as int,
        o as nat,
        low,
        order + 1,
    ) by {
        lemma_order_positive(o as nat);
        assert(disjoint(rest[o][j] as int, o as nat, pa, order));
        assert(disjoint(rest[o][j] as int, o as nat, buddy, order));
    }
    assert forall|addr: int| #[trigger]
        is_free(l, addr) || in_block(pa, order, addr) <==> is_free(rest, addr) || in_block(
            low,
            order + 1,
            addr,
        ) by {
        assert(is_free(l, addr) <==> is_free(rest, addr) || in_block(buddy, order, addr));
        assert(in_block(low, order + 1, addr) <==> in_block(pa, order, addr) || in_block(
            buddy,
            order,
            addr,
        ));
    }
}

/// What freeing a block leaves.
pub proof fn lemma_merge(l: FreeLists, pa: int, order: nat)
    requires
        lists_ok(l),
        is_block(pa, order),
        block_apart(l, pa, order),
    ensures
        ({
            let m = merge_lists(l, pa, order);
            &&& lists_ok(m)
            &&& pages_below(m, (MAX_ORDER + 1) as nat) == pages_below(l, (MAX_ORDER + 1) as nat)
                + order_pages(order)
            &&& forall|addr: int| #[trigger]
                is_free(m, addr) <==> is_free(l, addr) || in_block(pa, order, addr)
        }),
    decreases MAX_ORDER - order,
{
    let buddy = buddy_of(pa, order);
    let list = l[order as int];
    let m = merge_lists(l, pa, order);
    if order < MAX_ORDER && list.contains(buddy as u64) {
        let rest = l.update(order as int, list.remove(list.index_of(buddy as u64)));
        let low = if pa < buddy {
            pa
        } else {
            buddy
        };
        lemma_merge_step(l, pa, order);
        lemma_merge(rest, low, order + 1);
        assert forall|addr: int| #[trigger]
            is_free(m, addr) <==> is_free(l, addr) || in_block(pa, order, addr) by {
            assert(is_free(l, addr) || in_block(pa, order, addr) <==> is_free(rest, addr)
                || in_block(low, order + 1, addr));
        }
    } else {
        lemma_push(l, pa as u64, order);
    }
}

/// The order of the block that serves a request holds a block and is at least
/// the order asked for.
pub proof fn lemma_first_fit(l: FreeLists, order: nat)
    requires
        order <= MAX_ORDER + 1,
    ensures
        order <= first_fit(l, order) <= MAX_ORDER + 1,
        first_fit(l, order) <= MAX_ORDER ==> l[first_fit(l, order) as int].len() > 0,
    decreases MAX_ORDER + 1 - order,
{
    if order <= MAX_ORDER && l[order as int].len() == 0 {
        lemma_first_fit(l, order + 1);
    }
}

/// Freeing a block right after allocating it gives back the same free memory.
pub proof fn law_free_undoes_allocate(l: FreeLists, order: nat)
    requires
        lists_ok(l),
        first_fit(l, order) <= MAX_ORDER,
    ensures
        ({
            let found = first_fit(l, order);
            let pa = l[found as int].last() as int;
            let m = merge_lists(split_lists(l, order, found), pa, order);
            &&& lists_ok(m)
            &&& pages_below(m, (MAX_ORDER + 1) as nat) == pages_below(l, (MAX_ORDER + 1) as nat)
            &&& forall|addr: int| #[trigger] is_free(m, addr) <==> is_free(l, addr)
        }),
{
    let found = first_fit(l, order);
    let pa = l[found as int].last() as int;
    lemma_first_fit(l, order);
    lemma_split(l, order, found);
    let taken = split_lists(l, order, found);
    lemma_merge(taken, pa, order);
    let m = merge_lists(taken, pa, order);
    assert forall|addr: int| #[trigger] is_free(m, addr) <==> is_free(l, addr) by {
        assert(is_free(l, addr) <==> is_free(taken, addr) || in_block(pa, order, addr));
    }
}

/// Two allocations in a row never overlap.
pub proof fn law_allocations_disjoint(l: FreeLists, order1: nat, order2: nat)
    requires
        lists_ok(l),
        first_fit(l, order1) <= MAX_ORDER,
        first_fit(split_lists(l, order1, first_fit(l, order1)), order2) <= MAX_ORDER,
    ensures
        ({
            let found1 = first_fit(l, order1);
            let m = split_lists(l, order1, found1);
            let found2 = first_fit(m, order2);
            disjoint(
                l[found1 as int].last() as int,
                order1,
                m[found2 as int].last() as int,
                order2,
            )
        }),
{
    let found1 = first_fit(l, order1);
    let pa1 = l[found1 as int].last() as int;
    lemma_first_fit(l, order1);
    lemma_split(l, order1, found1);
    let m = split_lists(l, order1, found1);
    let found2 = first_fit(m, order2);
    let pa2 = m[found2 as int].last() as int;
    lemma_first_fit(m, order2);
    assert(listed(m, found2 as int, m[found2 as int].len() - 1));
    assert(disjoint(pa2, found2, pa1, order1));
    lemma_order_monotone(order2, found2);
}

/// No two listed blocks are buddies: everything that can be merged is merged.
pub open spec fn coalesced(l: FreeLists) -> bool {
    forall|o: int, i: int, j: int|
        #![trigger listed(l, o, i), listed(l, o, j)]
        o < MAX_ORDER && listed(l, o, i) && listed(l, o, j) ==> l[o][j] != buddy_of(
            l[o][i] as int,
            o as nat,
        )
}

/// Being buddies is mutual, and no block is its own buddy.
proof fn lemma_buddies_mutual(pa: int, order: nat)
    requires
        order < MAX_ORDER,
        pa % block_bytes(order) == 0,
    ensures
        buddy_of(buddy_of(pa, order), order) == pa,
        buddy_of(pa, order) != pa,
{
    lemma_merge_shape(pa, order);
    lemma_order_positive(order);
    let s = block_bytes(order);
    let low = if pa < buddy_of(pa, order) {
        pa
    } else {
        buddy_of(pa, order)
    };
    vstd::arithmetic::div_mod::lemma_small_mod(s as nat, (2 * s) as nat);
    vstd::arithmetic::div_mod::lemma_add_mod_noop(low, s, 2 * s);
    assert((low + s) % (2 * s) == s);
}

/// Allocating leaves no two buddies listed.
pub proof fn law_allocate_keeps_coalesced(l: FreeLists, order: nat)
    requires
        lists_ok(l),
        coalesced(l),
        first_fit(l, order) <= MAX_ORDER,
    ensures
        coalesced(split_lists(l, order, first_fit(l, order))),
{
    let found = first_fit(l, order);
    let m = split_lists(l, order, found);
    lemma_first_fit(l, order);
    lemma_first_fit_empty(l, order);
    lemma_split(l, order, found);
    assert forall|o: int, i: int, j: int|
        #![trigger listed(m, o, i), listed(m, o, j)]
        o < MAX_ORDER && listed(m, o, i) && listed(m, o, j) implies m[o][j] != buddy_of(
        m[o][i] as int,
        o as nat,
    ) by {
        if order <= o < found {
            assert(l[o].len() == 0);
            assert(i == 0 && j == 0);
            assert(is_block(m[o][i] as int, o as nat));
            lemma_buddies_mutual(m[o][i] as int, o as nat);
        } else {
            assert(listed(l, o, i) && listed(l, o, j));
        }
    }
}

/// The chosen order fits at `start`, and the next order does not.
proof fn lemma_fit_order(start: int, end: int, o: nat)
    requires
        start % 4096 == 0,
        start + 4096 <= end,
    ensures
        ({
            let r = fit_order(start, end, o);
            &&& r <= o
            &&& start % block_bytes(r) == 0
            &&& start + block_bytes(r) <= end
            &&& r < o ==> !(start % block_bytes(r + 1) == 0 && start + block_bytes(r + 1) <= end)
        }),
    decreases o,
{
    assert(block_bytes(0) == 4096);
    if o > 0 && !(start % block_bytes(o) == 0 && start + block_bytes(o) <= end) {
        lemma_fit_order(start, end, (o - 1) as nat);
    }
}

/// No listed block has its buddy in `[start, end)`.
spec fn no_buddy_within(l: FreeLists, start: int, end: int) -> bool {
    forall|o: int, i: int| #[trigger]
        listed(l, o, i) && o < MAX_ORDER ==> {
            let buddy = buddy_of(l[o][i] as int, o as nat);
            buddy < start || end < buddy + block_bytes(o as nat)
        }
}

/// Every listed block is aligned to its size.
spec fn all_aligned(l: FreeLists) -> bool {
    forall|o: int, i: int| #[trigger]
        listed(l, o, i) ==> l[o][i] as int % block_bytes(o as nat) == 0
}

/// The lists with one more block.
spec fn with_block(l: FreeLists, pa: int, order: nat) -> FreeLists {
    l.update(order as int, l[order as int].push(pa as u64))
}

/// A block of the lists with one more is that block, or was listed.
proof fn lemma_with_block(l: FreeLists, pa: int, order: nat, o: int, i: int)
    requires
        l.len() == MAX_ORDER + 1,
        order <= MAX_ORDER,
        0 < pa <= u64::MAX,
        listed(with_block(l, pa, order), o, i),
    ensures
        ({
            let m = with_block(l, pa, order);
            ||| o == order && i == l[order as int].len() && m[o][i] == pa
            ||| listed(l, o, i) && m[o][i] == l[o][i]
        }),
{
}

/// Listing the largest block that fits keeps all blocks aligned, and none has
/// its buddy in the rest of the region.
proof fn lemma_block_fits(l: FreeLists, start: int, end: int, o: nat)
    requires
        l.len() == MAX_ORDER + 1,
        all_aligned(l),
        no_buddy_within(l, start, end),
        0 < start < end <= PA_LIMIT,
        start % 4096 == 0,
        end % 4096 == 0,
        o == fit_order(start, end, MAX_ORDER as nat),
    ensures
        all_aligned(with_block(l, start, o)),
        no_buddy_within(with_block(l, start, o), start + block_bytes(o), end),
{
    lemma_fit_order(start, end, MAX_ORDER as nat);
    lemma_order_positive(o);
    let m = with_block(l, start, o);
    assert forall|p: int, i: int| #[trigger] listed(m, p, i) implies m[p][i] as int % block_bytes(
        p as nat,
    ) == 0 by {
        lemma_with_block(l, start, o, p, i);
    }
    assert forall|p: int, i: int| #[trigger] listed(m, p, i) && p < MAX_ORDER implies {
        let buddy = buddy_of(m[p][i] as int, p as nat);
        buddy < start + block_bytes(o) || end < buddy + block_bytes(p as nat)
    } by {
        lemma_with_block(l, start, o, p, i);
        if p == o {
            lemma_merge_shape(start, o);
        }
    }
}

/// A listed block and one that starts the region are no buddies.
proof fn lemma_not_buddies(l: FreeLists, start: int, end: int, o: nat, i: int)
    requires
        all_aligned(l),
        no_buddy_within(l, start, end),
        o < MAX_ORDER,
        listed(l, o as int, i),
        start % block_bytes(o) == 0,
        start + block_bytes(o) <= end,
    ensures
        buddy_of(l[o as int][i] as int, o) != start,
        buddy_of(start, o) != l[o as int][i],
{
    lemma_buddies_mutual(start, o);
}

/// Listing the largest block that fits lists no two buddies.
proof fn lemma_block_coalesced(l: FreeLists, start: int, end: int, o: nat)
    requires
        l.len() == MAX_ORDER + 1,
        all_aligned(l),
        coalesced(l),
        no_buddy_within(l, start, end),
        0 < start < end <= PA_LIMIT,
        start % 4096 == 0,
        end % 4096 == 0,
        o == fit_order(start, end, MAX_ORDER as nat),
    ensures
        coalesced(with_block(l, start, o)),
{
    lemma_fit_order(start, end, MAX_ORDER as nat);
    let m = with_block(l, start, o);
    assert forall|p: int, i: int, j: int|
        #![trigger listed(m, p, i), listed(m, p, j)]
        p < MAX_ORDER && listed(m, p, i) && listed(m, p, j) implies m[p][j] != buddy_of(
        m[p][i] as int,
        p as nat,
    ) by {
        lemma_with_block(l, start, o, p, i);
        lemma_with_block(l, start, o, p, j);
        if !listed(l, p, i) && !listed(l, p, j) {
            lemma_buddies_mutual(start, o);
        } else if !listed(l, p, i) {
            lemma_not_buddies(l, start, end, o, j);
        } else if !listed(l, p, j) {
            lemma_not_buddies(l, start, end, o, i);
        }
    }
}

/// Listing the rest of a region lists no two buddies.
proof fn lemma_region_coalesced(l: FreeLists, start: int, end: int)
    requires
        l.len() == MAX_ORDER + 1,
        all_aligned(l),
        coalesced(l),
        no_buddy_within(l, start, end),
        0 < start,
        start % 4096 == 0,
        end % 4096 == 0,
        end <= PA_LIMIT,
    ensures
        coalesced(region_lists(l, start, end)),
    decreases
            (if start < end {
                end - start
            } else {
                0
            }),
{
    if start < end {
        let o = fit_order(start, end, MAX_ORDER as nat);
        lemma_fit_order(start, end, MAX_ORDER as nat);
        lemma_order_positive(o);
        lemma_block_fits(l, start, end, o);
        lemma_block_coalesced(l, start, end, o);
        lemma_page_steps(start, o);
        lemma_region_coalesced(with_block(l, start, o), start + block_bytes(o), end);
    }
}

/// Blocks are whole pages.
proof fn lemma_page_steps(start: int, o: nat)
    requires
        start % 4096 == 0,
    ensures
        (start + block_bytes(o)) % 4096 == 0,
{
    vstd::arithmetic::div_mod::lemma_mod_multiples_vanish(order_pages(o) as int, start, 4096);
}

/// Adding a region that no free block touches leaves no two buddies listed.
pub proof fn law_region_keeps_coalesced(l: FreeLists, start: int, end: int)
    requires
        lists_ok(l),
        coalesced(l),
        0 < start,
        start % 4096 == 0,
        end % 4096 == 0,
        end <= PA_LIMIT,
        forall|o: int, i: int| #[trigger]
            listed(l, o, i) ==> l[o][i] + block_bytes(o as nat) < start || end < l[o][i],
    ensures
        coalesced(region_lists(l, start, end)),
{
    assert forall|o: int, i: int| #[trigger] listed(l, o, i) implies l[o][i] as int % block_bytes(
        o as nat,
    ) == 0 by {
        assert(is_block(l[o][i] as int, o as nat));
    }
    assert forall|o: int, i: int| #[trigger] listed(l, o, i) && o < MAX_ORDER implies {
        let buddy = buddy_of(l[o][i] as int, o as nat);
        buddy < start || end < buddy + block_bytes(o as nat)
    } by {
        lemma_order_positive(o as nat);
    }
    lemma_region_coalesced(l, start, end);
}

/// A region that is handed out is free from then on, every address of it, and
/// nothing else is that was not.
pub proof fn law_region_freed(l: FreeLists, start: int, end: int)
    requires
        lists_ok(l),
        0 < start,
        start % 4096 == 0,
        end % 4096 == 0,
        end <= PA_LIMIT,
        forall|o: int, i: int| #[trigger]
            listed(l, o, i) ==> start >= end || l[o][i] + block_bytes(o as nat) <= start || end
                <= l[o][i],
    ensures
        lists_ok(region_lists(l, start, end)),
        forall|addr: int| #[trigger]
            is_free(region_lists(l, start, end), addr) <==> is_free(l, addr) || start <= addr < end,
    decreases
            (if start < end {
                end - start
            } else {
                0
            }),
{
    if start < end {
        let o = fit_order(start, end, MAX_ORDER as nat);
        lemma_fit_order(start, end, MAX_ORDER as nat);
        lemma_order_positive(o);
        lemma_page_steps(start, o);
        let m = l.update(o as int, l[o as int].push(start as u64));
        lemma_push(l, start as u64, o);
        let next = start + block_bytes(o);
        assert forall|p: int, i: int| #[trigger] listed(m, p, i) implies next >= end || m[p][i]
            + block_bytes(p as nat) <= next || end <= m[p][i] by {
            if listed(l, p, i) {
            }
        }
        law_region_freed(m, next, end);
    }
}

/// The lists below the one that serves a request are empty.
proof fn lemma_first_fit_empty(l: FreeLists, order: nat)
    ensures
        forall|o: int|
            order <= o < first_fit(l, order) && o <= MAX_ORDER ==> (#[trigger] l[o]).len() == 0,
    decreases MAX_ORDER + 1 - order,
{
    if order <= MAX_ORDER && l[order as int].len() == 0 {
        lemma_first_fit_empty(l, order + 1);
    }
}

/// Freeing a block leaves no two buddies listed.
pub proof fn law_free_keeps_coalesced(l: FreeLists, pa: int, order: nat)
    requires
        lists_ok(l),
        coalesced(l),
        is_block(pa, order),
        block_apart(l, pa, order),
    ensures
        coalesced(merge_lists(l, pa, order)),
    decreases MAX_ORDER - order,
{
    let buddy = buddy_of(pa, order);
    let list = l[order as int];
    let m = merge_lists(l, pa, order);
    lemma_order_table(order);
    if order < MAX_ORDER {
        lemma_merge_shape(pa, order);
        lemma_buddies_mutual(pa, order);
    }
    if order < MAX_ORDER && list.contains(buddy as u64) {
        let at = list.index_of(buddy as u64);
        let rest = l.update(order as int, list.remove(at));
        let low = if pa < buddy {
            pa
        } else {
            buddy
        };
        lemma_merge_step(l, pa, order);
        assert forall|o: int, i: int, j: int|
            #![trigger listed(rest, o, i), listed(rest, o, j)]
            o < MAX_ORDER && listed(rest, o, i) && listed(rest, o, j) implies rest[o][j]
            != buddy_of(rest[o][i] as int, o as nat) by {
            let i1 = if o == order && i >= at {
                i + 1
            } else {
                i
            };
            let j1 = if o == order && j >= at {
                j + 1
            } else {
                j
            };
            assert(listed(l, o, i1) && listed(l, o, j1));
        }
        law_free_keeps_coalesced(rest, low, order + 1);
    } else {
        assert forall|o: int, i: int, j: int|
            #![trigger listed(m, o, i), listed(m, o, j)]
            o < MAX_ORDER && listed(m, o, i) && listed(m, o, j) implies m[o][j] != buddy_of(
            m[o][i] as int,
            o as nat,
        ) by {
            let n = list.len() as int;
            if o != order || (i < n && j < n) {
                assert(listed(l, o, i) && listed(l, o, j));
            } else if i < n {
                // The new block is not the buddy of a listed one.
                assert(listed(l, o, i));
                assert(is_block(l[o][i] as int, o as nat));
                lemma_buddies_mutual(l[o][i] as int, o as nat);
                if m[o][j] == buddy_of(m[o][i] as int, o as nat) {
                    assert(list[i] == buddy);
                    assert(list.contains(buddy as u64));
                }
            } else if j < n {
                if m[o][j] == buddy_of(m[o][i] as int, o as nat) {
                    assert(list[j] == buddy);
                    assert(list.contains(buddy as u64));
                }
            }
        }
    }
}

/// A block of `order` at `at` is aligned and ends by `end`.
fn block_fits(at: u64, end: u64, order: usize) -> (r: bool)
    requires
        order <= MAX_ORDER,
        at < end,
    ensures
        r == (at as int % block_bytes(order as nat) == 0 && at + block_bytes(order as nat) <= end),
{
    proof {
        lemma_order_table(order as nat);
    }
    let size: u64 = PAGE_SIZE << order;
    at % size == 0 && end - at >= size
}

/// Physical pages organised into power-of-two orders.
pub struct BuddyAllocator {
    pub free_lists: Vec<Vec<u64>>,
    pub free_pages: u64,
    pub total_pages: u64,
}

impl BuddyAllocator {
    /// The free lists, by order; the top of each list is its last element.
    pub open spec fn lists(&self) -> FreeLists {
        Seq::new(self.free_lists@.len(), |o: int| self.free_lists@[o]@)
    }

    pub open spec fn wf(&self) -> bool {
        &&& lists_ok(self.lists())
        &&& self.free_pages == pages_below(self.lists(), (MAX_ORDER + 1) as nat)
        &&& self.free_pages <= self.total_pages
    }

    /// An allocator that manages no memory yet.
    pub fn new() -> (b: BuddyAllocator)
        ensures
            b.wf(),
            b.free_pages == 0,
            b.total_pages == 0,
            b.lists() == Seq::new((MAX_ORDER + 1) as nat, |o: int| Seq::<u64>::empty()),
    {
        let mut free_lists: Vec<Vec<u64>> = Vec::new();
        let mut order: usize = 0;
        while order <= MAX_ORDER
            invariant
                order <= MAX_ORDER + 1,
                free_lists@.len() == order,
                forall|o: int| 0 <= o < order ==> (#[trigger] free_lists@[o])@ == Seq::<u64>::empty(),
            decreases MAX_ORDER + 1 - order,
        {
            free_lists.push(Vec::new());
            order += 1;
        }
        let b = BuddyAllocator { free_lists, free_pages: 0, total_pages: 0 };
        proof {
            assert(b.lists() =~= Seq::new((MAX_ORDER + 1) as nat, |o: int| Seq::<u64>::empty()));
            lemma_pages_empty(b.lists(), (MAX_ORDER + 1) as nat);
        }
        b
    }

    fn push_free(&mut self, pa: u64, order: usize)
        requires
            order < old(self).lists().len(),
        ensures
            final(self).lists() == old(self).lists().update(
                order as int,
                old(self).lists()[order as int].push(pa),
            ),
            final(self).free_pages == old(self).free_pages,
            final(self).total_pages == old(self).total_pages,
    {
        self.free_lists[order].push(pa);
        assert(self.lists() =~= old(self).lists().update(
            order as int,
            old(self).lists()[order as int].push(pa),
        ));
    }

    fn pop_free(&mut self, order: usize) -> (r: Option<u64>)
        requires
            order < old(self).lists().len(),
        ensures
            final(self).free_pages == old(self).free_pages,
            final(self).total_pages == old(self).total_pages,
            old(self).lists()[order as int].len() == 0 ==> r is None && final(self).lists() == old(
                self,
            ).lists(),
            old(self).lists()[order as int].len() > 0 ==> r == Some(
                old(self).lists()[order as int].last(),
            ) && final(self).lists() == old(self).lists().update(
                order as int,
                old(self).lists()[order as int].drop_last(),
            ),
    {
        let r = self.free_lists[order].pop();
        proof {
            if old(self).lists()[order as int].len() > 0 {
                assert(self.lists() =~= old(self).lists().update(
                    order as int,
                    old(self).lists()[order as int].drop_last(),
                ));
            } else {
                assert(self.lists() =~= old(self).lists());
            }
        }
        r
    }

    /// Remove a specific physical address from the list of `order`. Returns
    /// true if it was found and removed.
    fn remove_from_list(&mut self, target: u64, order: usize) -> (r: bool)
        requires
            lists_ok(old(self).lists()),
            order <= MAX_ORDER,
        ensures
            r == old(self).lists()[order as int].contains(target),
            final(self).free_pages == old(self).free_pages,
            final(self).total_pages == old(self).total_pages,
            r ==> final(self).lists() == old(self).lists().update(
                order as int,
                old(self).lists()[order as int].remove(
                    old(self).lists()[order as int].index_of(target),
                ),
            ),
            !r ==> final(self).lists() == old(self).lists(),
    {
        let ghost l = self.lists();
        let mut i: usize = self.free_lists[order].len();
        while i > 0
            invariant
                *self == *old(self),
                l == self.lists(),
                lists_ok(l),
                order <= MAX_ORDER,
                i <= l[order as int].len(),
                forall|j: int| i <= j < l[order as int].len() ==> l[order as int][j] != target,
            decreases i,
        {
            i -= 1;
            if self.free_lists[order][i] == target {
                proof {
                    let list = l[order as int];
                    assert(list[i as int] == target);
                    let k = list.index_of(target);
                    assert(listed(l, order as int, i as int) && listed(l, order as int, k));
                    lemma_order_positive(order as nat);
                    assert(k == i);
                }
                self.free_lists[order].remove(i);
                assert(self.lists() =~= l.update(order as int, l[order as int].remove(i as int)));
                return true;
            }
        }
        false
    }

    /// Add the region `[start, end)`, both page-aligned, to the allocator.
    pub fn add_region(&mut self, start: u64, end: u64)
        requires
            old(self).wf(),
            0 < start,
            start % PAGE_SIZE == 0,
            end % PAGE_SIZE == 0,
            end <= PA_LIMIT,
            old(self).total_pages + (end - start) / 4096 <= u64::MAX,
            forall|o: int, i: int| #[trigger]
                listed(old(self).lists(), o, i) ==> {
                    let pa = old(self).lists()[o][i] as int;
                    start >= end || pa + block_bytes(o as nat) <= start || end <= pa
                },
        ensures
            final(self).wf(),
            final(self).lists() == region_lists(old(self).lists(), start as int, end as int),
            start < end ==> final(self).free_pages == old(self).free_pages + (end - start) / 4096,
            start < end ==> final(self).total_pages == old(self).total_pages + (end - start) / 4096,
            start >= end ==> *final(self) == *old(self),
            forall|addr: int| #[trigger]
                is_free(final(self).lists(), addr) <==> is_free(old(self).lists(), addr) || start
                    <= addr < end,
    {
        let ghost l0 = self.lists();
        let mut at: u64 = start;
        while at < end
            invariant
                self.wf(),
                0 < start <= at,
                start >= end ==> at == start && *self == *old(self),
                start < end ==> at <= end,
                at % 4096 == 0,
                start % 4096 == 0,
                end % 4096 == 0,
                end <= PA_LIMIT,
                old(self).total_pages + (end - start) / 4096 <= u64::MAX,
                start < end ==> self.free_pages == old(self).free_pages + (at - start) / 4096,
                start < end ==> self.total_pages == old(self).total_pages + (at - start) / 4096,
                l0 == old(self).lists(),
                region_lists(self.lists(), at as int, end as int) == region_lists(
                    l0,
                    start as int,
                    end as int,
                ),
                forall|o: int, i: int| #[trigger]
                    listed(self.lists(), o, i) ==> {
                        let pa = self.lists()[o][i] as int;
                        at >= end || pa + block_bytes(o as nat) <= at || end <= pa
                    },
                forall|addr: int| #[trigger]
                    is_free(self.lists(), addr) <==> is_free(l0, addr) || start <= addr < at,
            decreases end - at,
        {
            let mut order: usize = MAX_ORDER;
            while order > 0 && !block_fits(at, end, order)
                invariant
                    order <= MAX_ORDER,
                    at < end,
                    fit_order(at as int, end as int, order as nat) == fit_order(
                        at as int,
                        end as int,
                        MAX_ORDER as nat,
                    ),
                decreases order,
            {
                order -= 1;
            }
            let ghost l = self.lists();
            proof {
                lemma_order_table(order as nat);
                lemma_order_table(0);
                assert(block_bytes(order as nat) == 4096 * order_pages(order as nat));
                assert(at as int % block_bytes(order as nat) == 0);
                assert(at + block_bytes(order as nat) <= end);
                lemma_push(l, at, order as nat);
            }
            self.push_free(at, order);
            let pages: u64 = 1u64 << order;
            self.total_pages = self.total_pages + pages;
            self.free_pages = self.free_pages + pages;
            proof {
                assert forall|o: int, i: int| #[trigger] listed(self.lists(), o, i) implies {
                    let pa = self.lists()[o][i] as int;
                    at + pages * PAGE_SIZE >= end || pa + block_bytes(o as nat) <= at + pages
                        * PAGE_SIZE || end <= pa
                } by {
                    if listed(l, o, i) {
                    }
                }
            }
            at = at + pages * PAGE_SIZE;
        }
    }

    /// Allocate `2^order` contiguous pages. Returns the physical address.
    pub fn allocate(&mut self, order: usize) -> (r: Option<u64>)
        requires
            old(self).wf(),
            order <= MAX_ORDER,
        ensures
            final(self).wf(),
            final(self).total_pages == old(self).total_pages,
            r is None <==> first_fit(old(self).lists(), order as nat) > MAX_ORDER,
            r is None ==> *final(self) == *old(self),
            r matches Some(pa) ==> {
                let l = old(self).lists();
                let found = first_fit(l, order as nat);
                &&& pa == l[found as int].last()
                &&& final(self).lists() == split_lists(l, order as nat, found)
                &&& final(self).free_pages == old(self).free_pages - order_pages(order as nat)
                &&& is_block(pa as int, order as nat)
                &&& block_apart(final(self).lists(), pa as int, order as nat)
                &&& forall|addr: int| #[trigger]
                    is_free(l, addr) <==> is_free(final(self).lists(), addr) || in_block(
                        pa as int,
                        order as nat,
                        addr,
                    )
            },
    {
        let ghost l = self.lists();
        let mut found: usize = order;
        while found <= MAX_ORDER && self.free_lists[found].len() == 0
            invariant
                *self == *old(self),
                self.wf(),
                l == self.lists(),
                order <= found <= MAX_ORDER + 1,
                first_fit(l, order as nat) == first_fit(l, found as nat),
            decreases MAX_ORDER + 1 - found,
        {
            found += 1;
        }
        if found > MAX_ORDER {
            return None;
        }
        let pa: u64 = match self.pop_free(found) {
            Some(pa) => pa,
            None => {
                return None;
            },
        };
        proof {
            assert(listed(l, found as int, l[found as int].len() - 1));
            assert(self.lists() =~= split_lists(l, found as nat, found as nat));
            lemma_split(l, order as nat, found as nat);
        }
        let mut split: usize = found;
        while split > order
            invariant
                order <= split <= found <= MAX_ORDER,
                found < l.len(),
                l.len() == MAX_ORDER + 1,
                pa == l[found as int].last(),
                pa + block_bytes(found as nat) <= PA_LIMIT,
                self.lists() == split_lists(l, split as nat, found as nat),
                self.free_pages == old(self).free_pages,
                self.total_pages == old(self).total_pages,
            decreases split,
        {
            split -= 1;
            proof {
                lemma_order_table(split as nat);
                lemma_order_monotone((split + 1) as nat, found as nat);
            }
            let buddy: u64 = pa + (PAGE_SIZE << split);
            self.push_free(buddy, split);
            assert(self.lists() =~= split_lists(l, split as nat, found as nat));
        }
        proof {
            lemma_order_table(order as nat);
        }
        self.free_pages = self.free_pages - (1u64 << order);
        Some(pa)
    }

    /// Free `2^order` pages at physical address `pa`, coalescing buddies.
    pub fn free(&mut self, pa: u64, order: usize)
        requires
            old(self).wf(),
            is_block(pa as int, order as nat),
            block_apart(old(self).lists(), pa as int, order as nat),
            old(self).free_pages + order_pages(order as nat) <= old(self).total_pages,
        ensures
            final(self).wf(),
            final(self).lists() == merge_lists(old(self).lists(), pa as int, order as nat),
            final(self).free_pages == old(self).free_pages + order_pages(order as nat),
            final(self).total_pages == old(self).total_pages,
            forall|addr: int| #[trigger]
                is_free(final(self).lists(), addr) <==> is_free(old(self).lists(), addr)
                    || in_block(pa as int, order as nat, addr),
    {
        let ghost l0 = self.lists();
        let ghost pa0 = pa as int;
        let ghost order0 = order as nat;
        proof {
            lemma_order_table(order as nat);
            lemma_merge(l0, pa0, order0);
        }
        self.free_pages = self.free_pages + (1u64 << order);
        let mut pa: u64 = pa;
        let mut order: usize = order;
        while order < MAX_ORDER
            invariant_except_break
                merge_lists(self.lists(), pa as int, order as nat) == merge_lists(l0, pa0, order0),
            invariant
                order <= MAX_ORDER,
                lists_ok(self.lists()),
                is_block(pa as int, order as nat),
                block_apart(self.lists(), pa as int, order as nat),
                self.free_pages == old(self).free_pages + order_pages(order0),
                self.total_pages == old(self).total_pages,
            ensures
                self.lists().update(order as int, self.lists()[order as int].push(pa))
                    == merge_lists(l0, pa0, order0),
            decreases MAX_ORDER - order,
        {
            proof {
                lemma_order_table(order as nat);
                lemma_buddy_xor(pa, order as nat);
                if self.lists()[order as int].contains(buddy_of(pa as int, order as nat) as u64) {
                    lemma_merge_step(self.lists(), pa as int, order as nat);
                }
            }
            let buddy: u64 = pa ^ (PAGE_SIZE << order);
            let merged: bool = self.remove_from_list(buddy, order);
            if !merged {
                break;
            }
            if buddy < pa {
                pa = buddy;
            }
            order += 1;
        }
        self.push_free(pa, order);
    }
}

proof fn lemma_pages_empty(l: FreeLists, n: nat)
    requires
        n <= l.len(),
        forall|o: int| 0 <= o < l.len() ==> (#[trigger] l[o]).len() == 0,
    ensures
        pages_below(l, n) == 0,
    decreases n,
{
    if n > 0 {
        lemma_pages_empty(l, (n - 1) as nat);
    }
}

} // verus!
