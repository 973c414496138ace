//! What an address space holds once an image has been loaded into it.
use crate::arch::riscv64::space;
use crate::arch::riscv64::vspace::{self, PTE_RWX};
use crate::arch::riscv64::walk;
use crate::bytes;
use crate::elf::{self, Segment, PT_LOAD};
use crate::kernel::{self, State};
use crate::mm::buddy;
use crate::objects;
use vstd::prelude::*;

verus! {

/// In the address space rooted at `pgd`, the address `a` reads as `v`, from
/// memory in use.
pub open spec fn holds(s: State, pgd: u64, a: u64, v: u8) -> bool {
    vspace::translated(s.ptes, pgd, a) matches Some(pa) && !buddy::is_free(s.mm.lists, pa as int)
        && objects::at(s.bytes, pa) == v
}

/// What a segment has at `a`: the file's bytes, and zeros after and around them.
pub open spec fn image_byte(d: Seq<u8>, g: Segment, a: u64) -> u8 {
    if g.vaddr <= a < g.vaddr + g.filesz {
        d[g.offset + (a - g.vaddr)]
    } else {
        0
    }
}

pub open spec fn segment(d: Seq<u8>, i: int) -> Segment {
    elf::segment_at(d, elf::phdr_at(d, i))
}

/// Program header `i` describes a segment to load.
pub open spec fn loads(d: Seq<u8>, i: int) -> bool {
    bytes::le32(d, elf::phdr_at(d, i)) == PT_LOAD && segment(d, i).memsz != 0
}

/// The last segment from header `i` on whose pages hold the address `a`. Where
/// segments share a page, the later one has it.
pub open spec fn topmost(d: Seq<u8>, i: int, a: u64) -> Option<int>
    decreases elf::phdr_count(d) - i,
{
    if i >= elf::phdr_count(d) {
        None
    } else if topmost(d, i + 1, a) is Some {
        topmost(d, i + 1, a)
    } else if loads(d, i) && elf::first_page(segment(d, i)) <= a < elf::end_page(segment(d, i)) {
        Some(i)
    } else {
        None
    }
}

/// Every segment to load lies below 2^48, where addresses take the entries of no
/// other page, and may be read, written or executed.
pub open spec fn segments_plain(d: Seq<u8>) -> bool {
    forall|i: int|
        0 <= i < elf::phdr_count(d) && #[trigger] loads(d, i) ==> elf::end_page(segment(d, i))
            <= 0x1_0000_0000_0000 && segment(d, i).flags & 7 != 0
}

/// The pages of a segment may be read, written and executed as its program
/// header says, and are always for user mode.
pub proof fn law_segment_rights(flags: u32)
    ensures
        elf::pte_flags_of(flags) & 0x02 != 0 <==> flags & 4 != 0,
        elf::pte_flags_of(flags) & 0x04 != 0 <==> flags & 2 != 0,
        elf::pte_flags_of(flags) & 0x08 != 0 <==> flags & 1 != 0,
        elf::pte_flags_of(flags) & 0x10 != 0,
        elf::pte_flags_of(flags) & !0x1eu64 == 0,
{
    let r: u64 = if flags & 4 != 0 {
        2
    } else {
        0
    };
    let w: u64 = if flags & 2 != 0 {
        4
    } else {
        0
    };
    let x: u64 = if flags & 1 != 0 {
        8
    } else {
        0
    };
    let e = elf::pte_flags_of(flags);
    assert(e == 0x10u64 | r | w | x) by {
        lemma_or_zero(0x10);
        lemma_or_zero(0x10u64 | r);
        lemma_or_zero(0x10u64 | r | w);
    }
    assert((e & 2 != 0 <==> r == 2) && (e & 4 != 0 <==> w == 4) && (e & 8 != 0 <==> x == 8) && e
        & 0x10 != 0 && e & !0x1eu64 == 0) by (bit_vector)
        requires
            e == 0x10u64 | r | w | x,
            r == 0 || r == 2,
            w == 0 || w == 4,
            x == 0 || x == 8,
    ;
}

proof fn lemma_or_zero(v: u64)
    ensures
        v | 0 == v,
{
    assert(v | 0 == v) by (bit_vector);
}

/// A segment with a permission has leaf entries.
proof fn lemma_flags(flags: u32)
    requires
        flags & 7 != 0,
    ensures
        elf::pte_flags_of(flags) < 1024,
        elf::pte_flags_of(flags) & PTE_RWX != 0,
{
    assert(flags & 4 != 0 || flags & 2 != 0 || flags & 1 != 0) by (bit_vector)
        requires
            flags & 7 != 0,
    ;
    assert(0x10u64 | 2 == 0x12 && 0x10u64 | 4 == 0x14 && 0x10u64 | 8 == 0x18 && 0x12u64 | 4 == 0x16
        && 0x12u64 | 8 == 0x1a && 0x14u64 | 8 == 0x1c && 0x16u64 | 8 == 0x1e && 0x12u64 & 0x0e != 0 && 0x14u64 & 0x0e != 0 && 0x18u64 & 0x0e != 0 && 0x16u64 & 0x0e != 0
        && 0x1au64 & 0x0e != 0 && 0x1cu64 & 0x0e != 0 && 0x1eu64 & 0x0e != 0) by (bit_vector);
}

/// One page of a segment: it holds the segment's bytes, and what was held
/// elsewhere is held still.
pub(crate) proof fn lemma_page_loaded(
    s: State,
    d: Seq<u8>,
    pgd: u64,
    levels: Map<u64, nat>,
    g: Segment,
    va: u64,
) -> (more: Map<u64, nat>)
    requires
        buddy::lists_ok(s.mm.lists),
        space::space_ok(s, levels),
        levels.contains_key(pgd),
        levels[pgd] == 3,
        g.offset + g.filesz <= d.len(),
        g.flags & 7 != 0,
        va % 4096 == 0,
        va < 0x1_0000_0000_0000,
        kernel::page_made(s).1 is Some,
        ({
            let (s1, page) = kernel::page_made(s);
            let s2 = elf::page_filled(s1, d, g, va as int, page->0);
            vspace::mapped(s2, pgd, va, page->0, elf::pte_flags_of(g.flags)).1
        }),
    ensures
        ({
            let (s1, page) = kernel::page_made(s);
            let s2 = elf::page_filled(s1, d, g, va as int, page->0);
            let s3 = vspace::mapped(s2, pgd, va, page->0, elf::pte_flags_of(g.flags)).0;
            &&& buddy::lists_ok(s3.mm.lists)
            &&& space::space_ok(s3, more)
            &&& more.contains_key(pgd)
            &&& more[pgd] == 3
            &&& forall|a: u64|
                a < 0x1_0000_0000_0000 && va <= a < va + 4096 ==> #[trigger] holds(
                    s3,
                    pgd,
                    a,
                    image_byte(d, g, a),
                )
            &&& forall|a: u64, v: u8|
                a < 0x1_0000_0000_0000 && !(va <= a < va + 4096) && holds(s, pgd, a, v)
                    ==> #[trigger] holds(s3, pgd, a, v)
        }),
{
    let flags = elf::pte_flags_of(g.flags);
    let (s1, page) = kernel::page_made(s);
    let pa = page->0;
    let s2 = elf::page_filled(s1, d, g, va as int, pa);
    let s3 = vspace::mapped(s2, pgd, va, pa, flags).0;
    lemma_flags(g.flags);
    kernel::lemma_page_made(s);
    space::lemma_space_page(s, levels);
    assert(s2.ptes == s1.ptes && s2.mm == s1.mm);
    assert(space::space_ok(s2, levels)) by {
        assert forall|a: u64| #[trigger] space::link(s2, levels, a) implies space::link(
            s1,
            levels,
            a,
        ) by {}
        assert forall|t: u64| #[trigger] levels.contains_key(t) implies t % 4096 == 0
            && kernel::page_in_use(s2, t) by {
            assert(kernel::page_in_use(s1, t));
        }
    }
    let more = space::lemma_space_mapped(s2, levels, pgd, va, pa, flags, 3);
    assert forall|a: u64| a < 0x1_0000_0000_0000 && va <= a < va + 4096 implies #[trigger] holds(
        s3,
        pgd,
        a,
        image_byte(d, g, a),
    ) by {
        assert(space::page_of(a) == va && space::page_of(va) == va);
        space::lemma_page_entries(va, a);
        space::lemma_mapped_page(s2, pgd, va, a, pa, flags, 3);
        space::lemma_space_walk(s2, levels, pgd, a, 3);
        walk::law_mapped_page_found(s2, pgd, a, pa, flags);
        let o = (a - va) as u64;
        assert(pa | (a & 0xfff) == pa + o) by (bit_vector)
            requires
                pa % 4096 == 0,
                pa < 0x100_0000_0000_0000,
                va % 4096 == 0,
                va <= a < va + 4096,
                o == a - va,
        ;
        elf::law_loaded_page_content(s, d, g, va as int, o as int);
        let at = (pa + o) as u64;
        assert(!buddy::is_free(s2.mm.lists, at as int));
        walk::lemma_mapped_bytes(s2, pgd, va, pa, flags, 3, at);
    }
    assert forall|a: u64, v: u8|
        a < 0x1_0000_0000_0000 && !(va <= a < va + 4096) && holds(
            s,
            pgd,
            a,
            v,
        ) implies #[trigger] holds(s3, pgd, a, v) by {
        let at = vspace::translated(s.ptes, pgd, a)->0;
        space::lemma_space_walk(s, levels, pgd, a, 3);
        space::lemma_space_walk(s2, levels, pgd, a, 3);
        space::lemma_space_walk(s2, levels, pgd, va, 3);
        space::lemma_space_branch(s2, levels, pgd, va, a, 3);
        assert forall|x: u64| walk::reads(s.ptes, pgd, a, 3, x) implies #[trigger] objects::at(
            s.ptes,
            x,
        ) == objects::at(s2.ptes, x) by {
            let i = walk::lemma_reads_in_tables(s, pgd, a, 3, x);
            let t = walk::tables(s.ptes, pgd, a, 3)[i];
            assert(levels.contains_key(t));
            assert(objects::at(s1.ptes, x) == objects::at(s.ptes, x));
        }
        walk::lemma_same_reads(s.ptes, s2.ptes, pgd, a, 3);
        assert(space::page_of(a) != va && space::page_of(va) == va);
        space::lemma_page_entries(va, a);
        walk::law_mapping_is_local(s2, pgd, va, a, pa, flags);
        // The byte.
        assert(!buddy::is_free(s1.mm.lists, at as int));
        assert(!(pa <= at < pa + 4096));
        assert(objects::at(s1.bytes, at) == objects::at(s.bytes, at));
        let lo = elf::fill_lo(g, va as int);
        let hi = elf::fill_hi(g, va as int);
        if lo < hi {
            let part = d.subrange(g.offset + (lo - g.vaddr), g.offset + (hi - g.vaddr));
            kernel::lemma_stored(s1.bytes, (pa + (lo - va)) as u64, part, at);
        }
        walk::lemma_mapped_bytes(s2, pgd, va, pa, flags, 3, at);
    }
    more
}

/// Taking a page and mapping it, or trying to, keeps what every other address
/// reads.
pub(crate) proof fn lemma_held_elsewhere(
    s: State,
    s1: State,
    pgd: u64,
    levels: Map<u64, nat>,
    va: u64,
    pa: u64,
    flags: u64,
    a: u64,
)
    requires
        buddy::lists_ok(s.mm.lists),
        space::space_ok(s, levels),
        levels.contains_key(pgd),
        levels[pgd] == 3,
        kernel::page_made(s) == (s1, Some(pa)),
        va % 4096 == 0,
        va < 0x1_0000_0000_0000,
        a < 0x1_0000_0000_0000,
        !(va <= a < va + 4096),
    ensures
        forall|v: u8|
            holds(s, pgd, a, v) ==> #[trigger] holds(
                vspace::mapped(s1, pgd, va, pa, flags).0,
                pgd,
                a,
                v,
            ),
{
    let s3 = vspace::mapped(s1, pgd, va, pa, flags).0;
    kernel::lemma_page_made(s);
    space::lemma_space_page(s, levels);
    assert forall|v: u8| holds(s, pgd, a, v) implies #[trigger] holds(s3, pgd, a, v) by {
        let at = vspace::translated(s.ptes, pgd, a)->0;
        space::lemma_space_walk(s, levels, pgd, a, 3);
        space::lemma_space_walk(s1, levels, pgd, a, 3);
        space::lemma_space_walk(s1, levels, pgd, va, 3);
        space::lemma_space_branch(s1, levels, pgd, va, a, 3);
        assert forall|x: u64| walk::reads(s.ptes, pgd, a, 3, x) implies #[trigger] objects::at(
            s.ptes,
            x,
        ) == objects::at(s1.ptes, x) by {
            let i = walk::lemma_reads_in_tables(s, pgd, a, 3, x);
            let t = walk::tables(s.ptes, pgd, a, 3)[i];
            assert(levels.contains_key(t));
            assert(objects::at(s1.ptes, x) == objects::at(s.ptes, x));
        }
        walk::lemma_same_reads(s.ptes, s1.ptes, pgd, a, 3);
        assert(space::page_of(a) != va && space::page_of(va) == va);
        space::lemma_page_entries(va, a);
        walk::law_mapping_is_local(s1, pgd, va, a, pa, flags);
        assert(!buddy::is_free(s1.mm.lists, at as int));
        assert(!(pa <= at < pa + 4096));
        assert(objects::at(s1.bytes, at) == objects::at(s.bytes, at));
        walk::lemma_mapped_bytes(s1, pgd, va, pa, flags, 3, at);
    }
}

/// The pages of a segment from `va` on.
proof fn lemma_pages_loaded(
    s: State,
    d: Seq<u8>,
    pgd: u64,
    levels: Map<u64, nat>,
    g: Segment,
    va: int,
) -> (more: Map<u64, nat>)
    requires
        buddy::lists_ok(s.mm.lists),
        space::space_ok(s, levels),
        levels.contains_key(pgd),
        levels[pgd] == 3,
        g.offset + g.filesz <= d.len(),
        g.flags & 7 != 0,
        0 <= va,
        va % 4096 == 0,
        elf::end_page(g) <= 0x1_0000_0000_0000,
        elf::pages_loaded(s, d, pgd, g, va).1 is None,
    ensures
        ({
            let s1 = elf::pages_loaded(s, d, pgd, g, va).0;
            &&& buddy::lists_ok(s1.mm.lists)
            &&& space::space_ok(s1, more)
            &&& more.contains_key(pgd)
            &&& more[pgd] == 3
            &&& forall|a: u64|
                va <= a < elf::end_page(g) ==> #[trigger] holds(s1, pgd, a, image_byte(d, g, a))
            &&& forall|a: u64, v: u8|
                a < 0x1_0000_0000_0000 && !(va <= a < elf::end_page(g)) && holds(s, pgd, a, v)
                    ==> #[trigger] holds(s1, pgd, a, v)
        }),
    decreases
            (if va < elf::end_page(g) {
                elf::end_page(g) - va
            } else {
                0
            }),
{
    if va >= elf::end_page(g) {
        levels
    } else {
        assert(elf::end_page(g) % 4096 == 0);
        let wider = lemma_page_loaded(s, d, pgd, levels, g, va as u64);
        let (s1, page) = kernel::page_made(s);
        let s2 = elf::page_filled(s1, d, g, va, page->0);
        let s3 = vspace::mapped(s2, pgd, va as u64, page->0, elf::pte_flags_of(g.flags)).0;
        let end = elf::pages_loaded(s, d, pgd, g, va).0;
        assert(end == elf::pages_loaded(s3, d, pgd, g, va + 4096).0);
        let more = lemma_pages_loaded(s3, d, pgd, wider, g, va + 4096);
        assert forall|a: u64| va <= a < elf::end_page(g) implies #[trigger] holds(
            end,
            pgd,
            a,
            image_byte(d, g, a),
        ) by {
            if a < va + 4096 {
                assert(holds(s3, pgd, a, image_byte(d, g, a)));
            }
        }
        assert forall|a: u64, v: u8|
            a < 0x1_0000_0000_0000 && !(va <= a < elf::end_page(g)) && holds(
                s,
                pgd,
                a,
                v,
            ) implies #[trigger] holds(end, pgd, a, v) by {
            assert(holds(s3, pgd, a, v));
        }
        more
    }
}

/// One segment, and the rest.
proof fn lemma_segment_step(s: State, d: Seq<u8>, pgd: u64, i: int, end: int)
    requires
        i < elf::phdr_count(d),
        elf::segments_loaded(s, d, pgd, i, end).1 is Ok,
    ensures
        ({
            let g = segment(d, i);
            let (s1, e) = elf::pages_loaded(s, d, pgd, g, elf::first_page(g));
            let next = if elf::end_page(g) > end {
                elf::end_page(g)
            } else {
                end
            };
            if loads(d, i) {
                &&& e is None
                &&& g.offset + g.filesz <= d.len()
                &&& elf::segments_loaded(s, d, pgd, i, end) == elf::segments_loaded(
                    s1,
                    d,
                    pgd,
                    i + 1,
                    next,
                )
            } else {
                elf::segments_loaded(s, d, pgd, i, end) == elf::segments_loaded(
                    s,
                    d,
                    pgd,
                    i + 1,
                    end,
                )
            }
        }),
{
}

/// The segments from header `i` on.
#[verifier::spinoff_prover]
#[verifier::rlimit(40)]
proof fn lemma_segments_loaded(
    s: State,
    d: Seq<u8>,
    pgd: u64,
    levels: Map<u64, nat>,
    i: int,
    end: int,
) -> (more: Map<u64, nat>)
    requires
        buddy::lists_ok(s.mm.lists),
        space::space_ok(s, levels),
        levels.contains_key(pgd),
        levels[pgd] == 3,
        segments_plain(d),
        0 <= i,
        elf::segments_loaded(s, d, pgd, i, end).1 is Ok,
    ensures
        ({
            let s1 = elf::segments_loaded(s, d, pgd, i, end).0;
            &&& buddy::lists_ok(s1.mm.lists)
            &&& space::space_ok(s1, more)
            &&& more.contains_key(pgd)
            &&& more[pgd] == 3
            &&& forall|a: u64|
                a < 0x1_0000_0000_0000 ==> (#[trigger] topmost(d, i, a) matches Some(k) ==> holds(
                    s1,
                    pgd,
                    a,
                    image_byte(d, segment(d, k), a),
                ))
            &&& forall|a: u64, v: u8|
                a < 0x1_0000_0000_0000 && topmost(d, i, a) is None && holds(s, pgd, a, v)
                    ==> #[trigger] holds(s1, pgd, a, v)
        }),
    decreases elf::phdr_count(d) - i,
{
    if i >= elf::phdr_count(d) {
        levels
    } else {
        let last = elf::segments_loaded(s, d, pgd, i, end).0;
        let g = segment(d, i);
        lemma_segment_step(s, d, pgd, i, end);
        if !loads(d, i) {
            let more = lemma_segments_loaded(s, d, pgd, levels, i + 1, end);
            assert forall|a: u64| a < 0x1_0000_0000_0000 implies (#[trigger] topmost(d, i, a) matches Some(
                k,
            ) ==> holds(last, pgd, a, image_byte(d, segment(d, k), a))) by {
                assert(topmost(d, i, a) == topmost(d, i + 1, a));
            }
            assert forall|a: u64, v: u8|
                a < 0x1_0000_0000_0000 && topmost(d, i, a) is None && holds(
                    s,
                    pgd,
                    a,
                    v,
                ) implies #[trigger] holds(last, pgd, a, v) by {
                assert(topmost(d, i, a) == topmost(d, i + 1, a));
            }
            more
        } else {
            let from = elf::first_page(g);
            assert(from % 4096 == 0);
            let wider = lemma_pages_loaded(s, d, pgd, levels, g, from);
            let s1 = elf::pages_loaded(s, d, pgd, g, from).0;
            let next = if elf::end_page(g) > end {
                elf::end_page(g)
            } else {
                end
            };
            let more = lemma_segments_loaded(s1, d, pgd, wider, i + 1, next);
            assert forall|a: u64| a < 0x1_0000_0000_0000 implies (#[trigger] topmost(d, i, a) matches Some(
                k,
            ) ==> holds(last, pgd, a, image_byte(d, segment(d, k), a))) by {
                if topmost(d, i + 1, a) is None && topmost(d, i, a) is Some {
                    assert(holds(s1, pgd, a, image_byte(d, g, a)));
                    assert(holds(last, pgd, a, image_byte(d, g, a)));
                }
            }
            assert forall|a: u64, v: u8|
                a < 0x1_0000_0000_0000 && topmost(d, i, a) is None && holds(
                    s,
                    pgd,
                    a,
                    v,
                ) implies #[trigger] holds(last, pgd, a, v) by {
                assert(topmost(d, i + 1, a) is None);
                assert(holds(s1, pgd, a, v));
            }
            more
        }
    }
}

/// Once an image is loaded, every address in a page of a segment reads what the
/// segment has there, and every other address reads what it read before. The
/// address space stays sound.
pub proof fn law_image_in_place(s: State, d: Seq<u8>, pgd: u64, a: u64)
    requires
        buddy::lists_ok(s.mm.lists),
        space::has_space(s, pgd),
        segments_plain(d),
        elf::image_loaded(s, d, pgd).1 is Ok,
        a < 0x1_0000_0000_0000,
    ensures
        ({
            let s1 = elf::image_loaded(s, d, pgd).0;
            &&& match topmost(d, 0, a) {
                Some(k) => holds(s1, pgd, a, image_byte(d, segment(d, k), a)),
                None => forall|v: u8| holds(s, pgd, a, v) ==> #[trigger] holds(s1, pgd, a, v),
            }
            &&& space::has_space(s1, pgd)
        }),
{
    let levels = choose|levels: Map<u64, nat>| #[trigger]
        space::space_ok(s, levels) && levels.contains_key(pgd) && levels[pgd] == 3;
    let more = lemma_segments_loaded(s, d, pgd, levels, 0, 0);
    assert(space::space_ok(elf::image_loaded(s, d, pgd).0, more));
}

} // verus!
