//! Loader for statically linked ELF64 little-endian images.
//!
//! Each loadable segment is mapped into an existing address space. There is no
//! dynamic linking, no relocation and no symbol table.
use crate::arch::riscv64::mmu::{PTE_R, PTE_U, PTE_W, PTE_X};
use crate::arch::riscv64::vspace;
use crate::bytes::{self, read_u16, read_u32, read_u64};
use crate::kernel::{self, fresh_page, Kernel, State};
use crate::mm::buddy;
use crate::objects;
use vstd::prelude::*;

verus! {

pub const PT_LOAD: u32 = 1;

pub const PF_X: u32 = 1;

pub const PF_W: u32 = 2;

pub const PF_R: u32 = 4;

/// Why an image is not loaded.
#[derive(Debug, Clone, Copy, PartialEq, Eq, Structural)]
pub enum ElfError {
    TooShort,
    BadMagic,
    NotElf64,
    NotLittleEndian,
    BadPhdrs,
    PhdrOutOfBounds,
    SegmentOutOfBounds,
    AddressOutOfRange,
    OutOfMemory,
    MapConflict,
}

/// A segment as its program header describes it.
#[derive(Clone, Copy)]
pub struct Segment {
    pub flags: u32,
    pub offset: u64,
    pub vaddr: u64,
    pub filesz: u64,
    pub memsz: u64,
}

/// Page-table flags of a segment: always for user mode.
pub open spec fn pte_flags_of(flags: u32) -> u64 {
    let r = if flags & PF_R != 0 {
        PTE_U | PTE_R
    } else {
        PTE_U
    };
    let w = if flags & PF_W != 0 {
        r | PTE_W
    } else {
        r
    };
    if flags & PF_X != 0 {
        w | PTE_X
    } else {
        w
    }
}

/// First page of a segment.
pub open spec fn first_page(g: Segment) -> int {
    (g.vaddr - g.vaddr % 4096) as int
}

/// End of the last page of a segment.
pub open spec fn end_page(g: Segment) -> int {
    let end = g.vaddr + g.memsz + 4095;
    end - end % 4096
}

/// The header fields.
pub open spec fn entry_point(d: Seq<u8>) -> u64 {
    bytes::le64(d, 24)
}

pub open spec fn phdr_offset(d: Seq<u8>) -> u64 {
    bytes::le64(d, 32)
}

pub open spec fn phdr_size(d: Seq<u8>) -> u16 {
    bytes::le16(d, 54)
}

pub open spec fn phdr_count(d: Seq<u8>) -> u16 {
    bytes::le16(d, 56)
}

/// What is wrong with the file header, if anything is.
pub open spec fn header_error(d: Seq<u8>) -> Option<ElfError> {
    if d.len() < 64 {
        Some(ElfError::TooShort)
    } else if !(d[0] == 0x7f && d[1] == 0x45 && d[2] == 0x4c && d[3] == 0x46) {
        Some(ElfError::BadMagic)
    } else if d[4] != 2 {
        Some(ElfError::NotElf64)
    } else if d[5] != 1 {
        Some(ElfError::NotLittleEndian)
    } else if phdr_size(d) < 56 || phdr_count(d) == 0 {
        Some(ElfError::BadPhdrs)
    } else {
        None
    }
}

/// Where program header `i` starts.
pub open spec fn phdr_at(d: Seq<u8>, i: int) -> int {
    phdr_offset(d) + i * phdr_size(d)
}

pub open spec fn segment_at(d: Seq<u8>, p: int) -> Segment {
    Segment {
        flags: bytes::le32(d, p + 4),
        offset: bytes::le64(d, p + 8),
        vaddr: bytes::le64(d, p + 16),
        filesz: bytes::le64(d, p + 32),
        memsz: bytes::le64(d, p + 40),
    }
}

/// The part of the page at `va` that the file fills.
pub open spec fn fill_lo(g: Segment, va: int) -> int {
    if va < g.vaddr {
        g.vaddr as int
    } else {
        va
    }
}

pub open spec fn fill_hi(g: Segment, va: int) -> int {
    if va + 4096 < g.vaddr + g.filesz {
        va + 4096
    } else {
        g.vaddr + g.filesz
    }
}

/// Filling the new page `page` for `va` from the file.
pub open spec fn page_filled(s: State, d: Seq<u8>, g: Segment, va: int, page: u64) -> State {
    let lo = fill_lo(g, va);
    let hi = fill_hi(g, va);
    if lo < hi {
        kernel::with_bytes(
            s,
            (page + (lo - va)) as u64,
            d.subrange(g.offset + (lo - g.vaddr), g.offset + (hi - g.vaddr)),
        )
    } else {
        s
    }
}

/// Loading the pages of a segment from `va` on.
pub open spec fn pages_loaded(s: State, d: Seq<u8>, pgd: u64, g: Segment, va: int) -> (
    State,
    Option<ElfError>,
)
    decreases
            (if va < end_page(g) {
                end_page(g) - va
            } else {
                0
            }),
{
    if va >= end_page(g) {
        (s, None)
    } else {
        let (s1, page) = kernel::page_made(s);
        match page {
            None => (s1, Some(ElfError::OutOfMemory)),
            Some(pa) => {
                let s2 = page_filled(s1, d, g, va, pa);
                let (s3, ok) = vspace::mapped(s2, pgd, va as u64, pa, pte_flags_of(g.flags));
                if ok {
                    pages_loaded(s3, d, pgd, g, va + 4096)
                } else {
                    (s3, Some(ElfError::MapConflict))
                }
            },
        }
    }
}

/// Loading the segments of the program headers from `i` on. `end` is the end of
/// the highest segment so far.
pub open spec fn segments_loaded(s: State, d: Seq<u8>, pgd: u64, i: int, end: int) -> (
    State,
    Result<int, ElfError>,
)
    decreases phdr_count(d) - i,
{
    if i >= phdr_count(d) {
        (s, Ok(end))
    } else {
        let p = phdr_at(d, i);
        if p + phdr_size(d) > d.len() {
            (s, Err(ElfError::PhdrOutOfBounds))
        } else {
            let g = segment_at(d, p);
            if bytes::le32(d, p) != PT_LOAD || g.memsz == 0 {
                segments_loaded(s, d, pgd, i + 1, end)
            } else if g.offset + g.filesz > d.len() {
                (s, Err(ElfError::SegmentOutOfBounds))
            } else if g.vaddr + g.memsz + 4095 > u64::MAX {
                (s, Err(ElfError::AddressOutOfRange))
            } else {
                let (s1, e) = pages_loaded(s, d, pgd, g, first_page(g));
                match e {
                    Some(e) => (s1, Err(e)),
                    None => segments_loaded(
                        s1,
                        d,
                        pgd,
                        i + 1,
                        if end_page(g) > end {
                            end_page(g)
                        } else {
                            end
                        },
                    ),
                }
            }
        }
    }
}

/// Loading an image: the entry point, and the end of its highest segment.
pub open spec fn image_loaded(s: State, d: Seq<u8>, pgd: u64) -> (
    State,
    Result<(u64, u64), ElfError>,
) {
    match header_error(d) {
        Some(e) => (s, Err(e)),
        None => {
            let (s1, r) = segments_loaded(s, d, pgd, 0, 0);
            match r {
                Err(e) => (s1, Err(e)),
                Ok(end) => (s1, Ok((entry_point(d), end as u64))),
            }
        },
    }
}

fn elf_flags_to_pte(flags: u32) -> (r: u64)
    ensures
        r == pte_flags_of(flags),
{
    let mut pte: u64 = PTE_U;
    if flags & PF_R != 0 {
        pte = pte | PTE_R;
    }
    if flags & PF_W != 0 {
        pte = pte | PTE_W;
    }
    if flags & PF_X != 0 {
        pte = pte | PTE_X;
    }
    pte
}

fn check_header(data: &[u8]) -> (r: Option<ElfError>)
    ensures
        r == header_error(data@),
{
    if data.len() < 64 {
        return Some(ElfError::TooShort);
    }
    if !(data[0] == 0x7f && data[1] == 0x45 && data[2] == 0x4c && data[3] == 0x46) {
        return Some(ElfError::BadMagic);
    }
    if data[4] != 2 {
        return Some(ElfError::NotElf64);
    }
    if data[5] != 1 {
        return Some(ElfError::NotLittleEndian);
    }
    if read_u16(data, 54) < 56 || read_u16(data, 56) == 0 {
        return Some(ElfError::BadPhdrs);
    }
    None
}

fn fill_page(k: &mut Kernel, data: &[u8], g: Segment, va: u64, page: u64)
    requires
        old(k).wf(),
        va + 4096 <= u64::MAX,
        page + 4096 <= u64::MAX,
        g.offset + g.filesz <= data@.len(),
    ensures
        final(k).wf(),
        final(k)@ == page_filled(old(k)@, data@, g, va as int, page),
{
    let lo: u64 = if va < g.vaddr {
        g.vaddr
    } else {
        va
    };
    let len: u64 = data.len() as u64;
    assert(g.offset + g.filesz <= len);
    let file_end: u64 = g.vaddr.saturating_add(g.filesz);
    let hi: u64 = if va + 4096 < file_end {
        va + 4096
    } else {
        file_end
    };
    if lo < hi {
        assert(hi == fill_hi(g, va as int) || fill_hi(g, va as int) == va + 4096);
        let from: u64 = g.offset + (lo - g.vaddr);
        let to: u64 = g.offset + (hi - g.vaddr);
        let part: &[u8] = &data[from as usize..to as usize];
        k.write_bytes(page + (lo - va), part);
    }
}

fn load_pages(k: &mut Kernel, data: &[u8], pgd: u64, g: Segment) -> (r: Option<ElfError>)
    requires
        old(k).wf(),
        g.offset + g.filesz <= data@.len(),
        g.vaddr + g.memsz + 4095 <= u64::MAX,
    ensures
        final(k).wf(),
        (final(k)@, r) == pages_loaded(old(k)@, data@, pgd, g, first_page(g)),
{
    let flags: u64 = elf_flags_to_pte(g.flags);
    let last: u64 = g.vaddr + g.memsz + 4095;
    let end: u64 = last - last % 4096;
    let mut va: u64 = g.vaddr - g.vaddr % 4096;
    while va < end
        invariant
            k.wf(),
            g.offset + g.filesz <= data@.len(),
            va % 4096 == 0,
            end % 4096 == 0,
            end == end_page(g),
            flags == pte_flags_of(g.flags),
            pages_loaded(k@, data@, pgd, g, va as int) == pages_loaded(
                old(k)@,
                data@,
                pgd,
                g,
                first_page(g),
            ),
        decreases end - va,
    {
        let page: u64 = match fresh_page(k) {
            Some(p) => p,
            None => {
                return Some(ElfError::OutOfMemory);
            },
        };
        fill_page(k, data, g, va, page);
        if vspace::map_page(k, pgd, va, page, flags).is_err() {
            return Some(ElfError::MapConflict);
        }
        va = va + 4096;
    }
    None
}

/// Parse `data`, map each loadable segment into the address space rooted at
/// `vspace_pa`, and return the entry point.
pub fn load(k: &mut Kernel, data: &[u8], vspace_pa: u64) -> (r: Result<u64, ElfError>)
    requires
        old(k).wf(),
    ensures
        final(k).wf(),
        ({
            let (s1, e) = image_loaded(old(k)@, data@, vspace_pa);
            &&& final(k)@ == s1
            &&& r == (match e {
                Ok(p) => Ok::<u64, ElfError>(p.0),
                Err(e) => Err::<u64, ElfError>(e),
            })
        }),
{
    match load_with_end(k, data, vspace_pa) {
        Ok(p) => Ok(p.0),
        Err(e) => Err(e),
    }
}

/// Like `load`, but also returns the page-aligned address just past the highest
/// segment.
pub fn load_with_end(k: &mut Kernel, data: &[u8], vspace_pa: u64) -> (r: Result<
    (u64, u64),
    ElfError,
>)
    requires
        old(k).wf(),
    ensures
        final(k).wf(),
        (final(k)@, r) == image_loaded(old(k)@, data@, vspace_pa),
{
    if let Some(e) = check_header(data) {
        return Err(e);
    }
    let entry: u64 = read_u64(data, 24);
    let phoff: u64 = read_u64(data, 32);
    let phentsize: u64 = read_u16(data, 54) as u64;
    let phnum: u64 = read_u16(data, 56) as u64;
    let mut max_end: u64 = 0;
    let mut i: u64 = 0;
    while i < phnum
        invariant
            k.wf(),
            i <= phnum <= 0xffff,
            56 <= phentsize <= 0xffff,
            data@.len() >= 64,
            header_error(data@) is None,
            entry == entry_point(data@),
            phoff == phdr_offset(data@),
            phentsize == phdr_size(data@),
            phnum == phdr_count(data@),
            ({
                let (s1, r) = segments_loaded(
                    k@,
                    data@,
                    vspace_pa,
                    i as int,
                    max_end as int,
                );
                let (s2, r2) = segments_loaded(old(k)@, data@, vspace_pa, 0, 0);
                s1 == s2 && r == r2
            }),
        decreases phnum - i,
    {
        assert(i * phentsize <= 0xffff * 0xffff) by (nonlinear_arith)
            requires
                i <= 0xffff,
                phentsize <= 0xffff,
        ;
        let len: u64 = data.len() as u64;
        let step: u64 = i * phentsize;
        if phoff > len || step > len - phoff || phentsize > len - phoff - step {
            return Err(ElfError::PhdrOutOfBounds);
        }
        let ph: usize = (phoff + step) as usize;
        if read_u32(data, ph) == PT_LOAD {
            let g = Segment {
                flags: read_u32(data, ph + 4),
                offset: read_u64(data, ph + 8),
                vaddr: read_u64(data, ph + 16),
                filesz: read_u64(data, ph + 32),
                memsz: read_u64(data, ph + 40),
            };
            if g.memsz != 0 {
                if g.offset > len || g.filesz > len - g.offset {
                    return Err(ElfError::SegmentOutOfBounds);
                }
                if g.memsz > u64::MAX - 4095 || g.vaddr > u64::MAX - 4095 - g.memsz {
                    return Err(ElfError::AddressOutOfRange);
                }
                if let Some(e) = load_pages(k, data, vspace_pa, g) {
                    return Err(e);
                }
                let last: u64 = g.vaddr + g.memsz + 4095;
                let end: u64 = last - last % 4096;
                if end > max_end {
                    max_end = end;
                }
            }
        }
        i += 1;
    }
    Ok((entry, max_end))
}

/// A page of a loaded segment holds the file's bytes where the segment has any,
/// and zeros everywhere else.
pub proof fn law_loaded_page_content(s: State, d: Seq<u8>, g: Segment, va: int, o: int)
    requires
        buddy::lists_ok(s.mm.lists),
        g.offset + g.filesz <= d.len(),
        0 <= o < 4096,
    ensures
        kernel::page_made(s) matches (s1, Some(pa)) ==> objects::at(
            page_filled(s1, d, g, va, pa).bytes,
            (pa + o) as u64,
        ) == (if g.vaddr <= va + o < g.vaddr + g.filesz {
            d[g.offset + (va + o - g.vaddr)]
        } else {
            0
        }),
{
    kernel::lemma_page_made(s);
    let (s1, page) = kernel::page_made(s);
    if let Some(pa) = page {
        let lo = fill_lo(g, va);
        let hi = fill_hi(g, va);
        let a = (pa + o) as u64;
        assert(objects::at(s1.bytes, a) == 0);
        if lo < hi {
            let data = d.subrange(g.offset + (lo - g.vaddr), g.offset + (hi - g.vaddr));
            kernel::lemma_stored(s1.bytes, (pa + (lo - va)) as u64, data, a);
        }
    }
}

} // verus!
