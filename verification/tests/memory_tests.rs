//! Physical memory: the device tree, the allocators and the page tables.
use ferrite::arch::riscv64::mmu::{self, PTE_R, PTE_U, PTE_W};
use ferrite::arch::riscv64::vspace::{
    self, boot_satp, create_elf_vspace, create_process_vspace, map_page, pgd_to_satp,
    satp_to_pgd_pa, save_boot_satp, va_to_pa,
};
use ferrite::kernel::{fresh_page, Kernel};
use ferrite::mm::buddy::{BuddyAllocator, PAGE_SIZE};
use ferrite::mm::devicetree::{is_readable, memory_regions};
use ferrite::mm::{self, align_down, align_up, MemoryError, Mm};
use ferrite::proc::Programs;

const BASE: u64 = 0x8000_0000;

fn be32(v: u32) -> Vec<u8> {
    v.to_be_bytes().to_vec()
}

fn be64(v: u64) -> Vec<u8> {
    v.to_be_bytes().to_vec()
}

fn node(name: &str, inner: Vec<u8>) -> Vec<u8> {
    let mut b = be32(1);
    b.extend_from_slice(name.as_bytes());
    b.push(0);
    while b.len() % 4 != 0 {
        b.push(0);
    }
    b.extend(inner);
    b.extend(be32(2));
    b
}

fn prop(name_off: u32, value: &[u8]) -> Vec<u8> {
    let mut b = be32(3);
    b.extend(be32(value.len() as u32));
    b.extend(be32(name_off));
    b.extend_from_slice(value);
    while b.len() % 4 != 0 {
        b.push(0);
    }
    b
}

/// A blob with one memory node that lists `regions`.
fn blob(regions: &[(u64, u64)]) -> Vec<u8> {
    let mut reg: Vec<u8> = Vec::new();
    for (start, size) in regions {
        reg.extend(be64(*start));
        reg.extend(be64(*size));
    }
    let mut memory = prop(27, b"memory\0");
    memory.extend(prop(39, &reg));
    let mut root = prop(0, &be32(2));
    root.extend(prop(15, &be32(2)));
    root.extend(node("memory@80000000", memory));
    tree_blob("", root)
}

/// A blob whose root node has the given name and inner tokens.
fn tree_blob(name: &str, root: Vec<u8>) -> Vec<u8> {
    let strings = b"#address-cells\0#size-cells\0device_type\0reg\0h\xc3\xb6he\0\xff\0";
    let mut structs = node(name, root);
    structs.extend(be32(9));
    let off_struct: u32 = 56;
    let off_strings: u32 = off_struct + structs.len() as u32;
    let total: u32 = off_strings + strings.len() as u32;
    let mut b: Vec<u8> = Vec::new();
    for v in [
        0xd00d_feed,
        total,
        off_struct,
        off_strings,
        40,
        17,
        16,
        0,
        strings.len() as u32,
        structs.len() as u32,
    ] {
        b.extend(be32(v));
    }
    b.extend([0u8; 16]);
    b.extend(structs);
    b.extend_from_slice(strings);
    b
}

fn kernel(pages: u64) -> Kernel {
    let mm = mm::from_regions(&vec![(BASE, Some(pages * PAGE_SIZE))], BASE, BASE + (1 << 30))
        .unwrap();
    Kernel::new(mm, Programs { init: vec![], spawn_demo: vec![], linux_demo: vec![] })
}

#[test]
fn device_tree_memory_is_listed() {
    let b = blob(&[(0x8000_0000, 0x800_0000), (0x1_0000_0000, 0x1000)]);
    assert!(is_readable(&b));
    assert_eq!(
        memory_regions(&b),
        Some(vec![(0x8000_0000, Some(0x800_0000)), (0x1_0000_0000, Some(0x1000))])
    );
}

#[test]
fn device_tree_with_gaps_and_unusual_names_is_read() {
    let nop = be32(4);
    let mut memory = nop.clone();
    memory.extend(prop(27, b"memory\0"));
    memory.extend(&nop);
    memory.extend(prop(43, b"x"));
    memory.extend(&nop);
    memory.extend(prop(39, &[be32(0x8000_0000), be32(0x1000)].concat()));
    let mut deep = node("leaf", vec![]);
    for _ in 0..1000 {
        deep = node("b\u{fc}s", deep);
    }
    let mut root = nop.clone();
    root.extend(prop(0, &be32(1)));
    root.extend(deep);
    root.extend(node("memory", memory));
    let b = tree_blob("@root", root);
    assert_eq!(memory_regions(&b), Some(vec![(0x8000_0000, Some(0x1000))]));
}

#[test]
fn cell_sizes_decide_what_a_region_is() {
    let reg = [be64(0x8000_0000), be32(0x2000), be32(7)].concat();
    let read = |a: u32, c: u32| {
        let mut root = prop(0, &be32(a));
        root.extend(prop(15, &be32(c)));
        root.extend(node("memory", prop(39, &reg)));
        memory_regions(&tree_blob("", root))
    };
    assert_eq!(read(2, 1), Some(vec![(0x8000_0000, Some(0x2000))]));
    assert_eq!(read(2, 0), Some(vec![(0x8000_0000, None), (0x2000_0000_0007, None)]));
    assert_eq!(read(1, 1), Some(vec![(0, Some(0x8000_0000)), (0x2000, Some(7))]));
    assert_eq!(read(0, 1), Some(vec![]));
    assert_eq!(read(3, 1), None);
}

#[test]
fn names_that_are_not_text_are_refused() {
    let mut memory = prop(49, b"x");
    memory.extend(prop(39, &[be64(0x8000_0000), be32(0x1000)].concat()));
    assert_eq!(memory_regions(&tree_blob("", node("memory", memory))), None);
    let plain = prop(39, &[be64(0x8000_0000), be32(0x1000)].concat());
    assert_eq!(memory_regions(&tree_blob("name", node("memory", plain.clone()))), None);
    assert_eq!(
        memory_regions(&tree_blob("", node("memory", plain))),
        Some(vec![(0x8000_0000, Some(0x1000))])
    );
}

#[test]
fn damaged_device_tree_is_refused() {
    let good = blob(&[(0x8000_0000, 0x800_0000)]);
    let mut bad_magic = good.clone();
    bad_magic[0] = 0;
    assert!(!is_readable(&bad_magic));
    assert_eq!(memory_regions(&bad_magic), None);
    assert!(!is_readable(&good[..good.len() - 1]));
    assert!(!is_readable(&[]));
    assert!(matches!(mm::init(&bad_magic, BASE, BASE), Err(MemoryError::InvalidFdt)));
}

#[test]
fn memory_between_kernel_and_blob_is_managed() {
    let b = blob(&[(BASE, 0x800_0000)]);
    let mm = mm::init(&b, BASE + 0x200_1000, BASE + 0x100_0001).unwrap();
    // From the page after the kernel up to the boundary below the blob.
    assert_eq!(mm.buddy.free_pages, (0x200_0000 - 0x100_1000) / PAGE_SIZE);
    assert_eq!(mm.buddy.total_pages, mm.buddy.free_pages);
}

#[test]
fn overlapping_regions_are_refused() {
    let regions = vec![(BASE, Some(0x10_0000)), (BASE + 0x8_0000, Some(0x10_0000))];
    assert!(matches!(mm::from_regions(&regions, BASE, BASE + (1 << 30)), Err(MemoryError::BadRegion)));
}

#[test]
fn rounding_to_boundaries() {
    assert_eq!(align_up(0x1001, 0x1000), 0x2000);
    assert_eq!(align_up(0x2000, 0x1000), 0x2000);
    assert_eq!(align_down(0x1fff, 0x1000), 0x1000);
    assert_eq!(align_down(0x2000, 0x1000), 0x2000);
}

#[test]
fn freeing_restores_the_allocator() {
    let mut b = BuddyAllocator::new();
    b.add_region(BASE, BASE + 16 * PAGE_SIZE);
    let before = b.free_pages;
    let one = b.allocate(0).unwrap();
    let two = b.allocate(1).unwrap();
    assert!(one + PAGE_SIZE <= two || two + 2 * PAGE_SIZE <= one);
    b.free(one, 0);
    b.free(two, 1);
    assert_eq!(b.free_pages, before);
    // Everything has been merged again.
    assert_eq!(b.allocate(4), Some(BASE));
}

#[test]
fn region_is_listed_in_largest_blocks() {
    let mut b = BuddyAllocator::new();
    b.add_region(BASE + 3 * PAGE_SIZE, BASE + 16 * PAGE_SIZE);
    assert_eq!((b.total_pages, b.free_pages), (13, 13));
    assert_eq!(b.allocate(3), Some(BASE + 8 * PAGE_SIZE));
    assert_eq!(b.allocate(3), None);
    assert_eq!(b.allocate(2), Some(BASE + 4 * PAGE_SIZE));
    assert_eq!(b.allocate(1), None);
    assert_eq!(b.allocate(0), Some(BASE + 3 * PAGE_SIZE));
    assert_eq!(b.allocate(0), None);
}

#[test]
fn slab_cells_are_apart_and_reused() {
    let mut k = kernel(8);
    let a = mm::slab_alloc(&mut k, 10).unwrap();
    let b = mm::slab_alloc(&mut k, 16).unwrap();
    let c = mm::slab_alloc(&mut k, 17).unwrap();
    let d = mm::slab_alloc(&mut k, 512).unwrap();
    assert_eq!(b, a + 16);
    assert_ne!(c & !0xfff, a & !0xfff);
    assert_ne!(d & !0xfff, c & !0xfff);
    assert_eq!(mm::slab_alloc(&mut k, 513), None);
    mm::slab_free(&mut k, a, 10);
    assert_eq!(mm::slab_alloc(&mut k, 12), Some(a));
}

#[test]
fn slab_cells_come_zeroed() {
    let mut k = kernel(8);
    let a = mm::slab_alloc(&mut k, 24).unwrap();
    assert_ne!(a, 0);
    k.write_bytes(a, &[7; 40]);
    mm::slab_free(&mut k, a, 24);
    assert_eq!(mm::slab_alloc(&mut k, 24), Some(a));
    assert_eq!(k.read_bytes(a, 32), vec![0; 32]);
    assert_eq!(k.read_bytes(a + 32, 8), vec![7; 8]);
}

#[test]
fn largest_block_is_a_gibibyte() {
    let mut b = BuddyAllocator::new();
    b.add_region(0x8000_0000, 0xC000_0000);
    assert_eq!(b.allocate(18), Some(0x8000_0000));
    assert_eq!(b.allocate(0), None);
    b.free(0x8000_0000, 18);
    assert_eq!(b.allocate(17), Some(0x8000_0000));
    assert_eq!(b.allocate(17), Some(0xA000_0000));
}

#[test]
fn bytes_after_the_last_page_are_left_out() {
    let mm = mm::from_regions(&vec![(BASE, Some(3 * PAGE_SIZE + 100))], BASE, BASE + (1 << 30))
        .unwrap();
    assert_eq!(mm.buddy.free_pages, 3);
    let odd = mm::from_regions(&vec![(BASE + 100, Some(3 * PAGE_SIZE))], BASE, BASE + (1 << 30));
    assert!(matches!(odd, Err(MemoryError::BadRegion)));
}

#[test]
fn pages_and_blocks_come_and_go() {
    let mut mm = Mm::new();
    mm.buddy.add_region(BASE, BASE + 4 * PAGE_SIZE);
    let p = mm::alloc_page(&mut mm).unwrap();
    let q = mm::alloc_pages(&mut mm, 1).unwrap();
    assert_eq!(mm.buddy.free_pages, 1);
    mm::free_page(&mut mm, p);
    mm::free_pages(&mut mm, q, 1);
    assert_eq!(mm.buddy.free_pages, 4);
}

#[test]
fn satp_names_the_root_table() {
    assert_eq!(pgd_to_satp(0x8123_4000), 0x9000_0000_0008_1234);
    assert_eq!(satp_to_pgd_pa(0x9000_0000_0008_1234), 0x8123_4000);
    let mut k = kernel(4);
    save_boot_satp(&mut k, 7);
    assert_eq!(boot_satp(&k), 7);
}

#[test]
fn mapped_page_is_found_and_others_stay() {
    let mut k = kernel(64);
    let pgd = fresh_page(&mut k).unwrap();
    let page = fresh_page(&mut k).unwrap();
    let other = fresh_page(&mut k).unwrap();
    assert_eq!(va_to_pa(&k, pgd, 0x1_2345), None);
    map_page(&mut k, pgd, 0x1_2000, page, PTE_R | PTE_W | PTE_U).unwrap();
    assert_eq!(va_to_pa(&k, pgd, 0x1_2345), Some(page + 0x345));
    assert_eq!(va_to_pa(&k, pgd, 0x1_3345), None);
    k.write_bytes(page, &[1, 2, 3]);
    map_page(&mut k, pgd, 0x4000_0000, other, PTE_R | PTE_U).unwrap();
    assert_eq!(va_to_pa(&k, pgd, 0x4000_0fff), Some(other + 0xfff));
    assert_eq!(va_to_pa(&k, pgd, 0x1_2345), Some(page + 0x345));
    assert_eq!(k.read_bytes(page, 4), vec![1, 2, 3, 0]);
}

#[test]
fn mapping_runs_out_of_memory() {
    let mut k = kernel(2);
    let pgd = fresh_page(&mut k).unwrap();
    assert_eq!(map_page(&mut k, pgd, 0x1000, 0x5000, PTE_R), Err(()));
}

#[test]
fn process_space_covers_kernel_memory_by_superpage() {
    let mut k = kernel(64);
    let pgd = create_process_vspace(&mut k).unwrap();
    assert_eq!(va_to_pa(&k, pgd, 0x8000_1234), Some(0x8000_1234));
    assert_eq!(va_to_pa(&k, pgd, 0x1000_0000), Some(0x1000_0000));
    // A superpage in the way is refused.
    assert_eq!(map_page(&mut k, pgd, 0x8000_0000, 0x9000_0000, PTE_R), Err(()));
}

#[test]
fn elf_space_maps_the_interrupt_controller() {
    let mut k = kernel(64);
    let pgd = create_elf_vspace(&mut k).unwrap();
    assert_eq!(va_to_pa(&k, pgd, 0x8020_0000), Some(0x8020_0000));
    assert_eq!(va_to_pa(&k, pgd, 0x0c00_0004), Some(0x0c00_0004));
    assert_eq!(va_to_pa(&k, pgd, 0x0c20_1004), Some(0x0c20_1004));
    assert_eq!(va_to_pa(&k, pgd, 0x1_0000), None);
}

#[test]
fn address_spaces_share_the_user_mirror() {
    let mut k = kernel(64);
    k.boot_user_pte = mmu::boot_pgd_user_pte(0x8100_2000);
    let process = create_process_vspace(&mut k).unwrap();
    let elf = create_elf_vspace(&mut k).unwrap();
    assert_ne!(process, elf);
    assert_eq!(k.ptes.read(process + 8), (0x8100_2000u64 >> 12 << 10) | 1);
    assert_eq!(k.ptes.read(elf + 8), (0x8100_2000u64 >> 12 << 10) | 1);
}

#[test]
fn boot_paging_turns_on_sv48() {
    let p = mmu::enable_paging(0x8100_0000, 0x8100_1000, 0x8100_2000);
    assert!(mmu::assert_sv48_active(p.satp));
    assert_eq!(p.satp, pgd_to_satp(0x8100_0000));
    assert!(!mmu::assert_sv48_active(0));
    assert_eq!(mmu::table_pte(0x8100_1000), (0x8100_1000u64 >> 12 << 10) | 1);
}

#[test]
fn tlb_flush_is_requested() {
    let mut k = kernel(4);
    assert!(!k.flush_tlb);
    vspace::flush_tlb_all(&mut k);
    assert!(k.flush_tlb);
}
