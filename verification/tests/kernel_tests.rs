//! Page allocator, capabilities, CNodes, untyped memory and layouts.
use ferrite::cap::cnode;
use ferrite::cap::untyped::{object_size, UntypedHeader};
use ferrite::cap::{Cap, CapType, Rights};
use ferrite::mm::buddy::{BuddyAllocator, PAGE_SIZE};
use ferrite::objects::Objects;

const BASE: u64 = 0x8000_0000;

fn allocator(pages: u64) -> BuddyAllocator {
    let mut b = BuddyAllocator::new();
    b.add_region(BASE, BASE + pages * PAGE_SIZE);
    b
}

#[test]
fn alloc_order0_aligned() {
    let mut b = allocator(4);
    let pa = b.allocate(0).expect("alloc failed");
    assert_eq!(pa % PAGE_SIZE, 0, "page must be page-aligned");
}

#[test]
#[allow(non_snake_case)]
fn alloc_orderN_aligned() {
    let mut b = allocator(8);
    let pa = b.allocate(2).expect("alloc(2) failed");
    assert_eq!(pa % (PAGE_SIZE * 4), 0, "order-2 alloc must be 4-page aligned");
}

#[test]
fn alloc_returns_different_pages() {
    let mut b = allocator(4);
    let a = b.allocate(0).unwrap();
    let b2 = b.allocate(0).unwrap();
    assert_ne!(a, b2, "two allocs must return different addresses");
}

#[test]
fn alloc_exhaustion_returns_none() {
    let mut b = allocator(2);
    b.allocate(0).unwrap();
    b.allocate(0).unwrap();
    assert!(b.allocate(0).is_none(), "exhausted allocator must return None");
}

#[test]
fn free_then_alloc_succeeds() {
    let mut b = allocator(2);
    let pa = b.allocate(0).unwrap();
    b.free(pa, 0);
    let pa2 = b.allocate(0).expect("alloc after free must succeed");
    assert_eq!(pa, pa2, "freed page should be reused");
}

#[test]
fn free_coalesces_buddies() {
    let mut b = allocator(4);
    let a = b.allocate(0).unwrap();
    let b2 = b.allocate(0).unwrap();
    b.free(a, 0);
    b.free(b2, 0);
    let large = b.allocate(1).expect("coalesced order-1 alloc must succeed");
    assert_eq!(large % (PAGE_SIZE * 2), 0);
}

#[test]
fn free_page_count_tracks() {
    let mut b = allocator(4);
    assert_eq!(b.free_pages, 4);
    b.allocate(0).unwrap();
    assert_eq!(b.free_pages, 3);
    let pa = b.allocate(0).unwrap();
    assert_eq!(b.free_pages, 2);
    b.free(pa, 0);
    assert_eq!(b.free_pages, 3);
}

#[test]
fn total_pages_matches_region() {
    let b = allocator(8);
    assert_eq!(b.total_pages, 8);
}

#[test]
fn cap_null_is_all_zeros() {
    let cap = Cap::null();
    assert!(
        cap.cap_type.to_u8() == 0 && cap.rights.bits() == 0 && cap.ptr == 0 && cap.extra == 0,
        "Cap::NULL must be all-zero bytes"
    );
}

#[test]
fn cap_size_is_24() {
    assert_eq!(std::mem::size_of::<Cap>(), 24, "Cap must be exactly 24 bytes");
}

#[test]
fn captype_from_u8_roundtrip() {
    for v in 0u8..=10 {
        let ct = CapType::from_u8(v).expect("valid variant");
        assert_eq!(ct.to_u8(), v, "from_u8({v}) round-trip failed");
    }
    assert!(CapType::from_u8(11).is_none(), "out-of-range must return None");
    assert!(CapType::from_u8(255).is_none(), "out-of-range must return None");
}

#[test]
fn rights_contains() {
    assert!(Rights::all().contains(Rights::read()));
    assert!(Rights::all().contains(Rights::write()));
    assert!(!Rights::none().contains(Rights::read()));
    assert!(!Rights::read().contains(Rights::write()));
}

#[test]
fn rights_bitand() {
    assert_eq!(Rights::all() & Rights::read(), Rights::read());
    assert_eq!(Rights::read() & Rights::write(), Rights::none());
}

#[test]
fn rights_from_bits_truncate() {
    let r = Rights::from_bits_truncate(0xFF);
    assert_eq!(r.bits(), 0x1F, "must mask to 5 bits");
}

#[test]
fn cap_is_null() {
    assert!(Cap::null().is_null());
    let cap = Cap::new(CapType::Endpoint, 0x1000, 0, Rights::all());
    assert!(!cap.is_null());
}

#[test]
fn cap_new_fields() {
    let cap = Cap::new(CapType::CNode, 0xDEAD_0000, 6, Rights::read());
    assert_eq!(cap.cap_type, CapType::CNode);
    assert_eq!(cap.ptr, 0xDEAD_0000);
    assert_eq!(cap.extra, 6);
    assert_eq!(cap.rights, Rights::read());
}

const PA: u64 = 0x9000_0000;

#[test]
fn lookup_empty_slot_returns_null() {
    let mem: Objects<Cap> = Objects::new();
    let cap = cnode::lookup(&mem, PA, 3, 0).unwrap();
    assert!(cap.is_null());
}

#[test]
fn lookup_out_of_range() {
    let mem: Objects<Cap> = Objects::new();
    assert_eq!(cnode::lookup(&mem, PA, 2, 4), Err(cnode::Error::OutOfRange));
    assert_eq!(cnode::lookup(&mem, PA, 2, 100), Err(cnode::Error::OutOfRange));
}

#[test]
fn insert_then_lookup_roundtrip() {
    let mut mem: Objects<Cap> = Objects::new();
    let cap = Cap::new(CapType::Endpoint, 0x8000_1000, 0, Rights::all());
    cnode::insert(&mut mem, PA, 3, 2, cap).unwrap();
    let got = cnode::lookup(&mem, PA, 3, 2).unwrap();
    assert_eq!(got.cap_type, CapType::Endpoint);
    assert_eq!(got.ptr, 0x8000_1000);
}

#[test]
fn insert_occupied_fails() {
    let mut mem: Objects<Cap> = Objects::new();
    let cap = Cap::new(CapType::Endpoint, 0x1000, 0, Rights::all());
    cnode::insert(&mut mem, PA, 3, 0, cap).unwrap();
    assert_eq!(
        cnode::insert(&mut mem, PA, 3, 0, cap),
        Err(cnode::Error::SlotOccupied),
        "inserting into occupied slot must fail"
    );
}

#[test]
fn delete_clears_slot() {
    let mut mem: Objects<Cap> = Objects::new();
    let cap = Cap::new(CapType::Frame, 0x2000, 0, Rights::all());
    cnode::insert(&mut mem, PA, 3, 1, cap).unwrap();
    let old = cnode::delete(&mut mem, PA, 3, 1).unwrap();
    assert_eq!(old.cap_type, CapType::Frame);
    let after = cnode::lookup(&mem, PA, 3, 1).unwrap();
    assert!(after.is_null(), "slot must be null after delete");
}

#[test]
fn delete_empty_fails() {
    let mut mem: Objects<Cap> = Objects::new();
    assert_eq!(cnode::delete(&mut mem, PA, 3, 0), Err(cnode::Error::SlotEmpty));
}

#[test]
fn mint_reduces_rights() {
    let mut mem: Objects<Cap> = Objects::new();
    let cap = Cap::new(CapType::Endpoint, 0x1000, 0, Rights::all());
    cnode::insert(&mut mem, PA, 3, 0, cap).unwrap();
    cnode::mint(&mut mem, PA, 3, 0, 1, Rights::read()).unwrap();
    let minted = cnode::lookup(&mem, PA, 3, 1).unwrap();
    assert_eq!(minted.rights, Rights::read());
}

#[test]
fn mint_escalation_rejected() {
    let mut mem: Objects<Cap> = Objects::new();
    let cap = Cap::new(CapType::Endpoint, 0x1000, 0, Rights::read());
    cnode::insert(&mut mem, PA, 3, 0, cap).unwrap();
    assert_eq!(
        cnode::mint(&mut mem, PA, 3, 0, 1, Rights::write()),
        Err(cnode::Error::InsufficientRights),
        "cannot escalate rights via mint"
    );
}

#[test]
fn fresh_cnode_all_null() {
    let mem: Objects<Cap> = Objects::new();
    for i in 0..8 {
        assert!(cnode::lookup(&mem, PA, 3, i).unwrap().is_null(), "slot {i} should be null");
    }
}

#[test]
fn force_insert_overwrites() {
    let mut mem: Objects<Cap> = Objects::new();
    let cap1 = Cap::new(CapType::Endpoint, 0x1000, 0, Rights::all());
    let cap2 = Cap::new(CapType::Frame, 0x2000, 0, Rights::all());
    cnode::insert(&mut mem, PA, 3, 0, cap1).unwrap();
    cnode::force_insert(&mut mem, PA, 0, cap2);
    let got = cnode::lookup(&mem, PA, 3, 0).unwrap();
    assert_eq!(got.cap_type, CapType::Frame);
    assert_eq!(got.ptr, 0x2000);
}

#[test]
fn bump_basic() {
    let mut hdr = UntypedHeader { start: 0x1000, end: 0x2000, watermark: 0x1010 };
    let pa = hdr.bump(64, 8).expect("bump should succeed");
    assert!(pa >= 0x1010, "must be at or after watermark");
    assert!(pa % 8 == 0, "must be 8-aligned");
    assert_eq!(hdr.watermark, pa + 64);
}

#[test]
fn bump_alignment() {
    let mut hdr = UntypedHeader { start: 0x1000, end: 0x5000, watermark: 0x1001 };
    let pa = hdr.bump(16, 64).expect("bump with alignment");
    assert_eq!(pa % 64, 0, "result must be 64-aligned");
}

#[test]
fn bump_exhaustion() {
    let mut hdr = UntypedHeader { start: 0x1000, end: 0x1100, watermark: 0x10F0 };
    let pa = hdr.bump(16, 1).expect("exactly fits");
    assert_eq!(pa, 0x10F0);
    assert!(hdr.bump(1, 1).is_none(), "exhausted: must return None");
}

#[test]
fn object_size_frame_order0() {
    assert_eq!(object_size(CapType::Frame, 0), PAGE_SIZE);
}

#[test]
fn object_size_frame_order2() {
    assert_eq!(object_size(CapType::Frame, 2), PAGE_SIZE * 4);
}

#[test]
fn object_size_cnode_sb3() {
    assert_eq!(object_size(CapType::CNode, 3), 192);
}

#[test]
fn object_size_null_is_zero() {
    assert_eq!(object_size(CapType::Null, 0), 0);
}

#[test]
fn object_size_endpoint_nonzero() {
    assert!(object_size(CapType::Endpoint, 0) > 0);
}

#[test]
fn cap_size_exactly_24() {
    assert_eq!(std::mem::size_of::<Cap>(), 24);
}

#[test]
fn cap_align_is_8() {
    assert_eq!(std::mem::align_of::<Cap>(), 8);
}

#[test]
fn rights_size_is_1() {
    assert_eq!(std::mem::size_of::<Rights>(), 1);
}

#[test]
fn captype_size_is_1() {
    assert_eq!(std::mem::size_of::<CapType>(), 1);
}

#[test]
fn page_size_is_4096() {
    assert_eq!(PAGE_SIZE, 4096);
}
