#![allow(unused_mut)]

use lumen_runtime::size_class_alloc::{AllocErr, CannotReallocInPlace, SizeClass, SizeClassAlloc};

fn classes(sizes: &[usize]) -> Vec<SizeClass> {
    let mut out = Vec::new();
    for s in sizes {
        out.push(SizeClass::new(*s));
    }
    out
}

#[test]
fn size_class_for_rounds_up_and_rejects_oversize() {
    let alloc = SizeClassAlloc::new(&classes(&[16, 32, 64]));
    assert_eq!(alloc.size_class_for(10), Some(SizeClass::new(16)));
    assert_eq!(alloc.size_class_for(16), Some(SizeClass::new(16)));
    assert_eq!(alloc.size_class_for(17), Some(SizeClass::new(32)));
    assert_eq!(alloc.size_class_for(50), Some(SizeClass::new(64)));
    assert_eq!(alloc.size_class_for(64), Some(SizeClass::new(64)));
    assert_eq!(alloc.size_class_for(100), None);
    assert_eq!(alloc.max_size_class(), 64);
}

#[test]
fn size_classes_are_sorted_and_deduplicated() {
    let alloc = SizeClassAlloc::new(&classes(&[64, 16, 32, 16, 64]));
    assert_eq!(alloc.size_class_for(10), Some(SizeClass::new(16)));
    assert_eq!(alloc.size_class_for(20), Some(SizeClass::new(32)));
    assert_eq!(alloc.max_size_class(), 64);
}

#[test]
fn index_for_positions_follow_table_order() {
    let alloc = SizeClassAlloc::new(&classes(&[16, 32, 64]));
    assert_eq!(alloc.index_for(SizeClass::new(16)), 0);
    assert_eq!(alloc.index_for(SizeClass::new(32)), 1);
    assert_eq!(alloc.index_for(SizeClass::new(64)), 2);
    assert_eq!(alloc.index_for(SizeClass::new(48)), usize::MAX);
}

#[test]
fn oversized_request_is_rejected() {
    let mut alloc = SizeClassAlloc::new(&classes(&[16, 32, 64]));
    assert_eq!(alloc.allocate(100, 8), Err(AllocErr));
}

#[test]
fn allocated_blocks_hold_their_pattern() {
    let mut alloc = SizeClassAlloc::new(&classes(&[16, 32]));
    let a = alloc.allocate(16, 8).unwrap();
    let b = alloc.allocate(16, 8).unwrap();
    assert_ne!(a, b);
    for i in 0..16 {
        alloc.write_byte(a + i, 0xAA);
    }
    for i in 0..16 {
        alloc.write_byte(b + i, 0x55);
    }
    for i in 0..16 {
        assert_eq!(alloc.read_byte(a + i), 0xAA);
        assert_eq!(alloc.read_byte(b + i), 0x55);
    }
}

#[test]
fn freed_block_is_reused() {
    let mut alloc = SizeClassAlloc::new(&classes(&[16]));
    let a = alloc.allocate(16, 8).unwrap();
    alloc.deallocate(a, 16);
    let b = alloc.allocate(16, 8).unwrap();
    assert_eq!(a, b);
}

#[test]
fn carrier_sized_for_four_blocks_grows_on_the_fifth_request() {
    // One size class of 16 bytes; each carrier is 64 bytes, so it holds
    // exactly 4 blocks.
    let mut alloc = SizeClassAlloc::new_with_carrier_size(&classes(&[16]), 64, 8);
    let mut first_four = Vec::new();
    for _ in 0..4 {
        first_four.push(alloc.allocate(16, 8).unwrap());
    }
    for i in 0..4 {
        for j in 0..4 {
            if i != j {
                assert_ne!(first_four[i], first_four[j]);
            }
        }
    }
    // The first carrier starts at 64 and is full; the fifth request must be
    // served from a freshly created carrier at 128, not fail.
    for a in &first_four {
        assert!(64 <= *a && *a < 128);
    }
    let fifth = alloc.allocate(16, 8).unwrap();
    assert!(128 <= fifth && fifth < 192);
    // A sixth request does not create yet another carrier.
    let sixth = alloc.allocate(16, 8).unwrap();
    assert!(128 <= sixth && sixth < 192);
    assert_ne!(fifth, sixth);
}

#[test]
fn growth_stops_at_the_carrier_budget() {
    // Budget of exactly one carrier: once its 4 blocks are taken, requests
    // fail rather than map further memory.
    let mut alloc = SizeClassAlloc::new_with_carrier_size(&classes(&[16]), 64, 1);
    for _ in 0..4 {
        alloc.allocate(16, 8).unwrap();
    }
    assert_eq!(alloc.allocate(16, 8), Err(AllocErr));
}

#[test]
fn reallocate_within_class_returns_identical_pointer() {
    let mut alloc = SizeClassAlloc::new(&classes(&[16, 32, 64]));
    let a = alloc.allocate(10, 8).unwrap();
    assert_eq!(alloc.reallocate(a, 10, 16), Ok(a));
    assert_eq!(alloc.reallocate(a, 16, 1), Ok(a));
}

#[test]
fn reallocate_across_classes_preserves_the_common_prefix() {
    let mut alloc = SizeClassAlloc::new(&classes(&[16, 32, 64]));
    let a = alloc.allocate(16, 8).unwrap();
    for i in 0..16 {
        alloc.write_byte(a + i, i as u8 + 1);
    }
    let b = alloc.reallocate(a, 16, 40).unwrap();
    assert_ne!(a, b);
    for i in 0..16 {
        assert_eq!(alloc.read_byte(b + i), i as u8 + 1);
    }
    // Shrinking back across classes copies the smaller size.
    let c = alloc.reallocate(b, 40, 10).unwrap();
    for i in 0..10 {
        assert_eq!(alloc.read_byte(c + i), i as u8 + 1);
    }
}

#[test]
fn realloc_in_place_succeeds_exactly_within_one_class() {
    let mut alloc = SizeClassAlloc::new(&classes(&[16, 32, 64]));
    let a = alloc.allocate(10, 8).unwrap();
    assert_eq!(alloc.realloc_in_place(a, 10, 16), Ok(()));
    assert_eq!(alloc.realloc_in_place(a, 10, 12), Ok(()));
    assert_eq!(alloc.realloc_in_place(a, 10, 17), Err(CannotReallocInPlace));
    assert_eq!(alloc.realloc_in_place(a, 10, 64), Err(CannotReallocInPlace));
}

#[test]
fn zero_size_allocations_reallocate_in_their_class() {
    let mut alloc = SizeClassAlloc::new(&classes(&[16, 32]));
    let a = alloc.allocate(0, 8).unwrap();
    assert_eq!(alloc.reallocate(a, 0, 16), Ok(a));
    let b = alloc.reallocate(a, 0, 32).unwrap();
    assert_ne!(a, b);
}

#[test]
fn grow_and_shrink_in_place_stay_within_the_class() {
    let mut alloc = SizeClassAlloc::new(&classes(&[16, 32]));
    let a = alloc.allocate(10, 8).unwrap();
    assert_eq!(alloc.grow_in_place(a, 10, 16), Ok(()));
    assert_eq!(alloc.grow_in_place(a, 10, 17), Err(CannotReallocInPlace));
    assert_eq!(alloc.shrink_in_place(a, 16, 2), Ok(()));
    assert_eq!(alloc.shrink_in_place(a, 32, 16), Err(CannotReallocInPlace));
}

#[test]
fn destroy_releases_every_region_exactly_once() {
    let mut alloc = SizeClassAlloc::new_with_carrier_size(&classes(&[16, 32]), 64, 8);
    // Fill the 16-byte class (4 blocks) and force a second carrier for it.
    for _ in 0..5 {
        alloc.allocate(16, 8).unwrap();
    }
    alloc.allocate(32, 8).unwrap();
    let mut released = alloc.destroy();
    // Two initial carriers plus one grown carrier.
    assert_eq!(released.len(), 3);
    released.sort();
    assert_eq!(released, vec![64, 128, 192]);
}

#[test]
fn addresses_recover_their_carrier_by_masking() {
    // Carriers are aligned to their own power-of-two size, so clearing the
    // low bits of any block address yields the carrier base.
    let mut alloc = SizeClassAlloc::new_with_carrier_size(&classes(&[16]), 64, 8);
    let a = alloc.allocate(16, 8).unwrap();
    let base = a & !(64 - 1);
    assert_eq!(base, 64);
    alloc.deallocate(a, 16);
    let b = alloc.allocate(16, 8).unwrap();
    assert_eq!(a, b);
}
