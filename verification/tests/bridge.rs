//! The cross-domain bridge: offset translation, alignment, allocation, and
//! the shared byte region.

use benchmark::region::{align, BumpAllocator, Region, SharedRegion};

#[test]
fn offset_round_trip_every_address() {
    let r = Region::new(4096, 256);
    for addr in 4096..(4096 + 256) {
        let off = r.to_offset(addr);
        assert_eq!(r.from_offset(off), addr);
    }
    for off in 0..256 {
        let addr = r.from_offset(off);
        assert_eq!(r.to_offset(addr), off);
    }
}

#[test]
fn align_rounds_up_to_multiples() {
    assert_eq!(align(0, 8), 0);
    assert_eq!(align(1, 8), 8);
    assert_eq!(align(13, 8), 16);
    assert_eq!(align(16, 8), 16);
    assert_eq!(align(17, 1), 17);
    assert_eq!(align(4095, 4096), 4096);
}

#[test]
fn bump_allocator_hands_out_disjoint_aligned_ranges() {
    let mut a = BumpAllocator::new(100);
    assert_eq!(a.allocate(10, 8), Some(0));
    assert_eq!(a.allocate(4, 8), Some(16));
    assert_eq!(a.allocate(1, 1), Some(20));
    assert_eq!(a.allocate(1000, 1), None);
    // Exhaustion leaves the allocator unchanged.
    assert_eq!(a.allocate(79, 1), Some(21));
    assert_eq!(a.allocate(1, 1), None);
}

#[test]
fn bump_allocator_refuses_what_does_not_fit() {
    let mut a = BumpAllocator::new(8);
    assert_eq!(a.allocate(9, 1), None);
    assert_eq!(a.allocate(8, 1), Some(0));
    assert_eq!(a.allocate(1, 1), None);
}

#[test]
fn shared_region_word_round_trip() {
    let mut r = SharedRegion::new(64);
    for &w in &[0u64, 1, 3, 0x0123_4567_89ab_cdef, u64::MAX] {
        r.write_word(8, w);
        assert_eq!(r.read_word(8), w);
    }
    // Little-endian layout: the low byte lands first.
    r.write_word(0, 0x0102_0304_0506_0708);
    let bytes = r.read_bytes(0, 8);
    assert_eq!(bytes, vec![8, 7, 6, 5, 4, 3, 2, 1]);
}

#[test]
fn shared_region_bytes_round_trip() {
    let mut r = SharedRegion::new(16);
    assert_eq!(r.size(), 16);
    r.write_bytes(4, &vec![9, 8, 7]);
    assert_eq!(r.read_bytes(4, 3), vec![9, 8, 7]);
    assert_eq!(r.read_bytes(0, 4), vec![0, 0, 0, 0]);
    assert_eq!(r.read_bytes(7, 2), vec![0, 0]);
}
