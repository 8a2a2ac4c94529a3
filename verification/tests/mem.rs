use kairos::mem::{AllocError, BitmapAllocator, FrameIdx};

fn make(bits: &mut [u8], base: FrameIdx, total: usize) -> BitmapAllocator<'_> {
    for b in bits.iter_mut() {
        *b = 0;
    }
    BitmapAllocator::new(bits, base, total)
}

#[test]
fn alloc_full_window_then_exhaust() {
    let mut bits = [0u8; 32]; // 256 frames
    let mut a = make(&mut bits, 0x1000, 256);
    for i in 0..256 {
        assert_eq!(a.alloc_one(), Some(0x1000 + i as u64));
    }
    assert_eq!(a.alloc_one(), None);
    assert_eq!(a.free_count(), 0);
    assert!(a.check_invariants());
}

#[test]
fn free_then_realloc_next_fit() {
    let mut bits = [0u8; 8];
    let mut a = make(&mut bits, 0, 64);
    let f0 = a.alloc_one().unwrap(); // 0, hint now past it
    let _f1 = a.alloc_one().unwrap();
    a.free(f0).unwrap();
    // Next fit: the hint already passed f0, so the reuse happens later.
    assert_ne!(a.alloc_one(), Some(f0));
    assert!(a.check_invariants());
    // Exhausting the rest wraps the hint around and reuses f0.
    for _ in 0..61 {
        let _ = a.alloc_one();
    }
    assert_eq!(a.alloc_one(), Some(f0));
    assert!(a.check_invariants());
}

#[test]
fn double_free_detected() {
    let mut bits = [0u8; 8];
    let mut a = make(&mut bits, 0, 64);
    let f = a.alloc_one().unwrap();
    a.free(f).unwrap();
    assert_eq!(a.free(f), Err(AllocError::NotAllocated));
}

#[test]
fn out_of_range_operations_fail() {
    let mut bits = [0u8; 8];
    let mut a = make(&mut bits, 0x100, 64);
    assert_eq!(a.free(0x0), Err(AllocError::OutOfRange));
    assert_eq!(a.alloc_range(1), Some(0x100));
    assert_eq!(a.reserve(0x200, 400), Err(AllocError::OutOfRange));
}

#[test]
fn contiguous_range_allocation() {
    let mut bits = [0u8; 8];
    let mut a = make(&mut bits, 0, 64);
    let start = a.alloc_range(8).unwrap();
    assert_eq!(start, 0);
    // The 8 frames are contiguous and the 9th is a different line.
    for i in 0..8 {
        assert_eq!(a.alloc_one(), Some(8 + i as u64));
    }
    assert_eq!(a.alloc_one(), Some(16));
    // Free the range back.
    a.free_range(start, 8).unwrap();
    assert!(a.check_invariants());
}

#[test]
fn range_allocation_skips_used() {
    let mut bits = [0u8; 8];
    let mut a = make(&mut bits, 0, 64);
    a.alloc_one().unwrap(); // frame 0 used
    a.alloc_one().unwrap(); // frame 1 used
    let r = a.alloc_range(3).unwrap();
    assert_eq!(r, 2); // skips 0,1
}

#[test]
fn big_range_fails_cleanly() {
    let mut bits = [0u8; 8];
    let mut a = make(&mut bits, 0, 64);
    assert_eq!(a.alloc_range(65), None);
    assert_eq!(a.alloc_range(64), Some(0));
    assert_eq!(a.alloc_range(1), None);
}

#[test]
fn reserve_marks_and_counts() {
    let mut bits = [0u8; 8];
    let mut a = make(&mut bits, 0, 64);
    a.reserve(10, 4).unwrap();
    assert_eq!(a.free_count(), 60);
    // The reserved window is not re-allocated.
    assert_eq!(a.alloc_range(4), Some(0));
    assert_eq!(a.alloc_range(4), Some(4));
    assert_eq!(a.alloc_range(4), Some(14));
}

#[test]
fn invariants_hold_after_randomish_mix() {
    let mut bits = [0u8; 64];
    let mut a = make(&mut bits, 0x400_000, 512);
    let mut allocs = [0u64; 16];
    for slot in &mut allocs {
        *slot = a.alloc_one().unwrap();
    }
    for i in (0..16).step_by(2) {
        a.free(allocs[i]).unwrap();
    }
    for _ in 0..4 {
        assert!(a.alloc_one().is_some());
    }
    // `reserve` takes *absolute* frame indices (like free_range).
    a.reserve(a.base() + 64, 8).unwrap();
    assert!(a.check_invariants());
}

#[test]
fn all_used_carve_out_accounting() {
    // Kernel strategy: bitmap starts all-used, usable runs are freed.
    let mut bits = [0xFFu8; 8]; // 64 frames, all used
    let mut a = BitmapAllocator::new_all_used(&mut bits, 0, 64);
    assert_eq!(a.free_count(), 0);
    a.clear_range(0, 16);
    a.clear_range(32, 8);
    assert_eq!(a.free_count(), 24);
    assert!(a.check_invariants());
    // Freed frames are allocatable again.
    assert_eq!(a.alloc_one(), Some(0));
    assert!(a.check_invariants());
}

#[test]
fn base_offset_returns_absolute_indices() {
    let mut bits = [0u8; 8];
    let mut a = make(&mut bits, 0x1234_0000, 64);
    // Indices are absolute (base + relative offset) in *frame* units;
    // the caller multiplies by 4096 to obtain a physical address.
    assert_eq!(a.alloc_one(), Some(0x1234_0000));
    assert_eq!(a.alloc_one(), Some(0x1234_0001));
}

#[test]
fn allocations_never_overlap() {
    let mut bits = [0u8; 8];
    let mut a = make(&mut bits, 100, 64);
    let mut held: Vec<u64> = Vec::new();
    for n in [1usize, 5, 9, 2, 7, 3, 11] {
        let first = a.alloc_range(n).unwrap();
        for i in 0..n as u64 {
            assert!(!held.contains(&(first + i)));
            held.push(first + i);
        }
        assert_eq!(a.used_count(), held.len());
    }
    assert_eq!(a.free_count() + a.used_count(), a.total());
    assert_eq!(a.base(), 100);
}

#[test]
fn freeing_restores_the_count() {
    let mut bits = [0u8; 8];
    let mut a = make(&mut bits, 0, 64);
    let first = a.alloc_range(10).unwrap();
    a.free_range(first, 10).unwrap();
    assert_eq!(a.free_count(), 64);
    assert_eq!(a.free_range(first, 10), Err(AllocError::NotAllocated));
    assert_eq!(a.free_count(), 64);
    assert_eq!(a.free_range(60, 5), Err(AllocError::OutOfRange));
    assert_eq!(a.free_range(u64::MAX, 2), Err(AllocError::OutOfRange));
}

#[test]
fn reserved_frames_are_never_handed_out() {
    let mut bits = [0u8; 8];
    let mut a = make(&mut bits, 0, 64);
    a.reserve(5, 3).unwrap();
    assert_eq!(a.reserve(6, 1), Err(AllocError::NotAllocated));
    assert_eq!(a.free_count(), 61);
    let mut got = Vec::new();
    while let Some(f) = a.alloc_one() {
        got.push(f);
    }
    assert_eq!(got.len(), 61);
    assert!(!got.contains(&5) && !got.contains(&6) && !got.contains(&7));
}

#[test]
fn zero_frames_and_odd_windows() {
    let mut bits = [0u8; 2];
    let mut a = make(&mut bits, 0, 11);
    for i in 0..11 {
        assert_eq!(a.alloc_one(), Some(i));
    }
    assert_eq!(a.alloc_one(), None);
    a.clear_range(3, 100);
    assert!(a.check_invariants());
}

#[test]
fn allocation_error_texts() {
    assert_eq!(AllocError::OutOfFrames(12).to_string(), "no run of 12 free frame(s)");
    assert_eq!(AllocError::OutOfRange.to_string(), "frame index out of range");
    assert_eq!(AllocError::NotAllocated.to_string(), "frame is not allocated");
}
