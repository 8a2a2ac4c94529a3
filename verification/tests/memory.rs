use kairos::kernel::memory;
use kairos::kernel::memory::frames::{FrameInitError, Frames, MemoryRegion, BITMAP_BYTES};
use kairos::kernel::memory::paging::{MapJob, MapStep, PageFlags};
use kairos::kernel::memory::{frames, heap, paging};
use kairos::mem::AllocError;

fn region(start: u64, end: u64, usable: bool) -> MemoryRegion {
    MemoryRegion { start, end, usable }
}

fn bitmap() -> Vec<u8> {
    vec![0xFFu8; BITMAP_BYTES]
}

const FLAGS: PageFlags = PageFlags { writable: true, user: false, no_execute: true };

#[test]
fn only_usable_memory_is_handed_out() {
    let mut bits = bitmap();
    let regions = [
        region(0, 0x9000, false),
        region(0x9800, 0xD800, true),
        region(0xF000, 0x11000, true),
        region(0x20000, 0x20000, true),
    ];
    let mut f = frames::init(&regions, bits.as_mut_slice()).unwrap();
    let mut got = Vec::new();
    while let Some(a) = frames::alloc_one(&mut f) {
        got.push(a);
    }
    // A frame belongs to the region that it starts in.
    assert_eq!(got, vec![0xA000, 0xB000, 0xC000, 0xD000, 0xF000, 0x10000]);
    assert_eq!(frames::free_count(&f), 0);
    assert!(frames::check_invariants(&f));
    assert_eq!(memory::usable_region_count(&regions), 3);
}

#[test]
fn freeing_undoes_allocation() {
    let mut bits = bitmap();
    let mut f = frames::init(&[region(0, 0x40_0000, true)], bits.as_mut_slice()).unwrap();
    let all = frames::free_count(&f);
    let a = frames::alloc_range(&mut f, 7).unwrap();
    assert_eq!(a % 4096, 0);
    assert_eq!(frames::free_count(&f), all - 7);
    for i in 0..7 {
        frames::free(&mut f, a + i * 4096).unwrap();
    }
    assert_eq!(frames::free_count(&f), all);
    assert_eq!(frames::free(&mut f, a), Err(AllocError::NotAllocated));
    assert_eq!(frames::free(&mut f, 1 << 50), Err(AllocError::OutOfRange));
    assert!(frames::test_frames(&mut f));
    assert_eq!(frames::free_count(&f), all);
}

#[test]
fn unusable_maps_are_refused() {
    let mut bits = bitmap();
    assert!(matches!(
        frames::init(&[region(0, 0x1000, false)], bits.as_mut_slice()),
        Err(FrameInitError::NoUsableMemory)
    ));
    let mut bits = bitmap();
    let huge = [region(0, 1 << 40, true)];
    assert!(matches!(
        frames::init(&huge, bits.as_mut_slice()),
        Err(FrameInitError::RamTooLarge(_))
    ));
    let mut none = Frames::new();
    assert_eq!(frames::alloc_one(&mut none), None);
    assert_eq!(frames::free_count(&none), 0);
    assert_eq!(frames::total_bytes(&none), 0);
}

#[test]
fn summary_counts_mib() {
    let mut bits = bitmap();
    let regions = [region(0, 0x10_0000, false), region(0x10_0000, 0x80_0000, true)];
    let mut f = frames::init(&regions, bits.as_mut_slice()).unwrap();
    let s = memory::summary(&f);
    assert_eq!((s.total_mib, s.usable_mib, s.frames_free), (8, 7, 1792));
    assert_eq!(memory::total_physical_mib(&f), 8);
    assert_eq!(frames::usable_bytes(&f), 7 << 20);
    assert!(memory::run_tests(&mut f, true));
    assert!(!memory::run_tests(&mut f, false));
}

#[test]
fn jobs_back_page_by_page() {
    let mut bits = bitmap();
    let mut f = frames::init(&[region(0x1000, 0x3000, true)], bits.as_mut_slice()).unwrap();
    let mut job = MapJob::new(0x4000_0000, 2, FLAGS);
    match job.next(&mut f) {
        MapStep::Back(m) => {
            assert_eq!((m.phys, m.virt), (0x1000, 0x4000_0000));
            assert_eq!(m.flags, FLAGS);
        }
        _ => panic!("no page"),
    }
    assert!(matches!(job.next(&mut f), MapStep::Back(m) if m.virt == 0x4000_1000));
    assert!(matches!(job.next(&mut f), MapStep::Done));
    let mut more = MapJob::new(0x5000_0000, 1, FLAGS);
    assert!(matches!(more.next(&mut f), MapStep::OutOfFrames));
    assert_eq!(heap::init().pages(), 64 * 256);
    assert!(heap::test_heap());
}

#[test]
fn contiguous_maps_are_one_to_one() {
    let maps = paging::map_contiguous(0x9000, 0x7000_0000, 3, FLAGS);
    let pairs: Vec<(u64, u64)> = maps.iter().map(|m| (m.phys, m.virt)).collect();
    assert_eq!(
        pairs,
        vec![(0x9000, 0x7000_0000), (0xA000, 0x7000_1000), (0xB000, 0x7000_2000)]
    );
    let screen = paging::map_identity(memory::SCREEN_ADDRESS, FLAGS);
    assert_eq!((screen.phys, screen.virt), (0xb8000, 0xb8000));
}
