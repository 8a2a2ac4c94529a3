//! Memory subsystem: physical frames, paging, kernel heap.
//!
//! The *algorithmic* part (bitmap allocation) lives in [`crate::mem`]; here
//! the firmware memory map is read and page mappings are planned.

use vstd::prelude::*;
use crate::kernel::memory::frames::{Frames, MemoryRegion};
use crate::kernel::memory::heap::HeapInitError;

pub mod frames;
pub mod heap;
pub mod paging;

verus! {

/// Virtual base of the kernel heap (2^46; below the physical-memory offset
/// mapping at 2^47, above any user mappings).
pub const HEAP_START: u64 = 0x4000_0000_0000;

/// Physical address of the text screen, which is mapped at the same virtual
/// address.
pub const SCREEN_ADDRESS: u64 = 0xb8000;

#[derive(Clone, Copy, PartialEq, Eq, Debug)]
pub enum InitError {
    NoPhysicalMemoryOffset,
    FrameInit(frames::FrameInitError),
    HeapInit(HeapInitError),
    Paging(PagingErrorKind),
}

#[derive(Debug, Clone, Copy, PartialEq, Eq, Structural)]
pub enum PagingErrorKind {
    NotMapped,
    AlreadyMapped,
    ParentNotMapped,
    FrameAllocationFailed,
}

/// What the banner says about memory.
#[derive(Clone, Copy, PartialEq, Eq, Debug, Structural)]
pub struct MemSummary {
    pub total_mib: u64,
    pub usable_mib: u64,
    pub frames_free: u64,
}

/// Bytes of a MiB.
pub const MIB: u64 = 1024 * 1024;

/// Bytes of the managed window.
pub open spec fn window_bytes(v: frames::FramesView) -> int {
    match v.map {
        Some(m) => m.used.len() * frames::FRAME_BYTES,
        None => 0,
    }
}

/// Memory in whole MiB, and the free frames.
pub fn summary(f: &Frames) -> (r: MemSummary)
    requires
        f.wf(),
    ensures
        r.total_mib == window_bytes(f@) / (MIB as int),
        r.usable_mib == f@.usable / MIB,
        r.frames_free == f@.free(),
{
    let total_mib = frames::total_bytes(f) / MIB;
    let usable_mib = frames::usable_bytes(f) / MIB;
    MemSummary { total_mib, usable_mib, frames_free: frames::free_count(f) }
}

/// Runs the kernel's memory self-tests; `paging` says whether the screen is
/// mapped.
pub fn run_tests(f: &mut Frames, paging: bool) -> (r: bool)
    requires
        old(f).wf(),
    ensures
        final(f).wf(),
        r == (old(f)@.free() >= 2 && paging),
        old(f)@.free() >= 2 ==> final(f)@.map is Some && final(f)@.map->0.used == old(
            f,
        )@.map->0.used,
        old(f)@.free() < 2 ==> final(f)@.free() == 0,
        final(f)@.usable == old(f)@.usable,
{
    let a = frames::test_frames(f);
    let b = heap::test_heap();
    a && b && paging
}

/// Total physical memory reported by the firmware, in whole MiB.
pub fn total_physical_mib(f: &Frames) -> (r: u64)
    requires
        f.wf(),
    ensures
        r == window_bytes(f@) / (MIB as int),
{
    frames::total_bytes(f) / MIB
}

/// Number of usable regions.
pub open spec fn usable_regions(regions: Seq<MemoryRegion>) -> nat
    decreases regions.len(),
{
    if regions.len() == 0 {
        0
    } else {
        usable_regions(regions.drop_last()) + if regions.last().usable {
            1nat
        } else {
            0
        }
    }
}

/// Number of usable memory regions.
pub fn usable_region_count(regions: &[MemoryRegion]) -> (r: usize)
    ensures
        r == usable_regions(regions@),
{
    let mut n: usize = 0;
    for i in 0..regions.len()
        invariant
            n == usable_regions(regions@.take(i as int)),
            n <= i,
    {
        proof {
            assert(regions@.take(i + 1).drop_last() =~= regions@.take(i as int));
        }
        if regions[i].usable {
            n += 1;
        }
    }
    proof {
        assert(regions@.take(regions@.len() as int) =~= regions@);
    }
    n
}

/// The window is as many frames of 4096 bytes as there are, and before the
/// frames are known there is none.
pub proof fn law_window_bytes(v: frames::FramesView)
    ensures
        v.map matches Some(m) ==> window_bytes(v) == 4096 * m.used.len(),
        v.map is None ==> window_bytes(v) == 0,
{
}

/// The usable regions are counted one by one.
pub proof fn law_usable_regions_are_counted(regions: Seq<MemoryRegion>, r: MemoryRegion)
    ensures
        usable_regions(Seq::empty()) == 0,
        r.usable ==> usable_regions(regions.push(r)) == usable_regions(regions) + 1,
        !r.usable ==> usable_regions(regions.push(r)) == usable_regions(regions),
{
    assert(regions.push(r).drop_last() =~= regions);
}

} // verus!
