//! Physical frames of the machine.
//!
//! The allocation algorithm is [`crate::mem::BitmapAllocator`]; here the
//! managed window is derived from the firmware memory map (usable regions
//! only), and frames are handed out as physical addresses.

use vstd::prelude::*;
use crate::mem;
use crate::mem::{AllocError, BitmapAllocator, FrameIdx, FrameView};

verus! {

/// Bytes of a frame.
pub const FRAME_BYTES: u64 = 4096;

/// Bitmap capacity: 256 KiB, for up to 8 GiB of RAM.
pub const BITMAP_BYTES: usize = 256 * 1024;

/// Frames that the bitmap can describe.
pub const MAX_FRAMES: usize = BITMAP_BYTES * 8;

/// A region of the firmware memory map: the addresses `start .. end`.
#[derive(Clone, Copy, PartialEq, Eq, Debug, Structural)]
pub struct MemoryRegion {
    pub start: u64,
    pub end: u64,
    /// Whether the region is free for the kernel's use.
    pub usable: bool,
}

#[derive(Clone, Copy, PartialEq, Eq, Debug)]
pub enum FrameInitError {
    /// RAM larger than the bitmap can describe; the bytes it would take.
    RamTooLarge(usize),
    NoUsableMemory,
}

/// The frames of the machine, once they are known.
pub struct Frames<'a> {
    frame_bits: Option<BitmapAllocator<'a>>,
    /// Sum of usable region bytes (for the banner).
    usable: u64,
}

// ---------------------------------------------------------------------------
// Model
// ---------------------------------------------------------------------------

/// What is known of the frames.
#[verifier::ext_equal]
pub struct FramesView {
    pub map: Option<FrameView>,
    pub usable: u64,
}

/// Number of frames up to the address `a`, the last one perhaps in part.
pub open spec fn frame_ceil(a: u64) -> nat {
    ((a + 4095) / 4096) as nat
}

/// Number of frames up to the highest end of a region that is not empty.
pub open spec fn max_frame(regions: Seq<MemoryRegion>) -> nat
    decreases regions.len(),
{
    if regions.len() == 0 {
        0
    } else {
        let rest = max_frame(regions.drop_last());
        let r = regions.last();
        if r.start < r.end && frame_ceil(r.end) > rest {
            frame_ceil(r.end)
        } else {
            rest
        }
    }
}

/// Some region that is not empty is usable.
pub open spec fn any_usable(regions: Seq<MemoryRegion>) -> bool {
    exists|k: int|
        0 <= k < regions.len() && (#[trigger] regions[k]).usable && regions[k].start
            < regions[k].end
}

/// The frame `i` starts inside the usable region `r`.
pub open spec fn frees(r: MemoryRegion, i: int) -> bool {
    r.usable && frame_ceil(r.start) <= i < frame_ceil(r.end)
}

/// The frame `i` starts inside a usable region.
pub open spec fn covered(regions: Seq<MemoryRegion>, i: int) -> bool {
    exists|k: int| 0 <= k < regions.len() && frees(#[trigger] regions[k], i)
}

/// Bytes of the usable regions that hold the start of a frame.
pub open spec fn usable_sum(regions: Seq<MemoryRegion>) -> nat
    decreases regions.len(),
{
    if regions.len() == 0 {
        0
    } else {
        let r = regions.last();
        usable_sum(regions.drop_last()) + if r.usable && frame_ceil(r.start) < frame_ceil(r.end) {
            (r.end - r.start) as nat
        } else {
            0
        }
    }
}

/// Bytes of a bitmap with a bit for each of `n` frames.
pub open spec fn bitmap_size(n: nat) -> nat {
    ((n + 7) / 8) as nat
}

impl FramesView {
    /// The map lies within the bitmap's capacity and starts at frame 0.
    pub open spec fn wf(self) -> bool {
        self.map matches Some(m) ==> m.base == 0 && m.used.len() <= MAX_FRAMES && m.hint
            <= m.used.len()
    }

    /// Number of free frames.
    pub open spec fn free(self) -> nat {
        match self.map {
            Some(m) => mem::count_free(m.used),
            None => 0,
        }
    }
}

/// Asking for `n` frames in a row leaves `g` and returns `r`, their address.
pub open spec fn given(f: FramesView, g: FramesView, n: usize, r: Option<u64>) -> bool {
    match r {
        Some(a) => {
            let m = f.map->0;
            &&& f.map is Some
            &&& n > 0
            &&& a % FRAME_BYTES == 0
            &&& m.placed(n as int, (a / FRAME_BYTES) as int)
            &&& g == (FramesView { map: Some(m.taken(n as int, (a / FRAME_BYTES) as int)), ..f })
        },
        None => g == f && (f.map matches Some(m) ==> n == 0 || !mem::fits(
            m.used,
            0,
            m.used.len() as int,
            n as int,
        )),
    }
}

/// Giving back the frame at the address `addr` leaves `g` and returns `r`.
pub open spec fn given_back(f: FramesView, g: FramesView, addr: u64, r: Result<(), AllocError>)
    -> bool {
    let i = (addr / FRAME_BYTES) as int;
    match r {
        Ok(()) => {
            let m = f.map->0;
            &&& f.map is Some
            &&& i < m.used.len() && m.used[i]
            &&& g == (FramesView { map: Some(m.marked(i, 1, false)), ..f })
        },
        Err(e) => g == f && (match f.map {
            Some(m) => if i < m.used.len() {
                e == AllocError::NotAllocated && !m.used[i]
            } else {
                e == AllocError::OutOfRange
            },
            None => e == AllocError::OutOfRange,
        }),
    }
}

/// The frames that a memory map gives.
pub open spec fn initial(regions: Seq<MemoryRegion>) -> FramesView {
    FramesView {
        map: Some(
            FrameView {
                base: 0,
                used: Seq::new(max_frame(regions), |i: int| !covered(regions, i)),
                hint: 0,
            },
        ),
        usable: usable_sum(regions) as u64,
    }
}

proof fn lemma_max_frame(regions: Seq<MemoryRegion>, k: int)
    requires
        0 <= k < regions.len(),
        regions[k].start < regions[k].end,
    ensures
        frame_ceil(regions[k].end) <= max_frame(regions),
    decreases regions.len(),
{
    if k < regions.len() - 1 {
        lemma_max_frame(regions.drop_last(), k);
    }
}

proof fn lemma_max_frame_bound(regions: Seq<MemoryRegion>)
    ensures
        max_frame(regions) <= 0x10_0000_0000_0000,
    decreases regions.len(),
{
    if regions.len() > 0 {
        lemma_max_frame_bound(regions.drop_last());
    }
}

proof fn lemma_usable_sum_step(regions: Seq<MemoryRegion>, i: int)
    requires
        0 <= i < regions.len(),
    ensures
        usable_sum(regions.take(i + 1)) >= usable_sum(regions.take(i)),
        usable_sum(regions.take(i + 1)) <= usable_sum(regions),
    decreases regions.len() - i,
{
    assert(regions.take(i + 1).drop_last() =~= regions.take(i));
    if i + 1 < regions.len() {
        lemma_usable_sum_step(regions, i + 1);
    } else {
        assert(regions.take(i + 1) =~= regions);
    }
}

// ---------------------------------------------------------------------------
// Code
// ---------------------------------------------------------------------------

/// Number of frames up to the address `a`, the last one perhaps in part.
fn ceil_frames(a: u64) -> (r: u64)
    ensures
        r == frame_ceil(a),
{
    if a % 4096 == 0 {
        a / 4096
    } else {
        a / 4096 + 1
    }
}

impl<'a> Frames<'a> {
    pub closed spec fn view(&self) -> FramesView {
        FramesView {
            map: match self.frame_bits {
                Some(a) => Some(a@),
                None => None,
            },
            usable: self.usable,
        }
    }

    /// The map, if there is one, covers its window, which starts at frame 0 and
    /// lies within the bitmap's capacity.
    pub closed spec fn sized(&self) -> bool {
        self.frame_bits matches Some(a) ==> a.sized() && a@.base == 0 && a@.used.len()
            <= MAX_FRAMES
    }

    /// What is held as the number of free frames.
    pub closed spec fn counter(&self) -> nat {
        match self.frame_bits {
            Some(a) => a.counter(),
            None => 0,
        }
    }

    /// Validity: the map is sized, and the counter is the number of free frames.
    pub open spec fn wf(&self) -> bool {
        self.sized() && self.counter() == self@.free()
    }

    /// What every valid value keeps.
    pub proof fn lemma_wf(&self)
        requires
            self.wf(),
        ensures
            self@.wf(),
    {
        if let Some(a) = self.frame_bits {
            a.lemma_sized();
        }
    }

    /// No frames are known yet.
    pub fn new() -> (r: Self)
        ensures
            r.wf(),
            r@ == (FramesView { map: None, usable: 0 }),
    {
        Frames { frame_bits: None, usable: 0 }
    }
}

/// Number of frames up to the highest end of a region, and whether some region
/// is usable.
fn survey(regions: &[MemoryRegion]) -> (r: (u64, bool))
    ensures
        r.0 == max_frame(regions@),
        r.1 == any_usable(regions@),
{
    let mut top: u64 = 0;
    let mut any: bool = false;
    for i in 0..regions.len()
        invariant
            top == max_frame(regions@.take(i as int)),
            any == any_usable(regions@.take(i as int)),
    {
        let region = regions[i];
        let ghost before = regions@.take(i as int);
        let ghost after = regions@.take(i + 1);
        proof {
            assert(after.drop_last() =~= before);
            assert(after.last() == region);
            if any_usable(before) {
                let k = choose|k: int|
                    0 <= k < before.len() && (#[trigger] before[k]).usable && before[k].start
                        < before[k].end;
                assert(after[k] == before[k]);
            }
            if any_usable(after) {
                let k = choose|k: int|
                    0 <= k < after.len() && (#[trigger] after[k]).usable && after[k].start
                        < after[k].end;
                if k < i {
                    assert(before[k] == after[k]);
                }
            }
        }
        if region.start < region.end {
            let frame_end = ceil_frames(region.end);
            if frame_end > top {
                top = frame_end;
            }
            if region.usable {
                any = true;
                proof {
                    assert(after[i as int].usable);
                }
            }
        }
    }
    proof {
        assert(regions@.take(regions@.len() as int) =~= regions@);
    }
    (top, any)
}

/// Initialises the frames from the boot memory map, over a bitmap that starts
/// fully used.
///
/// Exactly the usable runs are cleared. Everything else (BIOS area, MMIO,
/// kernel image, bootloader data, boot stack) stays reserved.
///
/// # Errors
///
/// [`FrameInitError::NoUsableMemory`] when no region is usable,
/// [`FrameInitError::RamTooLarge`] when the bitmap would not suffice.
pub fn init<'a>(regions: &[MemoryRegion], bits: &'a mut [u8]) -> (r: Result<
    Frames<'a>,
    FrameInitError,
>)
    requires
        old(bits)@.len() == BITMAP_BYTES,
        forall|i: int| 0 <= i < BITMAP_BYTES ==> #[trigger] old(bits)@[i] == 0xFF,
        usable_sum(regions@) <= u64::MAX,
    ensures
        match r {
            Ok(f) => {
                &&& any_usable(regions@)
                &&& bitmap_size(max_frame(regions@)) <= BITMAP_BYTES
                &&& f.wf()
                &&& f@.usable == usable_sum(regions@)
                &&& f@.map matches Some(m)
                &&& m.base == 0
                &&& m.hint == 0
                &&& m.used == Seq::new(max_frame(regions@), |i: int| !covered(regions@, i))
                &&& f@ == initial(regions@)
            },
            Err(FrameInitError::NoUsableMemory) => !any_usable(regions@),
            Err(FrameInitError::RamTooLarge(n)) => any_usable(regions@) && bitmap_size(
                max_frame(regions@),
            ) > BITMAP_BYTES && n == (if max_frame(regions@) > usize::MAX {
                0
            } else {
                bitmap_size(max_frame(regions@))
            }),
        },
{
    let (top, any) = survey(regions);
    proof {
        lemma_max_frame_bound(regions@);
        if any {
            let k = choose|k: int|
                0 <= k < regions@.len() && (#[trigger] regions@[k]).usable && regions@[k].start
                    < regions@[k].end;
            lemma_max_frame(regions@, k);
        }
    }
    if !any {
        return Err(FrameInitError::NoUsableMemory);
    }
    if top > usize::MAX as u64 {
        return Err(FrameInitError::RamTooLarge(0));
    }
    let total = top as usize;
    let need: usize = if total % 8 == 0 {
        total / 8
    } else {
        total / 8 + 1
    };
    if need > BITMAP_BYTES {
        return Err(FrameInitError::RamTooLarge(need));
    }
    proof {
        assert forall|i: int| 0 <= i < total implies #[trigger] mem::bit_at(bits@, i) by {
            let k = (i % 8) as u8;
            assert(bits@[i / 8] == 0xFF);
            assert(k < 8 ==> 0xFFu8 & (1u8 << k) != 0) by (bit_vector);
        }
    }
    let mut map = BitmapAllocator::new_all_used(bits, 0, total);
    let mut usable: u64 = 0;
    proof {
        assert(map@.used =~= Seq::new(total as nat, |j: int| !covered(regions@.take(0), j)));
    }
    for i in 0..regions.len()
        invariant
            map.wf(),
            map@.base == 0,
            map@.hint == 0,
            total == max_frame(regions@),
            total <= MAX_FRAMES,
            usable_sum(regions@) <= u64::MAX,
            map@.used == Seq::new(
                total as nat,
                |j: int| !covered(regions@.take(i as int), j),
            ),
            usable == usable_sum(regions@.take(i as int)),
    {
        let region = regions[i];
        let ghost before = regions@.take(i as int);
        let ghost after = regions@.take(i + 1);
        let ghost used = map@.used;
        proof {
            assert(after.drop_last() =~= before);
            assert(after.last() == region);
            lemma_usable_sum_step(regions@, i as int);
            assert forall|j: int| #[trigger]
                covered(after, j) == (covered(before, j) || frees(region, j)) by {
                if covered(before, j) {
                    let k = choose|k: int| 0 <= k < before.len() && frees(#[trigger] before[k], j);
                    assert(after[k] == before[k]);
                }
                if frees(region, j) {
                    assert(frees(after[i as int], j));
                }
                if covered(after, j) {
                    let k = choose|k: int| 0 <= k < after.len() && frees(#[trigger] after[k], j);
                    if k < i {
                        assert(frees(before[k], j));
                    }
                }
            }
        }
        let start: FrameIdx = ceil_frames(region.start);
        let end: FrameIdx = ceil_frames(region.end);
        if region.usable && end > start {
            proof {
                lemma_max_frame(regions@, i as int);
            }
            let n = (end - start) as usize;
            map.clear_range(start, n);
            usable = usable + (region.end - region.start);
            proof {
                assert(map@.used == mem::mark(used, start as int, n as int, false));
            }
        }
        proof {
            assert(map@.used =~= Seq::new(total as nat, |j: int| !covered(after, j)));
        }
    }
    proof {
        assert(regions@.take(regions@.len() as int) =~= regions@);
    }
    let f = Frames { frame_bits: Some(map), usable };
    proof {
        assert(f@ =~= initial(regions@));
    }
    Ok(f)
}

/// Allocates one frame, as a physical address.
pub fn alloc_one(frames: &mut Frames) -> (r: Option<u64>)
    requires
        old(frames).wf(),
    ensures
        final(frames).wf(),
        match r {
            Some(a) => {
                let m = old(frames)@.map->0;
                &&& old(frames)@.map is Some
                &&& a % FRAME_BYTES == 0
                &&& m.placed(1, (a / FRAME_BYTES) as int)
                &&& final(frames)@ == (FramesView {
                    map: Some(m.taken(1, (a / FRAME_BYTES) as int)),
                    ..old(frames)@
                })
            },
            None => old(frames)@.free() == 0 && final(frames)@ == old(frames)@,
        },
{
    match &mut frames.frame_bits {
        Some(map) => match map.alloc_one() {
            Some(idx) => {
                proof {
                    map.lemma_sized();
                    assert(mem::free_run(
                        old(frames)@.map->0.used,
                        idx as int - old(frames)@.map->0.base,
                        1,
                    ));
                }
                Some(idx * FRAME_BYTES)
            },
            None => None,
        },
        None => None,
    }
}

/// Allocates `n` contiguous frames; returns the base physical address.
pub fn alloc_range(frames: &mut Frames, n: usize) -> (r: Option<u64>)
    requires
        old(frames).wf(),
    ensures
        final(frames).wf(),
        given(old(frames)@, final(frames)@, n, r),
{
    match &mut frames.frame_bits {
        Some(map) => match map.alloc_range(n) {
            Some(idx) => {
                proof {
                    map.lemma_sized();
                    assert(mem::free_run(
                        old(frames)@.map->0.used,
                        idx as int - old(frames)@.map->0.base,
                        n as int,
                    ));
                }
                Some(idx * FRAME_BYTES)
            },
            None => None,
        },
        None => None,
    }
}

/// Releases the frame at a physical address.
///
/// # Errors
///
/// [`AllocError::OutOfRange`] when no frames are known or the frame is none of
/// them, [`AllocError::NotAllocated`] when it is free.
pub fn free(frames: &mut Frames, addr: u64) -> (r: Result<(), AllocError>)
    requires
        old(frames).wf(),
    ensures
        final(frames).wf(),
        given_back(old(frames)@, final(frames)@, addr, r),
{
    match &mut frames.frame_bits {
        Some(map) => map.free(addr / FRAME_BYTES),
        None => Err(AllocError::OutOfRange),
    }
}

/// Number of free frames.
pub fn free_count(frames: &Frames) -> (r: u64)
    requires
        frames.wf(),
    ensures
        r == frames@.free(),
{
    match &frames.frame_bits {
        Some(map) => map.free_count() as u64,
        None => 0,
    }
}

/// Bytes of the managed window.
pub fn total_bytes(frames: &Frames) -> (r: u64)
    requires
        frames.wf(),
    ensures
        r == (match frames@.map {
            Some(m) => m.used.len() * FRAME_BYTES,
            None => 0,
        }),
{
    match &frames.frame_bits {
        Some(map) => map.total() as u64 * FRAME_BYTES,
        None => 0,
    }
}

/// Bytes of the usable regions.
pub fn usable_bytes(frames: &Frames) -> (r: u64)
    ensures
        r == frames@.usable,
{
    frames.usable
}

/// Whether the counter of free frames is right: recounts the free frames and
/// compares. Without a map there is nothing to count.
pub fn check_invariants(frames: &Frames) -> (r: bool)
    requires
        frames.sized(),
    ensures
        r == (frames.counter() == frames@.free()),
{
    match &frames.frame_bits {
        Some(map) => map.check_invariants(),
        None => true,
    }
}

/// Kernel self-test for the frame allocator: two allocations differ, and both
/// frames can be released. It fails when fewer than two frames are free.
pub fn test_frames(frames: &mut Frames) -> (r: bool)
    requires
        old(frames).wf(),
    ensures
        final(frames).wf(),
        r == (old(frames)@.free() >= 2),
        r ==> final(frames)@.map is Some && final(frames)@.map->0.used
            == old(frames)@.map->0.used && final(frames)@.map->0.base == old(
            frames,
        )@.map->0.base,
        !r ==> final(frames)@.free() == 0,
        final(frames)@.usable == old(frames)@.usable,
{
    let ghost v = frames@;
    let ghost m0 = v.map->0;
    proof {
        frames.lemma_wf();
    }
    match &mut frames.frame_bits {
        Some(map) => {
            let first = map.alloc_one();
            let ghost m1 = map@;
            let second = map.alloc_one();
            match (first, second) {
                (Some(a), Some(b)) => {
                    proof {
                        mem::laws::law_allocation_is_fresh(m0, 1, a as int);
                        mem::laws::law_allocation_is_fresh(m1, 1, b as int);
                        assert(m1.used[a as int] && !m1.used[b as int]);
                        assert(map@.used[a as int] && map@.used[b as int]);
                    }
                    if a == b {
                        return false;
                    }
                    let freed = map.free(a).is_ok();
                    let sound = map.check_invariants();
                    proof {
                        assert(map@.used[b as int]);
                    }
                    let r = freed && sound && map.free(b).is_ok();
                    proof {
                        assert(map@.used =~= m0.used);
                    }
                    r
                },
                _ => {
                    proof {
                        if let Some(a) = first {
                            mem::laws::law_allocation_is_fresh(m0, 1, a as int);
                        }
                        if let Some(b) = second {
                            mem::laws::law_allocation_is_fresh(m1, 1, b as int);
                        }
                    }
                    false
                },
            }
        },
        None => false,
    }
}

/// A frame that was allocated is released by its address, and the same frames
/// are free as before.
pub proof fn law_free_undoes_alloc(m: FrameView, a: u64)
    requires
        m.base == 0,
        m.hint <= m.used.len(),
        m.placed(1, (a / FRAME_BYTES) as int),
    ensures
        m.taken(1, (a / FRAME_BYTES) as int).used[(a / FRAME_BYTES) as int],
        m.taken(1, (a / FRAME_BYTES) as int).marked((a / FRAME_BYTES) as int, 1, false).used
            == m.used,
{
    mem::laws::law_allocation_is_fresh(m, 1, (a / FRAME_BYTES) as int);
    mem::laws::law_free_undoes_alloc(m, 1, (a / FRAME_BYTES) as int);
}

/// Nothing outside the usable regions is ever handed out: after the
/// initialisation a frame is free exactly if it starts in a usable region.
pub proof fn law_only_usable_memory_is_free(regions: Seq<MemoryRegion>, m: FrameView, n: int, s: int)
    requires
        m.used == Seq::new(max_frame(regions), |i: int| !covered(regions, i)),
        m.hint == 0,
        n > 0,
        m.placed(n, s),
    ensures
        forall|i: int| s <= i < s + n ==> #[trigger] covered(regions, i),
{
    mem::laws::law_allocation_is_fresh(m, n, s);
    assert forall|i: int| s <= i < s + n implies #[trigger] covered(regions, i) by {
        assert(!m.used[i]);
    }
}

/// A region frees exactly the frames whose first byte lies in it.
pub proof fn law_frames_start_in_their_region(r: MemoryRegion, i: int)
    ensures
        frees(r, i) <==> r.usable && r.start <= i * 4096 && i * 4096 < r.end,
{
}

/// A frame is free after the initialisation exactly if its first byte lies in a
/// usable region.
pub proof fn law_usable_frames(regions: Seq<MemoryRegion>, i: int)
    ensures
        covered(regions, i) <==> exists|k: int|
            0 <= k < regions.len() && starts_in(#[trigger] regions[k], i),
{
    if covered(regions, i) {
        let k = choose|k: int| 0 <= k < regions.len() && frees(#[trigger] regions[k], i);
        assert(starts_in(regions[k], i));
    }
    if exists|k: int| 0 <= k < regions.len() && starts_in(#[trigger] regions[k], i) {
        let k = choose|k: int| 0 <= k < regions.len() && starts_in(#[trigger] regions[k], i);
        assert(frees(regions[k], i));
    }
}

/// The region is usable and holds the first byte of the frame `i`.
pub open spec fn starts_in(r: MemoryRegion, i: int) -> bool {
    r.usable && r.start <= i * 4096 < r.end
}

/// The frames reach up to the end of the highest region that is not empty, and
/// no further.
pub proof fn law_frames_reach_the_highest_region(regions: Seq<MemoryRegion>)
    ensures
        forall|k: int|
            0 <= k < regions.len() && (#[trigger] regions[k]).start < regions[k].end
                ==> regions[k].end <= max_frame(regions) * 4096,
        max_frame(regions) > 0 ==> exists|k: int|
            0 <= k < regions.len() && (#[trigger] regions[k]).start < regions[k].end && (max_frame(
                regions,
            ) - 1) * 4096 < regions[k].end,
    decreases regions.len(),
{
    if regions.len() > 0 {
        let less = regions.drop_last();
        law_frames_reach_the_highest_region(less);
        assert forall|k: int|
            0 <= k < regions.len() && (#[trigger] regions[k]).start < regions[k].end implies regions[k].end
            <= max_frame(regions) * 4096 by {
            if k < less.len() {
                assert(less[k] == regions[k]);
            }
        }
        if max_frame(regions) > 0 {
            if max_frame(regions) == max_frame(less) {
                let k = choose|k: int|
                    0 <= k < less.len() && (#[trigger] less[k]).start < less[k].end && (max_frame(
                        less,
                    ) - 1) * 4096 < less[k].end;
                assert(regions[k] == less[k]);
            } else {
                assert(regions[regions.len() - 1].start < regions.last().end);
            }
        }
    }
}

/// The usable memory is the sum of the sizes of the usable regions that hold
/// the start of a frame.
pub proof fn law_usable_memory_adds_up(regions: Seq<MemoryRegion>, r: MemoryRegion)
    ensures
        usable_sum(Seq::empty()) == 0,
        r.usable && (exists|i: int| r.start <= #[trigger] (i * 4096) < r.end) ==> usable_sum(
            regions.push(r),
        ) == usable_sum(regions) + (r.end - r.start),
        !r.usable || r.start >= r.end ==> usable_sum(regions.push(r)) == usable_sum(regions),
{
    assert(regions.push(r).drop_last() =~= regions);
}

/// A bitmap has room for all its frames and less than a byte to spare.
pub proof fn law_bitmap_size(n: nat)
    ensures
        bitmap_size(n) * 8 >= n,
        bitmap_size(n) * 8 < n + 8,
{
}

/// What is known of the frames at first: a frame is free exactly if its first
/// byte lies in a usable region, they start at address 0 and reach up to the end
/// of the highest region.
pub proof fn law_initial_frames(regions: Seq<MemoryRegion>, i: int)
    requires
        0 <= i < max_frame(regions),
    ensures
        ({
            let m = initial(regions).map->0;
            &&& initial(regions).map is Some
            &&& m.base == 0 && m.hint == 0
            &&& m.used.len() == max_frame(regions)
            &&& !m.used[i] <==> exists|k: int|
                0 <= k < regions.len() && starts_in(#[trigger] regions[k], i)
        }),
{
    law_usable_frames(regions, i);
}

/// The number of free frames is that of the map, and 0 before there is one.
pub proof fn law_free_count(v: FramesView)
    ensures
        v.map matches Some(m) ==> v.free() == mem::count_free(m.used),
        v.map is None ==> v.free() == 0,
{
}

/// What asking for frames does: where as many in a row are free, the address of
/// such a run comes back, a multiple of 4096, its frames are in use from then
/// on, and no other frame changes. Where there are none, nothing does.
pub proof fn law_frames_are_given(f: FramesView, g: FramesView, n: usize, r: Option<u64>, s: int)
    requires
        given(f, g, n, r),
        f.wf(),
    ensures
        n > 0 && f.map is Some && 0 <= s && s + n <= f.map->0.used.len() && mem::laws::all_free(
            f.map->0.used,
            s,
            n as int,
        ) ==> r is Some,
        n == 0 || f.map is None ==> r is None,
        r is None ==> g == f,
        r matches Some(a) ==> {
            let used = f.map->0.used;
            let now = g.map->0.used;
            let i = a / 4096;
            &&& a % 4096 == 0
            &&& i + n <= used.len() && now.len() == used.len()
            &&& forall|k: int|
                #![trigger now[k]]
                #![trigger used[k]]
                0 <= k < used.len() ==> (if i <= k < i + n {
                    !used[k] && now[k]
                } else {
                    now[k] == used[k]
                })
            &&& g.usable == f.usable
        },
{
    if n > 0 && f.map is Some && 0 <= s && s + n <= f.map->0.used.len() && mem::laws::all_free(
        f.map->0.used,
        s,
        n as int,
    ) {
        assert(mem::free_run(f.map->0.used, s, n as int));
    }
    if let Some(a) = r {
        mem::laws::law_allocation_is_fresh(f.map->0, n as int, (a / FRAME_BYTES) as int);
    }
}

/// What giving back does: the frame that holds the address is free then, if it
/// was in use, and no other frame changes; if it was free or is none of the
/// frames, nothing does.
pub proof fn law_frames_are_given_back(
    f: FramesView,
    g: FramesView,
    addr: u64,
    r: Result<(), AllocError>,
)
    requires
        given_back(f, g, addr, r),
    ensures
        ({
            let i = (addr / 4096) as int;
            &&& r is Ok <==> f.map is Some && i < f.map->0.used.len() && f.map->0.used[i]
            &&& r is Err ==> g == f
            &&& r is Ok ==> {
                let used = f.map->0.used;
                let now = g.map->0.used;
                &&& now.len() == used.len() && !now[i]
                &&& forall|k: int| 0 <= k < used.len() && k != i ==> #[trigger] now[k] == used[k]
                &&& g.usable == f.usable
            }
        }),
{
}

/// Memory is usable as soon as one region is that has a byte; a region without
/// bytes, or one that is not free for use, makes no difference.
pub proof fn law_some_memory_is_usable(regions: Seq<MemoryRegion>, r: MemoryRegion)
    ensures
        !any_usable(Seq::empty()),
        r.usable && r.start < r.end ==> any_usable(regions.push(r)),
        !r.usable || r.start >= r.end ==> (any_usable(regions.push(r)) <==> any_usable(regions)),
{
    let more = regions.push(r);
    let n = regions.len() as int;
    if r.usable && r.start < r.end {
        assert(more[n].usable && more[n].start < more[n].end);
    }
    if any_usable(regions) {
        let k = choose|k: int|
            0 <= k < regions.len() && (#[trigger] regions[k]).usable && regions[k].start
                < regions[k].end;
        assert(more[k] == regions[k]);
    }
    if any_usable(more) && (!r.usable || r.start >= r.end) {
        let k = choose|k: int|
            0 <= k < more.len() && (#[trigger] more[k]).usable && more[k].start < more[k].end;
        assert(k < n);
        assert(regions[k] == more[k]);
    }
}

} // verus!
