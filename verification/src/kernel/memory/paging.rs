//! Page mappings: which page is backed by which frame, with which rights.
//!
//! The page tables themselves are edited by the caller, one [`PageMap`] at a
//! time.

use vstd::prelude::*;
use crate::kernel::memory::frames;
use crate::kernel::memory::frames::{Frames, FramesView, FRAME_BYTES};
use crate::mem;

verus! {

/// Rights of a page. Every page that is mapped is present.
#[derive(Clone, Copy, PartialEq, Eq, Debug, Structural)]
pub struct PageFlags {
    pub writable: bool,
    pub user: bool,
    pub no_execute: bool,
}

/// One 4 KiB page: the virtual address `virt` is backed by the physical
/// address `phys`.
#[derive(Clone, Copy, PartialEq, Eq, Debug, Structural)]
pub struct PageMap {
    pub phys: u64,
    pub virt: u64,
    pub flags: PageFlags,
}

/// Bytes of a page.
pub const PAGE_BYTES: u64 = 4096;

/// The lower half of the address space ends here.
pub const LOWER_HALF_END: u64 = 0x8000_0000_0000;

/// The upper half of the address space starts here.
pub const UPPER_HALF: u64 = 0xFFFF_8000_0000_0000;

/// The address is canonical: its top sixteen bits are copies of bit 47.
pub open spec fn canonical(addr: u64) -> bool {
    addr < LOWER_HALF_END || addr >= UPPER_HALF
}

/// The start of the page that holds the address.
pub open spec fn page_of(addr: u64) -> u64 {
    (addr - addr % PAGE_BYTES) as u64
}

/// Number of pages from the one that holds `start` up to `end`.
pub open spec fn pages_between(start: u64, end: int) -> int {
    (end - page_of(start) + 4095) / 4096
}

/// `VirtAddr::try_new` of the crate `x86_64`: it accepts exactly the canonical
/// addresses, and the address that it makes is the number that it was given.
#[verifier::external_body]
pub(crate) fn virtual_address(addr: u64) -> (r: Option<u64>)
    ensures
        r == (if canonical(addr) {
            Some(addr)
        } else {
            None
        }),
{
    match x86_64::VirtAddr::try_new(addr) {
        Ok(v) => Some(v.as_u64()),
        Err(_) => None,
    }
}

/// `Page::<Size4KiB>::containing_address` of the crate `x86_64`, and the start
/// address of that page: the address rounded down to a multiple of 4096. The
/// address must be canonical, for otherwise no `VirtAddr` can be made of it.
#[verifier::external_body]
pub(crate) fn page_start(addr: u64) -> (r: u64)
    requires
        canonical(addr),
    ensures
        r == page_of(addr),
{
    let virt = x86_64::VirtAddr::new(addr);
    x86_64::structures::paging::Page::<x86_64::structures::paging::Size4KiB>::containing_address(
        virt,
    ).start_address().as_u64()
}

/// A run of pages that is backed frame by frame.
pub struct MapJob {
    first: u64,
    pages: u64,
    done: u64,
    flags: PageFlags,
}

/// What comes next in a [`MapJob`].
#[derive(Clone, Copy, PartialEq, Eq, Debug, Structural)]
pub enum MapStep {
    /// Map this page, then ask again.
    Back(PageMap),
    /// Every page is mapped.
    Done,
    /// There is no frame for the next page.
    OutOfFrames,
}

/// What a job has still to do.
#[verifier::ext_equal]
pub struct JobView {
    pub first: u64,
    pub pages: nat,
    pub done: nat,
    pub flags: PageFlags,
}

/// One step of a job with the frames `f` leaves the job `w` and the frames `g`
/// and returns `r`.
pub open spec fn advanced(v: JobView, w: JobView, f: FramesView, g: FramesView, r: MapStep) -> bool {
    match r {
        MapStep::Back(m) => {
            let map = f.map->0;
            &&& v.done < v.pages
            &&& w == (JobView { done: v.done + 1, ..v })
            &&& m.virt == v.first + v.done * PAGE_BYTES
            &&& m.flags == v.flags
            &&& f.map is Some
            &&& m.phys % FRAME_BYTES == 0
            &&& map.placed(1, (m.phys / FRAME_BYTES) as int)
            &&& g == (FramesView {
                map: Some(map.taken(1, (m.phys / FRAME_BYTES) as int)),
                ..f
            })
        },
        MapStep::Done => v.done == v.pages && w == v && g == f,
        MapStep::OutOfFrames => v.done < v.pages && f.free() == 0 && w == v && g == f,
    }
}

impl MapJob {
    pub closed spec fn view(&self) -> JobView {
        JobView {
            first: self.first,
            pages: self.pages as nat,
            done: self.done as nat,
            flags: self.flags,
        }
    }

    #[verifier::type_invariant]
    spec fn inv(self) -> bool {
        self.done <= self.pages && self.first + self.pages * PAGE_BYTES <= u64::MAX
    }

    /// A job for `pages` pages from the address `first` on.
    pub fn new(first: u64, pages: u64, flags: PageFlags) -> (r: MapJob)
        requires
            first + pages * PAGE_BYTES <= u64::MAX,
        ensures
            r@ == (JobView { first, pages: pages as nat, done: 0, flags }),
    {
        MapJob { first, pages, done: 0, flags }
    }

    /// Number of pages of the job.
    pub fn pages(&self) -> (r: u64)
        ensures
            r == self@.pages,
    {
        self.pages
    }

    /// Takes a frame for the next page.
    pub fn next(&mut self, f: &mut Frames) -> (r: MapStep)
        requires
            old(f).wf(),
        ensures
            final(f).wf(),
            advanced(old(self)@, final(self)@, old(f)@, final(f)@, r),
    {
        proof {
            use_type_invariant(&*self);
        }
        if self.done == self.pages {
            return MapStep::Done;
        }
        match frames::alloc_one(f) {
            Some(phys) => {
                proof {
                    assert(self.done * PAGE_BYTES <= self.pages * PAGE_BYTES) by (nonlinear_arith)
                        requires
                            self.done <= self.pages,
                    ;
                }
                let virt = self.first + self.done * PAGE_BYTES;
                self.done = self.done + 1;
                MapStep::Back(PageMap { phys, virt, flags: self.flags })
            },
            None => MapStep::OutOfFrames,
        }
    }
}

/// The mapping of the `i`-th page of a contiguous run.
pub open spec fn contiguous(phys: u64, virt: u64, flags: PageFlags, i: int) -> PageMap {
    PageMap {
        phys: (phys + i * PAGE_BYTES) as u64,
        virt: (virt + i * PAGE_BYTES) as u64,
        flags,
    }
}

/// The mappings of `frames_needed` contiguous physical frames to a contiguous
/// virtual range.
pub fn map_contiguous(
    phys_start: u64,
    virt_start: u64,
    frames_needed: u64,
    flags: PageFlags,
) -> (r: Vec<PageMap>)
    requires
        phys_start + frames_needed * PAGE_BYTES <= u64::MAX,
        virt_start + frames_needed * PAGE_BYTES <= u64::MAX,
        frames_needed <= usize::MAX,
    ensures
        r@ == Seq::new(
            frames_needed as nat,
            |i: int| contiguous(phys_start, virt_start, flags, i),
        ),
{
    let mut out: Vec<PageMap> = Vec::new();
    let mut i: u64 = 0;
    proof {
        assert(out@ =~= Seq::new(0, |i: int| contiguous(phys_start, virt_start, flags, i)));
    }
    while i < frames_needed
        invariant
            i <= frames_needed,
            phys_start + frames_needed * PAGE_BYTES <= u64::MAX,
            virt_start + frames_needed * PAGE_BYTES <= u64::MAX,
            out@ == Seq::new(i as nat, |i: int| contiguous(phys_start, virt_start, flags, i)),
        decreases frames_needed - i,
    {
        proof {
            assert(i * PAGE_BYTES <= frames_needed * PAGE_BYTES) by (nonlinear_arith)
                requires
                    i <= frames_needed,
            ;
        }
        out.push(
            PageMap { phys: phys_start + i * PAGE_BYTES, virt: virt_start + i * PAGE_BYTES, flags },
        );
        i = i + 1;
        proof {
            assert(out@ =~= Seq::new(
                i as nat,
                |i: int| contiguous(phys_start, virt_start, flags, i),
            ));
        }
    }
    out
}

/// Identity mapping of the page that holds a physical address.
pub fn map_identity(phys: u64, flags: PageFlags) -> (r: PageMap)
    ensures
        r == (PageMap { phys, virt: phys, flags }),
{
    PageMap { phys, virt: phys, flags }
}

/// The pages of a contiguous mapping are backed one for one: different pages
/// by different frames, page by page in order.
pub proof fn law_contiguous_is_one_to_one(
    phys: u64,
    virt: u64,
    flags: PageFlags,
    n: int,
    i: int,
    j: int,
)
    requires
        0 <= i < j < n,
        phys + n * PAGE_BYTES <= u64::MAX,
        virt + n * PAGE_BYTES <= u64::MAX,
    ensures
        contiguous(phys, virt, flags, j).virt - contiguous(phys, virt, flags, i).virt == (j - i)
            * PAGE_BYTES,
        contiguous(phys, virt, flags, j).phys - contiguous(phys, virt, flags, i).phys == (j - i)
            * PAGE_BYTES,
{
    assert(i * PAGE_BYTES < j * PAGE_BYTES <= n * PAGE_BYTES) by (nonlinear_arith)
        requires
            0 <= i < j < n,
            PAGE_BYTES == 4096,
    ;
}

/// A page starts at a multiple of 4096, and every address lies in its page.
pub proof fn law_page_of_an_address(addr: u64)
    ensures
        page_of(addr) % 4096 == 0,
        page_of(addr) <= addr,
        addr - page_of(addr) < 4096,
{
}

/// The pages from the one of `start` on hold everything up to `end`, and one
/// page fewer would not.
pub proof fn law_pages_hold_the_range(start: u64, end: int)
    requires
        start < end,
    ensures
        pages_between(start, end) > 0,
        page_of(start) + pages_between(start, end) * 4096 >= end,
        page_of(start) + (pages_between(start, end) - 1) * 4096 < end,
{
}

/// An address is canonical exactly if its top seventeen bits are all the same.
pub proof fn law_canonical_addresses(addr: u64)
    ensures
        canonical(addr) <==> addr >> 47 == 0 || addr >> 47 == 0x1_FFFF,
{
    assert(addr < 0x8000_0000_0000 <==> addr >> 47 == 0) by (bit_vector);
    assert(addr >= 0xFFFF_8000_0000_0000 <==> addr >> 47 == 0x1_FFFF) by (bit_vector);
}

/// Page `i` of a contiguous mapping is `i` pages behind the first, in virtual
/// as in physical memory, with the rights that were asked for.
pub proof fn law_contiguous_pages(phys: u64, virt: u64, flags: PageFlags, i: int)
    requires
        0 <= i,
        phys + i * 4096 <= u64::MAX,
        virt + i * 4096 <= u64::MAX,
    ensures
        contiguous(phys, virt, flags, i).phys == phys + i * 4096,
        contiguous(phys, virt, flags, i).virt == virt + i * 4096,
        contiguous(phys, virt, flags, i).flags == flags,
{
}

/// What a step of a job does: while pages are missing and frames are free it
/// backs the next page, right behind the last one, by a frame that was free and
/// is taken now, and no other frame changes. With no page missing it is done;
/// with no frame free it says so; and then nothing changes.
pub proof fn law_job_step(v: JobView, w: JobView, f: FramesView, g: FramesView, r: MapStep)
    requires
        advanced(v, w, f, g, r),
        f.wf(),
        v.done <= v.pages,
    ensures
        v.done == v.pages ==> r is Done,
        v.done < v.pages && f.map is Some && mem::count_free(f.map->0.used) > 0 ==> r is Back,
        !(r is Back) ==> w == v && g == f,
        r matches MapStep::Back(m) ==> {
            let n = (m.phys / 4096) as int;
            let used = f.map->0.used;
            let now = g.map->0.used;
            &&& m.virt == v.first + 4096 * v.done
            &&& m.flags == v.flags
            &&& w.done == v.done + 1 && w.first == v.first && w.pages == v.pages
            &&& w.flags == v.flags
            &&& m.phys % 4096 == 0
            &&& n < used.len() && !used[n] && now[n] && now.len() == used.len()
            &&& forall|k: int| 0 <= k < used.len() && k != n ==> #[trigger] now[k] == used[k]
            &&& g.usable == f.usable
        },
{
    if let MapStep::Back(m) = r {
        mem::laws::law_allocation_is_fresh(f.map->0, 1, (m.phys / FRAME_BYTES) as int);
    }
}

} // verus!
