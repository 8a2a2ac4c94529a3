//! User-space programs: a minimal ELF loader and the user address space.
//!
//! The programs are static ELF binaries, each linked at its own base. The
//! loader parses the ELF (`PT_LOAD` segments, plus `.rela.dyn` for the few
//! `R_X86_64_RELATIVE` entries), says which pages to map and what to copy
//! into them, which relocation slots to patch, and which pages lose their
//! write permission afterwards.
//!
//! Address space layout (shared, single-page-table kernel):
//! ```text
//! 0x10_0000_0000  USER_BASE           hello (16 MiB apart per program)
//! 0x10_0100_0000                      echo_server
//! 0x10_0200_0000                      echo_client
//! 0x10_0300_0000                      counter
//! 0x10_0400_0000                      deadline
//! 0x11_0000_0000  USER_STACK_BASE     user stack (4 MiB, grows down)
//! 0x11_0040_0000  USER_STACK_TOP
//! 0x12_0000_0000  USER_FRAME_WINDOW   zero-copy shared frames
//! 0x12_0800_0000  USER_WINDOW_END
//! 0x40_0000_0000_0000  kernel heap (2^46)
//! 0x80_0000_0000_0000  physical-memory offset (2^47, bootloader)
//! ```

use vstd::prelude::*;
use crate::bytes;
use crate::kernel::interrupts::FRAME_SIZE;
use crate::kernel::memory::paging;
use crate::kernel::memory::paging::{
    JobView, MapJob, PageFlags, LOWER_HALF_END, PAGE_BYTES, UPPER_HALF,
};
use crate::kernel::task;
use crate::kernel::task::{Loaded, Spawn, TaskTable};
use crate::sched::Deadline;
use crate::text;

pub mod effects;

verus! {

pub const USER_BASE: u64 = 0x10_0000_0000;

pub const USER_STACK_BASE: u64 = 0x11_0000_0000;

pub const USER_STACK_SIZE: u64 = 4 * 1024 * 1024;

pub const USER_STACK_TOP: u64 = USER_STACK_BASE + USER_STACK_SIZE;

pub const USER_FRAME_WINDOW: u64 = 0x12_0000_0000;

/// End of the window for shared frames, 128 MiB after its start.
pub const USER_WINDOW_END: u64 = USER_FRAME_WINDOW + 0x0800_0000;

/// The window has room for `pages` pages from `cursor` on.
pub open spec fn window_fits(cursor: u64, pages: int) -> bool {
    cursor + pages * PAGE_BYTES <= USER_WINDOW_END
}

/// Whether the window has room for `pages` pages from `cursor` on.
pub fn window_has_room(cursor: u64, pages: usize) -> (r: bool)
    ensures
        r == window_fits(cursor, pages as int),
{
    cursor <= USER_WINDOW_END && pages as u64 <= (USER_WINDOW_END - cursor) / PAGE_BYTES
}

/// Allocates the next slot in the user frame window: `cursor` is where the
/// next one starts.
pub fn next_frame_window(cursor: &mut u64, pages: usize) -> (r: u64)
    requires
        *old(cursor) + pages * PAGE_BYTES <= u64::MAX,
    ensures
        r == *old(cursor),
        *final(cursor) == *old(cursor) + pages * PAGE_BYTES,
{
    let start = *cursor;
    *cursor = start + pages as u64 * PAGE_BYTES;
    start
}

// ---------------------------------------------------------------------------
// Programs
// ---------------------------------------------------------------------------

/// A user program: its name and its ELF image.
pub struct Program {
    pub name: &'static str,
    pub image: Vec<u8>,
}

/// Number of user programs.
pub const PROGRAM_COUNT: usize = 5;

/// The names of the user programs, in order.
pub open spec fn names() -> Seq<Seq<char>> {
    seq!["hello"@, "echo_server"@, "echo_client"@, "counter"@, "deadline"@]
}

/// The names of the user programs, in order.
pub fn program_names() -> (r: [&'static str; PROGRAM_COUNT])
    ensures
        r@.len() == names().len(),
        forall|i: int| 0 <= i < r@.len() ==> (#[trigger] r@[i])@ == names()[i],
{
    ["hello", "echo_server", "echo_client", "counter", "deadline"]
}

/// The table holds the user programs, in order.
pub open spec fn is_table(programs: Seq<Program>) -> bool {
    &&& programs.len() == names().len()
    &&& forall|i: int| 0 <= i < programs.len() ==> (#[trigger] programs[i]).name@ == names()[i]
}

/// The table of the user programs, from their images.
pub fn program_table(
    hello: Vec<u8>,
    echo_server: Vec<u8>,
    echo_client: Vec<u8>,
    counter: Vec<u8>,
    deadline: Vec<u8>,
) -> (r: Vec<Program>)
    ensures
        is_table(r@),
        r@[0].image == hello,
        r@[1].image == echo_server,
        r@[2].image == echo_client,
        r@[3].image == counter,
        r@[4].image == deadline,
{
    let names = program_names();
    let mut r: Vec<Program> = Vec::new();
    r.push(Program { name: names[0], image: hello });
    r.push(Program { name: names[1], image: echo_server });
    r.push(Program { name: names[2], image: echo_client });
    r.push(Program { name: names[3], image: counter });
    r.push(Program { name: names[4], image: deadline });
    r
}

/// Program `i` is the first with the name that the bytes `name` spell.
pub open spec fn named(programs: Seq<Program>, name: Seq<u8>, i: int) -> bool {
    &&& 0 <= i < programs.len()
    &&& name == vstd::utf8::encode_utf8(programs[i].name@)
    &&& forall|j: int|
        0 <= j < i ==> name != vstd::utf8::encode_utf8((#[trigger] programs[j]).name@)
}

/// Some program has the name that the bytes `name` spell.
pub open spec fn has_name(programs: Seq<Program>, name: Seq<u8>) -> bool {
    exists|i: int| named(programs, name, i)
}

/// The place of the program with a name given in bytes.
pub fn find_program(programs: &Vec<Program>, name: &[u8]) -> (r: Option<usize>)
    ensures
        match r {
            Some(i) => named(programs@, name@, i as int),
            None => !has_name(programs@, name@),
        },
{
    for i in 0..programs.len()
        invariant
            forall|j: int|
                0 <= j < i ==> name@ != vstd::utf8::encode_utf8((#[trigger] programs@[j]).name@),
    {
        if text::same_bytes(name, programs[i].name.as_bytes()) {
            return Some(i);
        }
    }
    None
}

/// The image of a program.
pub fn program_bytes<'a>(programs: &'a Vec<Program>, name: &str) -> (r: Option<&'a [u8]>)
    ensures
        match r {
            Some(b) => exists|i: int| #[trigger]
                named(programs@, vstd::utf8::encode_utf8(name@), i) && b@ == programs@[i].image@,
            None => !has_name(programs@, vstd::utf8::encode_utf8(name@)),
        },
{
    match find_program(programs, name.as_bytes()) {
        Some(i) => {
            proof {
                assert(named(programs@, vstd::utf8::encode_utf8(name@), i as int));
            }
            Some(programs[i].image.as_slice())
        },
        None => None,
    }
}

/// The canonical name of a program, for use as the task's display name.
/// `None` when there is no such program.
pub fn program_name(name: &str) -> (r: Option<&'static str>)
    ensures
        r is Some <==> names().contains(name@),
        r matches Some(n) ==> n@ == name@,
{
    let all = program_names();
    for i in 0..PROGRAM_COUNT
        invariant
            all@.len() == names().len(),
            forall|j: int| 0 <= j < all@.len() ==> (#[trigger] all@[j])@ == names()[j],
            forall|j: int| 0 <= j < i ==> #[trigger] names()[j] != name@,
    {
        if text::same(name, all[i]) {
            proof {
                assert(all@[i as int]@ == names()[i as int]);
            }
            return Some(all[i]);
        }
        proof {
            assert(all@[i as int]@ == names()[i as int]);
        }
    }
    None
}

/// In the table of the user programs a name is found if and only if it is one
/// of the programs' names.
pub proof fn law_table_knows_the_programs(programs: Seq<Program>, name: Seq<char>)
    requires
        is_table(programs),
    ensures
        has_name(programs, vstd::utf8::encode_utf8(name)) <==> names().contains(name),
{
    let b = vstd::utf8::encode_utf8(name);
    vstd::utf8::encode_utf8_decode_utf8(name);
    if has_name(programs, b) {
        let i = choose|i: int| named(programs, b, i);
        vstd::utf8::encode_utf8_decode_utf8(programs[i].name@);
        assert(programs[i].name@ == names()[i]);
    }
    if names().contains(name) {
        let k = names().index_of(name);
        assert(programs[k].name@ == name);
        lemma_first_named(programs, b, k);
    }
}

/// If some program has a name, one is the first.
proof fn lemma_first_named(programs: Seq<Program>, name: Seq<u8>, k: int)
    requires
        0 <= k < programs.len(),
        name == vstd::utf8::encode_utf8(programs[k].name@),
    ensures
        has_name(programs, name),
    decreases k,
{
    if exists|j: int|
        0 <= j < k && name == vstd::utf8::encode_utf8((#[trigger] programs[j]).name@) {
        let j = choose|j: int|
            0 <= j < k && name == vstd::utf8::encode_utf8((#[trigger] programs[j]).name@);
        lemma_first_named(programs, name, j);
    } else {
        assert(named(programs, name, k));
    }
}

// ---------------------------------------------------------------------------
// Minimal ELF64 loader: segments
// ---------------------------------------------------------------------------

/// A loadable segment.
#[derive(Clone, Copy, PartialEq, Eq, Debug, Structural)]
pub struct Seg {
    pub vaddr: u64,
    pub memsz: u64,
    pub filesz: u64,
    pub offset: u64,
    pub writable: bool,
    pub executable: bool,
}

/// The bytes start like a 64-bit ELF file.
pub open spec fn is_elf(b: Seq<u8>) -> bool {
    b.len() >= 64 && b[0] == 0x7f && b[1] == 0x45 && b[2] == 0x4c && b[3] == 0x46 && b[4] == 2
}

/// Where the program header `i` starts.
pub open spec fn header_at(b: Seq<u8>, i: int) -> int {
    bytes::field(b, 32, 8) + i * bytes::field(b, 54, 2)
}

/// The segment that the program header at `off` describes.
pub open spec fn seg_at(b: Seq<u8>, off: int) -> Seg {
    Seg {
        vaddr: bytes::field(b, off + 16, 8) as u64,
        memsz: bytes::field(b, off + 40, 8) as u64,
        filesz: bytes::field(b, off + 32, 8) as u64,
        offset: bytes::field(b, off + 8, 8) as u64,
        writable: (bytes::field(b, off + 4, 4) / 2) % 2 == 1,
        executable: bytes::field(b, off + 4, 4) % 2 == 1,
    }
}

/// The address at which the program starts.
pub open spec fn entry_point(b: Seq<u8>) -> nat {
    bytes::field(b, 24, 8)
}

/// The loadable segments of the program headers from `i` on, up to the first
/// header that is not in the file.
pub open spec fn segs_from(b: Seq<u8>, i: int) -> Seq<Seg>
    decreases bytes::field(b, 56, 2) - i,
{
    let off = header_at(b, i);
    if i >= bytes::field(b, 56, 2) || off + 56 > b.len() {
        Seq::empty()
    } else if bytes::field(b, off, 4) != 1 {
        segs_from(b, i + 1)
    } else {
        seq![seg_at(b, off)] + segs_from(b, i + 1)
    }
}

/// Parses the ELF64 program headers (loadable segments only): the entry point
/// and the segments.
pub fn load_segments(b: &[u8]) -> (r: Option<(u64, Vec<Seg>)>)
    ensures
        match r {
            Some((entry, segs)) => is_elf(b@) && entry == entry_point(b@) && segs@
                == segs_from(b@, 0),
            None => !is_elf(b@),
        },
{
    if b.len() < 64 || b[0] != 0x7f || b[1] != 0x45 || b[2] != 0x4c || b[3] != 0x46 || b[4] != 2 {
        return None;
    }
    let entry = bytes::read_u64(b, 24);
    let phoff = bytes::read_u64(b, 32);
    let phentsize = bytes::read_u16(b, 54) as u64;
    let phnum = bytes::read_u16(b, 56) as u64;
    let mut segs: Vec<Seg> = Vec::new();
    let mut i: u64 = 0;
    proof {
        assert(segs@ + segs_from(b@, 0) =~= segs_from(b@, 0));
    }
    while i < phnum
        invariant
            b@.len() >= 64,
            b@.len() == b.len(),
            i <= phnum <= 0xFFFF,
            phentsize <= 0xFFFF,
            phoff == bytes::field(b@, 32, 8),
            phentsize == bytes::field(b@, 54, 2),
            phnum == bytes::field(b@, 56, 2),
            segs@ + segs_from(b@, i as int) == segs_from(b@, 0),
        ensures
            segs@ == segs_from(b@, 0),
        decreases phnum - i,
    {
        proof {
            assert(i * phentsize <= 0xFFFF * 0xFFFF) by (nonlinear_arith)
                requires
                    i <= 0xFFFF,
                    phentsize <= 0xFFFF,
            ;
        }
        let step = i * phentsize;
        let start = phoff.checked_add(step);
        let inside = match start {
            Some(off) => off <= b.len() as u64 - 56,
            None => false,
        };
        if !inside {
            proof {
                assert(header_at(b@, i as int) + 56 > b@.len());
                assert(segs@ + segs_from(b@, i as int) =~= segs@);
            }
            break;
        }
        let off = match start {
            Some(off) => off as usize,
            None => 0,
        };
        let ghost before = segs@;
        if bytes::read_u32(b, off) == 1 {
            let flags = bytes::read_u32(b, off + 4);
            let seg = Seg {
                vaddr: bytes::read_u64(b, off + 16),
                memsz: bytes::read_u64(b, off + 40),
                filesz: bytes::read_u64(b, off + 32),
                offset: bytes::read_u64(b, off + 8),
                writable: (flags / 2) % 2 == 1,
                executable: flags % 2 == 1,
            };
            segs.push(seg);
            proof {
                assert(seg == seg_at(b@, off as int));
                assert(segs@ + segs_from(b@, i + 1) =~= before + segs_from(b@, i as int));
            }
        }
        i = i + 1;
        proof {
            if i == phnum {
                assert(segs@ + segs_from(b@, i as int) =~= segs@);
            }
        }
    }
    proof {
        if i == phnum {
            assert(segs@ + segs_from(b@, i as int) =~= segs@);
        }
    }
    Some((entry, segs))
}

/// The segment takes up memory. The first segment of a bare-metal ELF is the
/// page of the ELF header at address 0, which is not mapped.
pub open spec fn installed(seg: Seg) -> bool {
    seg.vaddr != 0 && seg.memsz != 0
}

/// The segment fits into the address space.
pub open spec fn loadable(seg: Seg) -> bool {
    installed(seg) ==> seg.vaddr + seg.memsz <= u64::MAX && paging::canonical(seg.vaddr) && (
    seg.vaddr + seg.memsz <= LOWER_HALF_END || seg.vaddr >= UPPER_HALF)
}

/// Whether the segment fits into the address space.
pub fn can_load(seg: &Seg) -> (r: bool)
    ensures
        r == loadable(*seg),
{
    if seg.vaddr == 0 || seg.memsz == 0 {
        return true;
    }
    match (paging::virtual_address(seg.vaddr), seg.vaddr.checked_add(seg.memsz)) {
        (Some(_), Some(end)) => end <= LOWER_HALF_END || seg.vaddr >= UPPER_HALF,
        _ => false,
    }
}

/// Bytes `from .. from + len` of the file go to the address `to`.
#[derive(Clone, Copy, PartialEq, Eq, Debug, Structural)]
pub struct CopyIn {
    pub from: u64,
    pub to: u64,
    pub len: u64,
}

/// The `len` bytes at the address `at` become zero.
#[derive(Clone, Copy, PartialEq, Eq, Debug, Structural)]
pub struct Clear {
    pub at: u64,
    pub len: u64,
}

/// How a segment is brought into memory.
#[derive(Clone, Copy, PartialEq, Eq, Debug)]
pub struct SegmentPlan {
    /// Address of the first page.
    pub first: u64,
    pub pages: u64,
    /// Rights of the pages while the image is copied.
    pub flags: PageFlags,
    /// The part of the file that is copied once the pages are mapped. `Err`
    /// when the segment's data starts beyond the end of the file.
    pub copy: Result<Option<CopyIn>, ()>,
    /// The rest that is cleared.
    pub clear: Option<Clear>,
}

/// How a segment of a file of `size` bytes is brought into memory.
pub open spec fn plan(seg: Seg, size: int) -> SegmentPlan {
    SegmentPlan {
        first: paging::page_of(seg.vaddr),
        pages: paging::pages_between(seg.vaddr, seg.vaddr + seg.memsz) as u64,
        flags: PageFlags { writable: true, user: true, no_execute: !seg.executable },
        copy: if seg.filesz == 0 {
            Ok(None)
        } else if seg.offset > size {
            Err(())
        } else {
            Ok(
                Some(
                    CopyIn {
                        from: seg.offset,
                        to: seg.vaddr,
                        len: if seg.filesz <= size - seg.offset {
                            seg.filesz
                        } else {
                            (size - seg.offset) as u64
                        },
                    },
                ),
            )
        },
        clear: if seg.memsz > seg.filesz {
            Some(
                Clear {
                    at: (seg.vaddr + seg.filesz) as u64,
                    len: (seg.memsz - seg.filesz) as u64,
                },
            )
        } else {
            None
        },
    }
}

/// First page and number of pages of a segment that takes up memory.
fn page_span(seg: &Seg) -> (r: (u64, u64))
    requires
        loadable(*seg),
        installed(*seg),
    ensures
        r.0 == paging::page_of(seg.vaddr),
        r.1 == paging::pages_between(seg.vaddr, seg.vaddr + seg.memsz),
        r.1 > 0,
        r.0 + (r.1 - 1) * PAGE_BYTES < seg.vaddr + seg.memsz <= r.0 + r.1 * PAGE_BYTES,
{
    let end = seg.vaddr + seg.memsz;
    let first = paging::page_start(seg.vaddr);
    let bytes = end - first;
    let pages = if bytes % 4096 == 0 {
        bytes / 4096
    } else {
        bytes / 4096 + 1
    };
    (first, pages)
}

/// First step: the pages of the segment are mapped writable, the file image is
/// copied and the tail is zeroed. `None` when the segment takes up no memory,
/// or when the page at its address is `mapped` already: then this or an
/// earlier task has loaded the same program, and its image is still resident.
/// The final rights come with [`tighten_segment`], after the relocations.
pub fn map_segment(seg: &Seg, elf: &[u8], mapped: bool) -> (r: Option<SegmentPlan>)
    requires
        loadable(*seg),
    ensures
        r == (if installed(*seg) && !mapped {
            Some(plan(*seg, elf@.len() as int))
        } else {
            None
        }),
{
    if mapped {
        return None;
    }
    if seg.vaddr == 0 || seg.memsz == 0 {
        return None;
    }
    let (first, pages) = page_span(seg);
    let size = elf.len() as u64;
    let copy = if seg.filesz == 0 {
        Ok(None)
    } else if seg.offset > size {
        Err(())
    } else {
        let rest = size - seg.offset;
        Ok(
            Some(
                CopyIn {
                    from: seg.offset,
                    to: seg.vaddr,
                    len: if seg.filesz <= rest {
                        seg.filesz
                    } else {
                        rest
                    },
                },
            ),
        )
    };
    let clear = if seg.memsz > seg.filesz {
        Some(Clear { at: seg.vaddr + seg.filesz, len: seg.memsz - seg.filesz })
    } else {
        None
    };
    Some(
        SegmentPlan {
            first,
            pages,
            flags: PageFlags { writable: true, user: true, no_execute: !seg.executable },
            copy,
            clear,
        },
    )
}

/// The pages that a segment takes, backed frame by frame.
pub fn segment_job(plan: &SegmentPlan) -> (r: MapJob)
    requires
        plan.first + plan.pages * PAGE_BYTES <= u64::MAX,
    ensures
        r@.first == plan.first,
        r@.pages == plan.pages,
        r@.done == 0,
        r@.flags == plan.flags,
{
    MapJob::new(plan.first, plan.pages, plan.flags)
}

/// Pages whose rights change.
#[derive(Clone, Copy, PartialEq, Eq, Debug, Structural)]
pub struct Tighten {
    pub first: u64,
    pub pages: u64,
    pub flags: PageFlags,
}

/// Last step: pure text (executable, not writable) loses its write permission.
/// `None` for any other segment.
pub open spec fn tightened(seg: Seg) -> Option<Tighten> {
    if installed(seg) && seg.executable && !seg.writable {
        Some(
            Tighten {
                first: paging::page_of(seg.vaddr),
                pages: paging::pages_between(seg.vaddr, seg.vaddr + seg.memsz) as u64,
                flags: PageFlags { writable: false, user: true, no_execute: false },
            },
        )
    } else {
        None
    }
}

/// Last step: which pages of a segment lose their write permission.
pub fn tighten_segment(seg: &Seg) -> (r: Option<Tighten>)
    requires
        loadable(*seg),
    ensures
        r == tightened(*seg),
{
    if seg.vaddr == 0 || seg.memsz == 0 || !seg.executable || seg.writable {
        return None;
    }
    let (first, pages) = page_span(seg);
    Some(
        Tighten {
            first,
            pages,
            flags: PageFlags { writable: false, user: true, no_execute: false },
        },
    )
}

/// The rights that the pages of a segment end up with.
pub open spec fn final_flags(seg: Seg) -> PageFlags {
    match tightened(seg) {
        Some(t) => t.flags,
        None => plan(seg, 0).flags,
    }
}

/// The job for the pages of the user stack.
pub open spec fn stack_job() -> JobView {
    JobView {
        first: USER_STACK_BASE,
        pages: 1024,
        done: 0,
        flags: PageFlags { writable: true, user: true, no_execute: true },
    }
}

/// The pages of the user stack: writable, for users, not executable. `None`
/// when its first page is `mapped` already.
pub fn map_user_stack(mapped: bool) -> (r: Option<MapJob>)
    ensures
        match r {
            Some(job) => !mapped && job@ == stack_job(),
            None => mapped,
        },
{
    if mapped {
        return None;
    }
    Some(
        MapJob::new(
            USER_STACK_BASE,
            USER_STACK_SIZE / PAGE_BYTES,
            PageFlags { writable: true, user: true, no_execute: true },
        ),
    )
}

// ---------------------------------------------------------------------------
// Minimal ELF64 loader: relocations
// ---------------------------------------------------------------------------

/// The eight bytes at the address `at` become `value`.
#[derive(Clone, Copy, PartialEq, Eq, Debug, Structural)]
pub struct Patch {
    pub at: u64,
    pub value: u64,
}

/// The eight bytes at `at` lie in a segment that takes up memory.
pub open spec fn in_segment(segs: Seq<Seg>, at: u64) -> bool {
    exists|k: int|
        0 <= k < segs.len() && installed(#[trigger] segs[k]) && segs[k].vaddr <= at && at + 8
            <= segs[k].vaddr + segs[k].memsz
}

/// The relocation entry at `pos` is a relative one in a segment.
pub open spec fn patches_at(b: Seq<u8>, segs: Seq<Seg>, pos: int) -> bool {
    bytes::field(b, pos + 8, 8) % 0x1_0000_0000 == 8 && in_segment(
        segs,
        bytes::field(b, pos, 8) as u64,
    )
}

/// What the relocation entry at `pos` writes: its addend into its slot.
pub open spec fn patch_at(b: Seq<u8>, pos: int) -> Patch {
    Patch { at: bytes::field(b, pos, 8) as u64, value: bytes::field(b, pos + 16, 8) as u64 }
}

/// The patches of the relocation entries in `pos .. end`.
pub open spec fn rela_patches(b: Seq<u8>, segs: Seq<Seg>, pos: int, end: int) -> Seq<Patch>
    decreases end - pos,
{
    if pos + 24 > end {
        Seq::empty()
    } else if patches_at(b, segs, pos) {
        seq![patch_at(b, pos)] + rela_patches(b, segs, pos + 24, end)
    } else {
        rela_patches(b, segs, pos + 24, end)
    }
}

/// Where the section header `i` starts.
pub open spec fn section_at(b: Seq<u8>, i: int) -> int {
    bytes::field(b, 40, 8) + i * bytes::field(b, 58, 2)
}

/// The patches of the section whose header is at `off`: those of a relocation
/// section (type 4), as far as it lies in the file.
pub open spec fn section_patches(b: Seq<u8>, segs: Seq<Seg>, off: int) -> Seq<Patch> {
    let start = bytes::field(b, off + 24, 8) as int;
    let end = start + bytes::field(b, off + 32, 8);
    if bytes::field(b, off + 4, 4) == 4 {
        rela_patches(
            b,
            segs,
            start,
            if end <= b.len() {
                end
            } else {
                b.len() as int
            },
        )
    } else {
        Seq::empty()
    }
}

/// The patches of the sections from `i` on, up to the first section header
/// that is not in the file.
pub open spec fn patches_from(b: Seq<u8>, segs: Seq<Seg>, i: int) -> Seq<Patch>
    decreases bytes::field(b, 60, 2) - i,
{
    let off = section_at(b, i);
    if i >= bytes::field(b, 60, 2) || off + 64 > b.len() {
        Seq::empty()
    } else {
        section_patches(b, segs, off) + patches_from(b, segs, i + 1)
    }
}

/// The patches of a file.
pub open spec fn patches(b: Seq<u8>, segs: Seq<Seg>) -> Seq<Patch> {
    if b.len() < 64 || bytes::field(b, 40, 8) == 0 || bytes::field(b, 58, 2) == 0 {
        Seq::empty()
    } else {
        patches_from(b, segs, 0)
    }
}

/// Whether the eight bytes at `at` lie in a segment that takes up memory.
fn slot_in_segment(segs: &[Seg], at: u64) -> (r: bool)
    ensures
        r == in_segment(segs@, at),
{
    for i in 0..segs.len()
        invariant
            forall|k: int|
                0 <= k < i ==> !(installed(#[trigger] segs@[k]) && segs@[k].vaddr <= at && at + 8
                    <= segs@[k].vaddr + segs@[k].memsz),
    {
        let s = segs[i];
        if s.vaddr != 0 && s.memsz != 0 && s.vaddr <= at {
            let into = at - s.vaddr;
            if s.memsz >= 8 && into <= s.memsz - 8 {
                assert(installed(segs@[i as int]));
                return true;
            }
        }
    }
    false
}

/// Appends the patches of the relocation entries in `start .. end`.
fn push_rela(out: &mut Vec<Patch>, elf: &[u8], segs: &[Seg], start: usize, end: usize)
    requires
        end <= elf@.len(),
    ensures
        final(out)@ == old(out)@ + rela_patches(elf@, segs@, start as int, end as int),
{
    let mut pos: usize = start;
    proof {
        assert(elf@.len() == elf.len());
        assert(out@ + rela_patches(elf@, segs@, pos as int, end as int) =~= old(out)@
            + rela_patches(elf@, segs@, start as int, end as int));
    }
    while pos <= end && end - pos >= 24
        invariant
            end <= elf@.len(),
            elf@.len() == elf.len(),
            out@ + rela_patches(elf@, segs@, pos as int, end as int) == old(out)@ + rela_patches(
                elf@,
                segs@,
                start as int,
                end as int,
            ),
        decreases elf@.len() + 24 - pos,
    {
        let ghost before = out@;
        let slot = bytes::read_u64(elf, pos);
        let info = bytes::read_u64(elf, pos + 8);
        let addend = bytes::read_u64(elf, pos + 16);
        if info % 0x1_0000_0000 == 8 && slot_in_segment(segs, slot) {
            out.push(Patch { at: slot, value: addend });
            proof {
                assert(out@ + rela_patches(elf@, segs@, pos + 24, end as int) =~= before
                    + rela_patches(elf@, segs@, pos as int, end as int));
            }
        }
        pos = pos + 24;
    }
    proof {
        assert(out@ + rela_patches(elf@, segs@, pos as int, end as int) =~= out@);
    }
}

/// Second step: the relocations of the file, in order. Each relative entry
/// writes its *addend* into its slot: in a static binary the addend already
/// holds the final linked address. Only slots inside a segment that takes up
/// memory are patched; anything else is skipped.
pub fn apply_relocations(elf: &[u8], segs: &[Seg]) -> (out: Vec<Patch>)
    ensures
        out@ == patches(elf@, segs@),
{
    let mut out: Vec<Patch> = Vec::new();
    if elf.len() < 64 {
        proof {
            assert(out@ =~= Seq::<Patch>::empty());
        }
        return out;
    }
    let shoff = bytes::read_u64(elf, 40);
    let shentsize = bytes::read_u16(elf, 58) as u64;
    let shnum = bytes::read_u16(elf, 60) as u64;
    if shoff == 0 || shentsize == 0 {
        proof {
            assert(out@ =~= Seq::<Patch>::empty());
        }
        return out;
    }
    let mut i: u64 = 0;
    proof {
        assert(out@ + patches_from(elf@, segs@, 0) =~= patches_from(elf@, segs@, 0));
    }
    while i < shnum
        invariant
            elf@.len() >= 64,
            elf@.len() == elf.len(),
            i <= shnum <= 0xFFFF,
            shentsize <= 0xFFFF,
            shoff == bytes::field(elf@, 40, 8),
            shentsize == bytes::field(elf@, 58, 2),
            shnum == bytes::field(elf@, 60, 2),
            out@ + patches_from(elf@, segs@, i as int) == patches_from(elf@, segs@, 0),
        ensures
            out@ == patches_from(elf@, segs@, 0),
        decreases shnum - i,
    {
        proof {
            assert(i * shentsize <= 0xFFFF * 0xFFFF) by (nonlinear_arith)
                requires
                    i <= 0xFFFF,
                    shentsize <= 0xFFFF,
            ;
        }
        let step = i * shentsize;
        let at = shoff.checked_add(step);
        let inside = match at {
            Some(off) => off <= elf.len() as u64 - 64,
            None => false,
        };
        if !inside {
            proof {
                assert(section_at(elf@, i as int) + 64 > elf@.len());
                assert(out@ + patches_from(elf@, segs@, i as int) =~= out@);
            }
            break;
        }
        let off = match at {
            Some(off) => off as usize,
            None => 0,
        };
        let ghost before = out@;
        proof {
            assert(off == section_at(elf@, i as int));
            assert(patches_from(elf@, segs@, i as int) == section_patches(elf@, segs@, off as int)
                + patches_from(elf@, segs@, i + 1));
        }
        if bytes::read_u32(elf, off + 4) == 4 {
            let start = bytes::read_u64(elf, off + 24);
            let size = bytes::read_u64(elf, off + 32);
            let len = elf.len() as u64;
            let end = match start.checked_add(size) {
                Some(end) => if end <= len {
                    end
                } else {
                    len
                },
                None => len,
            };
            if start <= len {
                push_rela(&mut out, elf, segs, start as usize, end as usize);
            } else {
                proof {
                    assert(section_patches(elf@, segs@, off as int) =~= Seq::<Patch>::empty());
                    assert(out@ + section_patches(elf@, segs@, off as int) =~= out@);
                }
            }
            proof {
                assert(out@ == before + section_patches(elf@, segs@, off as int));
            }
        } else {
            proof {
                assert(before + section_patches(elf@, segs@, off as int) =~= out@);
            }
        }
        i = i + 1;
        proof {
            assert(out@ + patches_from(elf@, segs@, i as int) =~= before + (section_patches(
                elf@,
                segs@,
                off as int,
            ) + patches_from(elf@, segs@, i as int)));
            if i == shnum {
                assert(out@ + patches_from(elf@, segs@, i as int) =~= out@);
            }
        }
    }
    proof {
        if i == shnum {
            assert(out@ + patches_from(elf@, segs@, i as int) =~= out@);
        }
    }
    out
}

// ---------------------------------------------------------------------------
// Loading
// ---------------------------------------------------------------------------

/// What has to be done to load a program: map and fill its segments, apply the
/// patches, take the write permission from pure text, and map the user stack.
pub struct LoadPlan<'a> {
    pub program: Loaded,
    pub image: &'a [u8],
    pub segs: Vec<Seg>,
    pub patches: Vec<Patch>,
}

/// The image can be loaded: it is an ELF file with a loadable segment.
pub open spec fn has_segments(b: Seq<u8>) -> bool {
    is_elf(b) && segs_from(b, 0).len() > 0
}

/// The plan `r` is that of the program with the name `name`.
pub open spec fn load_planned(programs: Seq<Program>, name: Seq<u8>, r: Result<LoadPlan<'_>, ()>)
    -> bool {
    match r {
        Ok(p) => exists|i: int| #[trigger]
            named(programs, name, i) && {
                &&& has_segments(programs[i].image@)
                &&& p.program.name == programs[i].name
                &&& p.program.entry == entry_point(programs[i].image@)
                &&& p.program.stack_top == USER_STACK_TOP
                &&& p.image@ == programs[i].image@
                &&& p.segs@ == segs_from(programs[i].image@, 0)
                &&& p.patches@ == patches(programs[i].image@, p.segs@)
            },
        Err(()) => forall|i: int| #[trigger]
            named(programs, name, i) ==> !has_segments(programs[i].image@),
    }
}

/// Plans the loading of a program whose name is given in bytes.
///
/// # Errors
///
/// Fails when there is no such program, or its image has no loadable segments.
pub fn load_user_program<'a>(programs: &'a Vec<Program>, name: &[u8]) -> (r: Result<
    LoadPlan<'a>,
    (),
>)
    ensures
        load_planned(programs@, name@, r),
{
    match find_program(programs, name) {
        Some(i) => {
            let image: &'a [u8] = programs[i].image.as_slice();
            proof {
                assert(named(programs@, name@, i as int));
                assert forall|j: int| #[trigger] named(programs@, name@, j) implies j == i by {
                    if j < i {
                        assert(programs@[j].name@ == programs@[j].name@);
                    }
                    if i < j {
                        assert(programs@[i as int].name@ == programs@[i as int].name@);
                    }
                }
            }
            match load_segments(image) {
                Some((entry, segs)) => {
                    if segs.len() == 0 {
                        return Err(());
                    }
                    let patches = apply_relocations(image, segs.as_slice());
                    Ok(
                        LoadPlan {
                            program: Loaded {
                                name: programs[i].name,
                                entry,
                                stack_top: USER_STACK_TOP,
                            },
                            image,
                            segs,
                            patches,
                        },
                    )
                },
                None => Err(()),
            }
        },
        None => {
            proof {
                assert forall|j: int| #[trigger] named(programs@, name@, j) implies false by {
                    assert(has_name(programs@, name@));
                }
            }
            Err(())
        },
    }
}

/// Deadlines of the realtime demo tasks.
pub open spec fn demo_deadline(k: int) -> Deadline {
    if k == 0 {
        Deadline { period: 200, budget: 20 }
    } else {
        Deadline { period: 100, budget: 15 }
    }
}

/// The state and the results of spawning the realtime demo group.
pub open spec fn demo_spawned(
    v: task::TasksView,
    first: Result<Loaded, ()>,
    second: Result<Loaded, ()>,
    first_top: u64,
    second_top: u64,
) -> (task::TasksView, Result<Spawn, ()>, Result<Spawn, ()>) {
    let a = task::user_spawned(v, first, 3, 1, Some(demo_deadline(0)), 0, first_top);
    let b = task::user_spawned(a.0, second, 3, 1, Some(demo_deadline(1)), 0, second_top);
    (b.0, a.1, b.1)
}

/// Spawns the realtime demo group, from what the loader returned for each of
/// its two tasks and the tops of their kernel stacks.
pub fn spawn_deadline_demo(
    tasks: &mut TaskTable,
    first: Result<Loaded, ()>,
    second: Result<Loaded, ()>,
    first_top: u64,
    second_top: u64,
) -> (r: (Result<Spawn, ()>, Result<Spawn, ()>))
    requires
        old(tasks).wf(),
        first is Ok ==> old(tasks)@.has_room() && first_top >= FRAME_SIZE,
        second is Ok ==> task::user_spawned(
            old(tasks)@,
            first,
            3,
            1,
            Some(demo_deadline(0)),
            0,
            first_top,
        ).0.has_room() && second_top >= FRAME_SIZE,
    ensures
        final(tasks).wf(),
        ({
            let (w, a, b) = demo_spawned(old(tasks)@, first, second, first_top, second_top);
            final(tasks)@ == w && r == (a, b)
        }),
{
    let dl1 = Deadline { period: 200, budget: 20 };
    let dl2 = Deadline { period: 100, budget: 15 };
    let a = task::spawn_user_rt(tasks, first, 3, 1, Some(dl1), first_top);
    let b = task::spawn_user_rt(tasks, second, 3, 1, Some(dl2), second_top);
    (a, b)
}

// ---------------------------------------------------------------------------
// Self-test
// ---------------------------------------------------------------------------

/// The line of one program in the self-test.
pub open spec fn test_line(p: Program) -> Seq<char> {
    if has_segments(p.image@) {
        "user: "@ + p.name@ + ": entry=0x"@ + text::hex(entry_point(p.image@), 1) + " OK"@
    } else {
        "user: "@ + p.name@ + ": bad ELF"@
    }
}

/// Kernel self-test: the images must parse and have loadable segments. Returns
/// whether they do, and a line for each.
pub fn run_tests(programs: &Vec<Program>) -> (r: (bool, Vec<String>))
    ensures
        r.0 == (forall|i: int|
            0 <= i < programs@.len() ==> has_segments((#[trigger] programs@[i]).image@)),
        text::views(r.1@) == Seq::new(programs@.len(), |i: int| test_line(programs@[i])),
{
    let mut ok: bool = true;
    let mut lines = text::no_lines();
    proof {
        assert(text::views(lines@) =~= Seq::new(0, |i: int| test_line(programs@[i])));
    }
    for i in 0..programs.len()
        invariant
            ok == (forall|k: int| 0 <= k < i ==> has_segments((#[trigger] programs@[k]).image@)),
            text::views(lines@) == Seq::new(i as nat, |k: int| test_line(programs@[k])),
    {
        let mut line = String::from_str("user: ");
        line.append(programs[i].name);
        let mut good: bool = false;
        if let Some((entry, segs)) = load_segments(programs[i].image.as_slice()) {
            if segs.len() > 0 {
                good = true;
                line.append(": entry=0x");
                text::push_hex(&mut line, entry, 1);
                line.append(" OK");
            }
        }
        if !good {
            line.append(": bad ELF");
            ok = false;
        }
        proof {
            assert(good == has_segments(programs@[i as int].image@));
            assert(line@ == test_line(programs@[i as int]));
        }
        text::push_line(&mut lines, line);
        proof {
            assert(text::views(lines@) =~= Seq::new(
                (i + 1) as nat,
                |k: int| test_line(programs@[k]),
            ));
        }
    }
    (ok, lines)
}

// ---------------------------------------------------------------------------
// Laws
// ---------------------------------------------------------------------------

/// After loading, no page of pure text is writable, and no page of a segment
/// that is not executable can be executed.
pub proof fn law_loaded_text_is_not_writable(seg: Seg)
    requires
        installed(seg),
    ensures
        seg.executable && !seg.writable ==> !final_flags(seg).writable && !final_flags(
            seg,
        ).no_execute,
        !seg.executable ==> final_flags(seg).no_execute,
        seg.writable ==> final_flags(seg).writable,
        final_flags(seg).user,
{
}

/// The pages of a segment hold all of it, and no page more than it needs; what
/// is copied and what is cleared together are the whole segment, as far as the
/// file has it.
pub proof fn law_segment_is_covered(seg: Seg, size: int)
    requires
        loadable(seg),
        installed(seg),
        seg.filesz <= seg.memsz,
        0 < seg.filesz,
        seg.offset + seg.filesz <= size,
    ensures
        ({
            let p = plan(seg, size);
            &&& p.first <= seg.vaddr < p.first + PAGE_BYTES
            &&& p.first + (p.pages - 1) * PAGE_BYTES < seg.vaddr + seg.memsz <= p.first + p.pages
                * PAGE_BYTES
            &&& p.copy == Ok::<Option<CopyIn>, ()>(
                Some(CopyIn { from: seg.offset, to: seg.vaddr, len: seg.filesz }),
            )
            &&& seg.filesz < seg.memsz ==> p.clear == Some(
                Clear {
                    at: (seg.vaddr + seg.filesz) as u64,
                    len: (seg.memsz - seg.filesz) as u64,
                },
            )
            &&& seg.filesz == seg.memsz ==> p.clear is None
        }),
{
}

/// Every patch lies in a segment that takes up memory.
pub proof fn law_patches_stay_in_segments(b: Seq<u8>, segs: Seq<Seg>)
    ensures
        forall|k: int|
            0 <= k < patches(b, segs).len() ==> in_segment(
                segs,
                (#[trigger] patches(b, segs)[k]).at,
            ),
{
    lemma_patches_from(b, segs, 0);
}

proof fn lemma_rela(b: Seq<u8>, segs: Seq<Seg>, pos: int, end: int)
    ensures
        forall|k: int|
            0 <= k < rela_patches(b, segs, pos, end).len() ==> in_segment(
                segs,
                (#[trigger] rela_patches(b, segs, pos, end)[k]).at,
            ),
    decreases end - pos,
{
    if pos + 24 <= end {
        lemma_rela(b, segs, pos + 24, end);
        let rest = rela_patches(b, segs, pos + 24, end);
        if patches_at(b, segs, pos) {
            assert forall|k: int| 0 <= k < rela_patches(b, segs, pos, end).len() implies in_segment(
                segs,
                (#[trigger] rela_patches(b, segs, pos, end)[k]).at,
            ) by {
                if k > 0 {
                    assert(rela_patches(b, segs, pos, end)[k] == rest[k - 1]);
                }
            }
        }
    }
}

proof fn lemma_patches_from(b: Seq<u8>, segs: Seq<Seg>, i: int)
    ensures
        forall|k: int|
            0 <= k < patches_from(b, segs, i).len() ==> in_segment(
                segs,
                (#[trigger] patches_from(b, segs, i)[k]).at,
            ),
    decreases bytes::field(b, 60, 2) - i,
{
    let off = section_at(b, i);
    if i < bytes::field(b, 60, 2) && off + 64 <= b.len() {
        let start = bytes::field(b, off + 24, 8) as int;
        let end = start + bytes::field(b, off + 32, 8);
        lemma_rela(
            b,
            segs,
            start,
            if end <= b.len() {
                end
            } else {
                b.len() as int
            },
        );
        lemma_patches_from(b, segs, i + 1);
        let one = section_patches(b, segs, off);
        let rest = patches_from(b, segs, i + 1);
        assert forall|k: int| 0 <= k < patches_from(b, segs, i).len() implies in_segment(
            segs,
            (#[trigger] patches_from(b, segs, i)[k]).at,
        ) by {
            if k < one.len() {
                assert(patches_from(b, segs, i)[k] == one[k]);
            } else {
                assert(patches_from(b, segs, i)[k] == rest[k - one.len()]);
            }
        }
    }
}

/// Slots of the frame window that are given out one after the other, `a` pages
/// at `first` and then `b` pages at `second`, do not overlap, and lie in the
/// window as long as it has room.
pub proof fn law_window_slots_are_disjoint(first: u64, a: nat, second: u64, b: nat)
    requires
        USER_FRAME_WINDOW <= first,
        second == first + a * PAGE_BYTES,
        first + (a + b) * PAGE_BYTES <= USER_WINDOW_END,
    ensures
        USER_FRAME_WINDOW <= first <= first + a * PAGE_BYTES <= second,
        second + b * PAGE_BYTES <= USER_WINDOW_END,
{
    assert((a + b) * PAGE_BYTES == a * PAGE_BYTES + b * PAGE_BYTES) by (nonlinear_arith);
}

} // verus!
