//! What the loader makes of the bytes of a program, field by field.

use vstd::prelude::*;
use crate::bytes;
use crate::bytes::eight_bytes;
use crate::kernel::user;
use crate::kernel::task;
use crate::kernel::task::{Loaded, TasksView};
use crate::kernel::user::{Patch, Seg, SegmentPlan};
use crate::sched::Deadline;
use crate::text;

verus! {

/// The two bytes from `at` on, each with its place value.
pub open spec fn two_bytes(b: Seq<u8>, at: int) -> int {
    b[at] + 0x100 * b[at + 1]
}

/// The four bytes from `at` on, each with its place value.
pub open spec fn four_bytes(b: Seq<u8>, at: int) -> int {
    b[at] + 0x100 * b[at + 1] + 0x1_0000 * b[at + 2] + 0x100_0000 * b[at + 3]
}

proof fn lemma_fields(b: Seq<u8>, at: int)
    requires
        0 <= at,
    ensures
        at + 2 <= b.len() ==> bytes::field(b, at, 2) == two_bytes(b, at),
        at + 4 <= b.len() ==> bytes::field(b, at, 4) == four_bytes(b, at),
        at + 8 <= b.len() ==> bytes::field(b, at, 8) == eight_bytes(b, at) && 0 <= eight_bytes(b, at)
            <= u64::MAX,
{
    reveal(bytes::eight_bytes);
    bytes::law_fields_are_little_endian(b, at);
}

// ---------------------------------------------------------------------------
// Segments
// ---------------------------------------------------------------------------

/// Where the program header `i` starts.
pub open spec fn program_header(b: Seq<u8>, i: int) -> int {
    eight_bytes(b, 32) + i * two_bytes(b, 54)
}

/// The segment is the one that the program header at `off` describes.
pub open spec fn describes(b: Seq<u8>, off: int, s: Seg) -> bool {
    &&& s.vaddr == eight_bytes(b, off + 16)
    &&& s.memsz == eight_bytes(b, off + 40)
    &&& s.filesz == eight_bytes(b, off + 32)
    &&& s.offset == eight_bytes(b, off + 8)
    &&& s.executable <==> b[off + 4] % 2 == 1
    &&& s.writable <==> b[off + 4] / 2 % 2 == 1
}

proof fn lemma_describes(b: Seq<u8>, off: int)
    requires
        0 <= off,
        off + 56 <= b.len(),
    ensures
        describes(b, off, user::seg_at(b, off)),
{
    lemma_fields(b, off + 4);
    lemma_fields(b, off + 8);
    lemma_fields(b, off + 16);
    lemma_fields(b, off + 32);
    lemma_fields(b, off + 40);
    let flags = four_bytes(b, off + 4);
    let high = 0x80 * b[off + 5] + 0x8000 * b[off + 6] + 0x80_0000 * b[off + 7];
    assert(flags == b[off + 4] + 2 * high);
    assert(flags % 2 == b[off + 4] % 2);
    assert(flags / 2 == b[off + 4] / 2 + high);
    assert(high % 2 == 0);
}

/// What a program header contributes: a loadable one (type 1) its segment, with
/// the addresses and sizes that are in it, whole; any other nothing. The
/// segments come in the order of the headers, as many as the file says and has.
pub proof fn law_program_header(b: Seq<u8>, i: int)
    requires
        b.len() >= 64,
        0 <= i,
    ensures
        ({
            let off = program_header(b, i);
            let here = user::segs_from(b, i);
            let rest = user::segs_from(b, i + 1);
            &&& i >= two_bytes(b, 56) || off + 56 > b.len() ==> here.len() == 0
            &&& i < two_bytes(b, 56) && off + 56 <= b.len() ==> {
                &&& four_bytes(b, off) != 1 ==> here == rest
                &&& four_bytes(b, off) == 1 ==> here.len() == rest.len() + 1 && describes(
                    b,
                    off,
                    here[0],
                ) && here.drop_first() == rest
            }
        }),
{
    lemma_fields(b, 32);
    lemma_fields(b, 54);
    lemma_fields(b, 56);
    let off = program_header(b, i);
    assert(0 <= i * two_bytes(b, 54)) by (nonlinear_arith)
        requires
            0 <= i,
            0 <= two_bytes(b, 54),
    ;
    assert(user::header_at(b, i) == off);
    if i < two_bytes(b, 56) && off + 56 <= b.len() {
        lemma_fields(b, off);
        lemma_describes(b, off);
        if four_bytes(b, off) == 1 {
            let rest = user::segs_from(b, i + 1);
            assert((seq![user::seg_at(b, off)] + rest).drop_first() =~= rest);
        }
    }
}

/// The segment is that of a loadable program header.
pub open spec fn from_header(b: Seq<u8>, s: Seg) -> bool {
    exists|i: int| #[trigger] load_header(b, i) && describes(b, program_header(b, i), s)
}

/// The segment of the program header `i` is among them.
pub open spec fn among(b: Seq<u8>, segs: Seq<Seg>, i: int) -> bool {
    exists|k: int| 0 <= k < segs.len() && #[trigger] describes(b, program_header(b, i), segs[k])
}

/// Every loadable program header of the file gives a segment, and there is no
/// segment that none gives.
pub proof fn law_segments_are_the_load_headers(b: Seq<u8>)
    requires
        b.len() >= 64,
    ensures
        forall|i: int| #[trigger] load_header(b, i) ==> among(b, user::segs_from(b, 0), i),
        forall|k: int|
            0 <= k < user::segs_from(b, 0).len() ==> from_header(
                b,
                #[trigger] user::segs_from(b, 0)[k],
            ),
{
    assert forall|i: int| #[trigger] load_header(b, i) implies among(
        b,
        user::segs_from(b, 0),
        i,
    ) by {
        lemma_header_is_loaded(b, 0, i);
    }
    assert forall|k: int| 0 <= k < user::segs_from(b, 0).len() implies from_header(
        b,
        #[trigger] user::segs_from(b, 0)[k],
    ) by {
        lemma_segment_has_header(b, 0, k);
    }
}

/// The program header `i` is in the file and loadable.
pub open spec fn load_header(b: Seq<u8>, i: int) -> bool {
    0 <= i < two_bytes(b, 56) && program_header(b, i) + 56 <= b.len() && four_bytes(
        b,
        program_header(b, i),
    ) == 1
}

proof fn lemma_header_is_loaded(b: Seq<u8>, from: int, i: int)
    requires
        b.len() >= 64,
        0 <= from <= i,
        load_header(b, i),
    ensures
        among(b, user::segs_from(b, from), i),
    decreases i - from,
{
    let here = user::segs_from(b, from);
    law_program_header(b, from);
    if from == i {
        assert(describes(b, program_header(b, i), here[0]));
    } else {
        assert(program_header(b, from) <= program_header(b, i)) by (nonlinear_arith)
            requires
                from <= i,
                0 <= two_bytes(b, 54),
                program_header(b, from) == eight_bytes(b, 32) + from * two_bytes(b, 54),
                program_header(b, i) == eight_bytes(b, 32) + i * two_bytes(b, 54),
        ;
        lemma_header_is_loaded(b, from + 1, i);
        let rest = user::segs_from(b, from + 1);
        let k = choose|k: int|
            0 <= k < rest.len() && #[trigger] describes(b, program_header(b, i), rest[k]);
        if here.len() == rest.len() {
            assert(describes(b, program_header(b, i), here[k]));
        } else {
            assert(here.drop_first()[k] == here[k + 1]);
            assert(describes(b, program_header(b, i), here[k + 1]));
        }
    }
}

proof fn lemma_segment_has_header(b: Seq<u8>, from: int, k: int)
    requires
        b.len() >= 64,
        0 <= from,
        0 <= k < user::segs_from(b, from).len(),
    ensures
        from_header(b, user::segs_from(b, from)[k]),
    decreases two_bytes(b, 56) - from,
{
    let here = user::segs_from(b, from);
    let rest = user::segs_from(b, from + 1);
    law_program_header(b, from);
    let off = program_header(b, from);
    assert(from < two_bytes(b, 56) && off + 56 <= b.len());
    if four_bytes(b, off) != 1 {
        lemma_segment_has_header(b, from + 1, k);
    } else if k == 0 {
        assert(load_header(b, from));
    } else {
        assert(here.drop_first()[k - 1] == here[k]);
        lemma_segment_has_header(b, from + 1, k - 1);
    }
}

/// A program is one exactly if its image is a 64-bit ELF file with a loadable
/// segment.
pub proof fn law_programs_have_segments(b: Seq<u8>)
    ensures
        user::has_segments(b) <==> b.len() >= 64 && b[0] == 0x7f && b[1] == 0x45 && b[2] == 0x4c
            && b[3] == 0x46 && b[4] == 2 && exists|i: int| load_header(b, i),
{
    if b.len() >= 64 {
        if exists|i: int| load_header(b, i) {
            let i = choose|i: int| load_header(b, i);
            lemma_header_is_loaded(b, 0, i);
        }
        if user::segs_from(b, 0).len() > 0 {
            lemma_segment_has_header(b, 0, 0);
        }
    }
}

/// The byte at `from` in the file is copied to the address `to`.
pub open spec fn copied(p: SegmentPlan, from: int, to: int) -> bool {
    p.copy matches Ok(Some(c)) && c.from <= from < c.from + c.len && to - c.to == from - c.from
}

/// The byte at the address `at` is cleared.
pub open spec fn cleared(p: SegmentPlan, at: int) -> bool {
    p.clear matches Some(c) && c.at <= at < c.at + c.len
}

/// The address lies in the pages of the plan.
pub open spec fn backed(p: SegmentPlan, at: int) -> bool {
    p.first <= at < p.first + p.pages * 4096
}

/// How a segment comes into memory, byte by byte: the byte `k` of its image
/// goes to `vaddr + k`, as far as the file has it, and what the segment has
/// beyond its image is cleared; nothing else is written, except where the image
/// is larger than the segment. The pages hold all of it, start at page
/// boundaries and are no more than it needs. They are for users, writable for
/// now, and executable exactly if the segment is.
pub proof fn law_segment_image(seg: Seg, size: int, k: int)
    requires
        user::loadable(seg),
        seg.vaddr != 0,
        seg.memsz != 0,
        0 <= size <= u64::MAX,
    ensures
        ({
            let p = user::plan(seg, size);
            &&& p.copy is Err <==> seg.filesz > 0 && seg.offset > size
            &&& 0 <= k < seg.filesz && seg.offset + k < size ==> copied(
                p,
                seg.offset + k,
                seg.vaddr + k,
            )
            &&& copied(p, seg.offset + k, seg.vaddr + k) ==> 0 <= k < seg.filesz && seg.offset + k
                < size
            &&& seg.filesz <= k < seg.memsz ==> cleared(p, seg.vaddr + k)
            &&& cleared(p, seg.vaddr + k) ==> seg.filesz <= k < seg.memsz
            &&& 0 <= k < seg.memsz ==> backed(p, seg.vaddr + k)
            &&& p.first % 4096 == 0
            &&& p.pages > 0
            &&& p.first + 4096 > seg.vaddr
            &&& p.first + (p.pages - 1) * 4096 < seg.vaddr + seg.memsz
            &&& p.flags.writable && p.flags.user
            &&& p.flags.no_execute <==> !seg.executable
        }),
{
}

/// Exactly the pages of pure text lose the right to write, all of them, and
/// nothing but that right.
pub proof fn law_text_is_tightened(seg: Seg, size: int)
    ensures
        user::tightened(seg) is Some <==> seg.vaddr != 0 && seg.memsz != 0 && seg.executable
            && !seg.writable,
        user::tightened(seg) matches Some(t) ==> {
            let p = user::plan(seg, size);
            &&& t.first == p.first
            &&& t.pages == p.pages
            &&& !t.flags.writable && t.flags.user && !t.flags.no_execute
        },
{
}

/// A segment can be loaded exactly if it takes up no memory or lies, as a
/// whole, in the lower or in the upper half of the address space.
pub proof fn law_what_can_be_loaded(seg: Seg)
    ensures
        user::loadable(seg) <==> seg.vaddr == 0 || seg.memsz == 0 || seg.vaddr + seg.memsz
            <= 0x8000_0000_0000 || (seg.vaddr >= 0xFFFF_8000_0000_0000 && seg.vaddr + seg.memsz
            <= 0xFFFF_FFFF_FFFF_FFFF),
{
}

// ---------------------------------------------------------------------------
// Relocations
// ---------------------------------------------------------------------------

/// The eight bytes at the address lie in a segment that takes up memory.
pub open spec fn in_memory(segs: Seq<Seg>, at: int) -> bool {
    exists|k: int| 0 <= k < segs.len() && spans(#[trigger] segs[k], at)
}

/// The eight bytes at the address lie in the segment, which takes up memory.
pub open spec fn spans(s: Seg, at: int) -> bool {
    s.vaddr > 0 && s.memsz > 0 && s.vaddr <= at && at + 8 <= s.vaddr + s.memsz
}

/// The relocation entry at `pos` is a relative one (type 8) whose slot lies in
/// a segment.
pub open spec fn relocates(b: Seq<u8>, segs: Seq<Seg>, pos: int) -> bool {
    four_bytes(b, pos + 8) == 8 && in_memory(segs, eight_bytes(b, pos))
}

/// The patch writes the addend of the relocation entry at `pos`, all eight
/// bytes of it, to the slot of the entry.
pub open spec fn writes_addend(b: Seq<u8>, p: Patch, pos: int) -> bool {
    p.at == eight_bytes(b, pos) && p.value == eight_bytes(b, pos + 16)
}

proof fn lemma_relocates(b: Seq<u8>, segs: Seq<Seg>, pos: int)
    requires
        0 <= pos,
        pos + 24 <= b.len(),
    ensures
        user::patches_at(b, segs, pos) <==> relocates(b, segs, pos),
        writes_addend(b, user::patch_at(b, pos), pos),
{
    lemma_fields(b, pos);
    lemma_fields(b, pos + 8);
    lemma_fields(b, pos + 16);
    let slot = bytes::field(b, pos, 8) as u64;
    let info = eight_bytes(b, pos + 8);
    let high = b[pos + 12] + 0x100 * b[pos + 13] + 0x1_0000 * b[pos + 14] + 0x100_0000 * b[pos + 15];
    assert(info == four_bytes(b, pos + 8) + 0x1_0000_0000 * high) by {
        reveal(bytes::eight_bytes);
    }
    assert(info % 0x1_0000_0000 == four_bytes(b, pos + 8));
    if user::in_segment(segs, slot) {
        let k = choose|k: int|
            0 <= k < segs.len() && user::installed(#[trigger] segs[k]) && segs[k].vaddr <= slot
                && slot + 8 <= segs[k].vaddr + segs[k].memsz;
        assert(spans(segs[k], slot as int));
    }
    if in_memory(segs, slot as int) {
        let k = choose|k: int| 0 <= k < segs.len() && spans(#[trigger] segs[k], slot as int);
        assert(user::installed(segs[k]));
    }
}

/// What a relocation entry contributes: a relative one in a segment the patch
/// of its slot with its whole addend, any other nothing. The patches come in
/// the order of the entries, which are 24 bytes each.
pub proof fn law_relocation_entry(b: Seq<u8>, segs: Seq<Seg>, pos: int, end: int)
    requires
        0 <= pos,
        end <= b.len(),
    ensures
        ({
            let here = user::rela_patches(b, segs, pos, end);
            let rest = user::rela_patches(b, segs, pos + 24, end);
            &&& pos + 24 > end ==> here.len() == 0
            &&& pos + 24 <= end && !relocates(b, segs, pos) ==> here == rest
            &&& pos + 24 <= end && relocates(b, segs, pos) ==> here.len() == rest.len() + 1
                && writes_addend(b, here[0], pos) && here.drop_first() == rest
        }),
{
    if pos + 24 <= end {
        lemma_relocates(b, segs, pos);
        let rest = user::rela_patches(b, segs, pos + 24, end);
        assert((seq![user::patch_at(b, pos)] + rest).drop_first() =~= rest);
    }
}

/// Where the section header `i` starts.
pub open spec fn section_header(b: Seq<u8>, i: int) -> int {
    eight_bytes(b, 40) + i * two_bytes(b, 58)
}

/// The file has a section header `i`.
pub open spec fn has_section(b: Seq<u8>, i: int) -> bool {
    0 <= i < two_bytes(b, 60) && section_header(b, i) + 64 <= b.len()
}

/// The section whose header is at `off` holds relocations (type 4), and the
/// entry at `pos` is one of them that is in the file.
pub open spec fn entry_of(b: Seq<u8>, off: int, pos: int) -> bool {
    let start = eight_bytes(b, off + 24);
    &&& four_bytes(b, off + 4) == 4
    &&& start <= pos
    &&& (pos - start) % 24 == 0
    &&& pos + 24 <= start + eight_bytes(b, off + 32)
    &&& pos + 24 <= b.len()
}

/// The patch of some relocation entry is among them.
pub open spec fn has_patch(b: Seq<u8>, ps: Seq<Patch>, pos: int) -> bool {
    exists|k: int| 0 <= k < ps.len() && #[trigger] writes_addend(b, ps[k], pos)
}

/// The entry at `pos` is one of those in `start .. end`.
pub open spec fn in_range(start: int, end: int, pos: int) -> bool {
    start <= pos && (pos - start) % 24 == 0 && pos + 24 <= end
}

/// The patch writes a relocation entry in `start .. end`.
pub open spec fn of_range(b: Seq<u8>, segs: Seq<Seg>, start: int, end: int, p: Patch) -> bool {
    exists|pos: int| #[trigger]
        in_range(start, end, pos) && relocates(b, segs, pos) && writes_addend(b, p, pos)
}

proof fn lemma_entry_is_written(b: Seq<u8>, segs: Seq<Seg>, start: int, end: int, pos: int)
    requires
        0 <= start,
        end <= b.len(),
        in_range(start, end, pos),
        relocates(b, segs, pos),
    ensures
        has_patch(b, user::rela_patches(b, segs, start, end), pos),
    decreases pos - start,
{
    let here = user::rela_patches(b, segs, start, end);
    let rest = user::rela_patches(b, segs, start + 24, end);
    law_relocation_entry(b, segs, start, end);
    if pos == start {
        assert(writes_addend(b, here[0], pos));
    } else {
        lemma_entry_is_written(b, segs, start + 24, end, pos);
        let k = choose|k: int| 0 <= k < rest.len() && #[trigger] writes_addend(b, rest[k], pos);
        if relocates(b, segs, start) {
            assert(here.drop_first()[k] == here[k + 1]);
            assert(writes_addend(b, here[k + 1], pos));
        } else {
            assert(writes_addend(b, here[k], pos));
        }
    }
}

proof fn lemma_patch_has_entry(b: Seq<u8>, segs: Seq<Seg>, start: int, end: int, k: int)
    requires
        0 <= start,
        end <= b.len(),
        0 <= k < user::rela_patches(b, segs, start, end).len(),
    ensures
        of_range(b, segs, start, end, user::rela_patches(b, segs, start, end)[k]),
    decreases end - start,
{
    let here = user::rela_patches(b, segs, start, end);
    let rest = user::rela_patches(b, segs, start + 24, end);
    law_relocation_entry(b, segs, start, end);
    if relocates(b, segs, start) && k == 0 {
        assert(in_range(start, end, start));
    } else {
        let m = if relocates(b, segs, start) {
            k - 1
        } else {
            k
        };
        if relocates(b, segs, start) {
            assert(here.drop_first()[k - 1] == here[k]);
        }
        assert(rest[m] == here[k]);
        lemma_patch_has_entry(b, segs, start + 24, end, m);
        let pos = choose|pos: int| #[trigger]
            in_range(start + 24, end, pos) && relocates(b, segs, pos) && writes_addend(
                b,
                rest[m],
                pos,
            );
        assert(in_range(start, end, pos));
    }
}

/// The patch writes some relocation entry of a section from `i` on.
pub open spec fn is_relocation(b: Seq<u8>, segs: Seq<Seg>, i: int, p: Patch) -> bool {
    exists|j: int, pos: int|
        #![trigger has_section(b, j), relocates(b, segs, pos)]
        i <= j && has_section(b, j) && entry_of(b, section_header(b, j), pos) && relocates(
            b,
            segs,
            pos,
        ) && writes_addend(b, p, pos)
}

proof fn lemma_section(b: Seq<u8>, segs: Seq<Seg>, i: int)
    requires
        b.len() >= 64,
        has_section(b, i),
    ensures
        user::section_at(b, i) == section_header(b, i),
        forall|pos: int|
            #![trigger relocates(b, segs, pos)]
            entry_of(b, section_header(b, i), pos) && relocates(b, segs, pos) ==> has_patch(
                b,
                user::section_patches(b, segs, section_header(b, i)),
                pos,
            ),
        forall|k: int|
            0 <= k < user::section_patches(b, segs, section_header(b, i)).len() ==> is_relocation(
                b,
                segs,
                i,
                #[trigger] user::section_patches(b, segs, section_header(b, i))[k],
            ),
{
    lemma_fields(b, 40);
    lemma_fields(b, 58);
    let off = section_header(b, i);
    assert(0 <= i * two_bytes(b, 58)) by (nonlinear_arith)
        requires
            0 <= i,
            0 <= two_bytes(b, 58),
    ;
    lemma_fields(b, off + 4);
    lemma_fields(b, off + 24);
    lemma_fields(b, off + 32);
    if four_bytes(b, off + 4) == 4 {
        let start = eight_bytes(b, off + 24);
        let last = start + eight_bytes(b, off + 32);
        let end = if last <= b.len() {
            last
        } else {
            b.len() as int
        };
        let ps = user::section_patches(b, segs, off);
        assert(ps == user::rela_patches(b, segs, start, end));
        assert forall|pos: int|
            #![trigger relocates(b, segs, pos)]
            entry_of(b, off, pos) && relocates(b, segs, pos) implies has_patch(b, ps, pos) by {
            lemma_entry_is_written(b, segs, start, end, pos);
        }
        assert forall|k: int| 0 <= k < ps.len() implies is_relocation(
            b,
            segs,
            i,
            #[trigger] ps[k],
        ) by {
            lemma_patch_has_entry(b, segs, start, end, k);
            let pos = choose|pos: int| #[trigger]
                in_range(start, end, pos) && relocates(b, segs, pos) && writes_addend(
                    b,
                    ps[k],
                    pos,
                );
            assert(relocates(b, segs, pos));
            assert(has_section(b, i));
        }
    }
}

proof fn lemma_sections_from(b: Seq<u8>, segs: Seq<Seg>, i: int)
    requires
        b.len() >= 64,
        0 <= i,
    ensures
        forall|j: int, pos: int|
            #![trigger has_section(b, j), relocates(b, segs, pos)]
            i <= j && has_section(b, j) && entry_of(b, section_header(b, j), pos) && relocates(
                b,
                segs,
                pos,
            ) ==> has_patch(b, user::patches_from(b, segs, i), pos),
        forall|k: int|
            0 <= k < user::patches_from(b, segs, i).len() ==> is_relocation(
                b,
                segs,
                i,
                #[trigger] user::patches_from(b, segs, i)[k],
            ),
    decreases two_bytes(b, 60) - i,
{
    lemma_fields(b, 40);
    lemma_fields(b, 58);
    lemma_fields(b, 60);
    assert(user::section_at(b, i) == section_header(b, i));
    let here = user::patches_from(b, segs, i);
    if has_section(b, i) {
        lemma_section(b, segs, i);
        lemma_sections_from(b, segs, i + 1);
        let first = user::section_patches(b, segs, section_header(b, i));
        let rest = user::patches_from(b, segs, i + 1);
        assert(here == first + rest);
        assert forall|j: int, pos: int|
            #![trigger has_section(b, j), relocates(b, segs, pos)]
            i <= j && has_section(b, j) && entry_of(b, section_header(b, j), pos) && relocates(
                b,
                segs,
                pos,
            ) implies has_patch(b, here, pos) by {
            if j == i {
                let k = choose|k: int|
                    0 <= k < first.len() && #[trigger] writes_addend(b, first[k], pos);
                assert(writes_addend(b, here[k], pos));
            } else {
                let k = choose|k: int|
                    0 <= k < rest.len() && #[trigger] writes_addend(b, rest[k], pos);
                assert(here[first.len() + k] == rest[k]);
                assert(writes_addend(b, here[first.len() + k], pos));
            }
        }
        assert forall|k: int| 0 <= k < here.len() implies is_relocation(
            b,
            segs,
            i,
            #[trigger] here[k],
        ) by {
            if k < first.len() {
                assert(here[k] == first[k]);
            } else {
                assert(here[k] == rest[k - first.len()]);
                assert(is_relocation(b, segs, i + 1, rest[k - first.len()]));
            }
        }
    } else {
        assert forall|j: int| i <= j implies !(#[trigger] has_section(b, j)) by {
            assert(section_header(b, i) <= section_header(b, j)) by (nonlinear_arith)
                requires
                    i <= j,
                    0 <= two_bytes(b, 58),
                    section_header(b, i) == eight_bytes(b, 40) + i * two_bytes(b, 58),
                    section_header(b, j) == eight_bytes(b, 40) + j * two_bytes(b, 58),
            ;
        }
        assert(here.len() == 0);
    }
}

/// The patches of a file are its relocations: every relative relocation entry
/// in a relocation section whose slot lies in a segment is written, its whole
/// eight-byte addend to its slot, and nothing is written that is none.
pub proof fn law_patches_are_the_relocations(b: Seq<u8>, segs: Seq<Seg>)
    requires
        b.len() >= 64,
        eight_bytes(b, 40) != 0,
        two_bytes(b, 58) != 0,
    ensures
        forall|j: int, pos: int|
            #![trigger has_section(b, j), relocates(b, segs, pos)]
            has_section(b, j) && entry_of(b, section_header(b, j), pos) && relocates(b, segs, pos)
                ==> has_patch(b, user::patches(b, segs), pos),
        forall|k: int|
            0 <= k < user::patches(b, segs).len() ==> is_relocation(
                b,
                segs,
                0,
                #[trigger] user::patches(b, segs)[k],
            ),
{
    lemma_fields(b, 40);
    lemma_fields(b, 58);
    lemma_sections_from(b, segs, 0);
}

/// The relocation sections are applied in the order of their headers; a file
/// without section headers has no relocations.
pub proof fn law_sections_in_order(b: Seq<u8>, segs: Seq<Seg>, i: int)
    requires
        b.len() >= 64,
        0 <= i,
    ensures
        eight_bytes(b, 40) == 0 || two_bytes(b, 58) == 0 ==> user::patches(b, segs).len() == 0,
        eight_bytes(b, 40) != 0 && two_bytes(b, 58) != 0 ==> user::patches(b, segs)
            == user::patches_from(b, segs, 0),
        !has_section(b, i) ==> user::patches_from(b, segs, i).len() == 0,
        has_section(b, i) ==> ({
            let off = section_header(b, i);
            let start = eight_bytes(b, off + 24);
            let last = start + eight_bytes(b, off + 32);
            let end = if last <= b.len() {
                last
            } else {
                b.len() as int
            };
            user::patches_from(b, segs, i) == (if four_bytes(b, off + 4) == 4 {
                user::rela_patches(b, segs, start, end)
            } else {
                Seq::empty()
            }) + user::patches_from(b, segs, i + 1)
        }),
{
    lemma_fields(b, 40);
    lemma_fields(b, 58);
    lemma_fields(b, 60);
    if has_section(b, i) {
        lemma_section(b, segs, i);
        let off = section_header(b, i);
        assert(0 <= i * two_bytes(b, 58)) by (nonlinear_arith)
            requires
                0 <= i,
                0 <= two_bytes(b, 58),
        ;
        lemma_fields(b, off + 4);
        lemma_fields(b, off + 24);
        lemma_fields(b, off + 32);
    }
}

/// The first program with a name is the one that is found, and every name of a
/// program is.
pub proof fn law_a_name_finds_its_program(programs: Seq<user::Program>, name: Seq<char>, i: int)
    requires
        0 <= i < programs.len(),
        programs[i].name@ == name,
        forall|j: int| 0 <= j < i ==> (#[trigger] programs[j]).name@ != name,
    ensures
        forall|k: int| #[trigger]
            user::named(programs, vstd::utf8::encode_utf8(name), k) <==> k == i,
{
    let b = vstd::utf8::encode_utf8(name);
    assert forall|j: int| 0 <= j < i implies b != vstd::utf8::encode_utf8(
        (#[trigger] programs[j]).name@,
    ) by {
        vstd::utf8::encode_utf8_decode_utf8(name);
        vstd::utf8::encode_utf8_decode_utf8(programs[j].name@);
    }
    assert(user::named(programs, b, i));
    assert forall|k: int| #[trigger] user::named(programs, b, k) implies k == i by {
        if i < k {
            assert(b != vstd::utf8::encode_utf8(programs[i].name@));
        }
    }
}

/// A program starts at the address in the eight bytes 24 to 31 of its image.
pub proof fn law_entry_point(b: Seq<u8>)
    requires
        b.len() >= 64,
    ensures
        user::entry_point(b) == eight_bytes(b, 24),
{
    lemma_fields(b, 24);
}

/// The first task of the realtime demo has priority 3, weight 1, a period of 200
/// ticks and a budget of 20; the second a period of 100 and a budget of 15. A
/// task whose program could not be loaded is not there.
pub proof fn law_realtime_demo(
    v: TasksView,
    first: Result<Loaded, ()>,
    second: Result<Loaded, ()>,
    a: u64,
    b: u64,
)
    requires
        v.wf(),
        v.has_room(),
        a >= 176,
        b >= 176,
    ensures
        ({
            let (w, x, y) = user::demo_spawned(v, first, second, a, b);
            &&& x is Ok <==> first is Ok
            &&& y is Ok <==> second is Ok
            &&& first is Err && second is Err ==> w == v
            &&& first is Ok && second is Err ==> {
                let r = w.sched->0.rec(v.next_id);
                &&& x->Ok_0.id == v.next_id && w.sched->0.known(v.next_id)
                &&& r.priority == 3 && r.weight == 1
                &&& r.deadline == Some(Deadline { period: 200, budget: 20 })
            }
            &&& first is Err && second is Ok ==> {
                let r = w.sched->0.rec(v.next_id);
                &&& y->Ok_0.id == v.next_id && w.sched->0.known(v.next_id)
                &&& r.priority == 3 && r.weight == 1
                &&& r.deadline == Some(Deadline { period: 100, budget: 15 })
            }
        }),
{
    task::effects::law_spawned_user_task(v, first, 3, 1, Some(user::demo_deadline(0)), 0, a);
    if first is Err {
        task::effects::law_spawned_user_task(v, second, 3, 1, Some(user::demo_deadline(1)), 0, b);
    }
}

/// What is loaded for a name: the first program that has it, if its image has a
/// segment, with all its segments and relocations, from its entry point on and
/// with the stack below 0x11_0040_0000; where there is no such program, nothing.
pub proof fn law_load_plan(
    programs: Seq<user::Program>,
    name: Seq<char>,
    r: Result<user::LoadPlan<'_>, ()>,
    i: int,
)
    requires
        user::load_planned(programs, vstd::utf8::encode_utf8(name), r),
        0 <= i < programs.len(),
        programs[i].name@ == name,
        forall|j: int| 0 <= j < i ==> (#[trigger] programs[j]).name@ != name,
    ensures
        ({
            let b = programs[i].image@;
            &&& r is Ok <==> user::has_segments(b)
            &&& r matches Ok(p) ==> {
                &&& p.program.name@ == name
                &&& p.program.entry == eight_bytes(b, 24)
                &&& p.program.stack_top == 0x11_0040_0000
                &&& p.image@ == b
                &&& p.segs@ == user::segs_from(b, 0)
                &&& p.patches@ == user::patches(b, user::segs_from(b, 0))
            }
        }),
{
    law_a_name_finds_its_program(programs, name, i);
    assert(user::named(programs, vstd::utf8::encode_utf8(name), i));
    if r is Ok {
        law_entry_point(programs[i].image@);
    }
}

/// A name that no program has is not loaded.
pub proof fn law_unknown_names_are_not_loaded(
    programs: Seq<user::Program>,
    name: Seq<u8>,
    r: Result<user::LoadPlan<'_>, ()>,
)
    requires
        user::load_planned(programs, name, r),
        forall|j: int|
            0 <= j < programs.len() ==> vstd::utf8::encode_utf8((#[trigger] programs[j]).name@)
                != name,
    ensures
        r is Err,
{
    if r is Ok {
        let i = choose|i: int| user::named(programs, name, i);
        assert(user::named(programs, name, i));
    }
}

/// The user stack is the four MiB below its top, writable and not executable,
/// for users.
pub proof fn law_user_stack()
    ensures
        ({
            let j = user::stack_job();
            &&& j.first + j.pages * 4096 == 0x11_0040_0000
            &&& j.pages * 4096 == 4 * 1024 * 1024
            &&& j.done == 0
            &&& j.flags.writable && j.flags.user && j.flags.no_execute
        }),
{
}

/// The line of a program in the self-test: its name, and the address at which it
/// starts, in hexadecimal digits from which that is read back; or that its image
/// is bad.
pub proof fn law_test_line(p: user::Program)
    ensures
        !user::has_segments(p.image@) ==> user::test_line(p) == "user: "@ + p.name@ + ": bad ELF"@,
        user::has_segments(p.image@) ==> ({
            let digits = text::hex(user::entry_point(p.image@), 1);
            &&& user::test_line(p) == "user: "@ + p.name@ + ": entry=0x"@ + digits + " OK"@
            &&& text::value(digits, 16) == eight_bytes(p.image@, 24)
        }),
{
    if user::has_segments(p.image@) {
        law_entry_point(p.image@);
        text::law_hex_reads_back(user::entry_point(p.image@), 1);
    }
}

} // verus!
