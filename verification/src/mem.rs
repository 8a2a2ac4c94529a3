//! Physical frame allocation.
//!
//! A **bitmap allocator**: one bit per 4 KiB physical frame, `1 = used`,
//! `0 = free`.
//!
//! * The free counter always equals the number of unset bits.
//! * Frames are never allocated twice, and a `free` of a free frame is an
//!   error.
//! * `alloc_range(n)` returns `n` physically contiguous frames.
//! * Allocations never leave the managed window (`base .. base + total`).

use vstd::prelude::*;
use crate::text;

pub mod laws;

verus! {

/// Index of a physical 4 KiB frame.
pub type FrameIdx = u64;

#[derive(Clone, Copy, PartialEq, Eq, Debug)]
pub enum AllocError {
    /// No contiguous run of `n` frames available.
    OutOfFrames(usize),
    /// Index outside the managed window.
    OutOfRange,
    /// Frame not currently allocated (double free).
    NotAllocated,
}

impl AllocError {
    /// What the error says.
    pub open spec fn text(self) -> Seq<char> {
        match self {
            AllocError::OutOfFrames(n) => "no run of "@ + text::decimal(n as nat)
                + " free frame(s)"@,
            AllocError::OutOfRange => "frame index out of range"@,
            AllocError::NotAllocated => "frame is not allocated"@,
        }
    }

    pub fn to_string(&self) -> (r: String)
        ensures
            r@ == self.text(),
    {
        match self {
            AllocError::OutOfFrames(n) => {
                let mut s = String::from_str("no run of ");
                text::push_decimal(&mut s, *n as u64);
                s.append(" free frame(s)");
                s
            },
            AllocError::OutOfRange => String::from_str("frame index out of range"),
            AllocError::NotAllocated => String::from_str("frame is not allocated"),
        }
    }
}

/// Bitmap frame allocator over a caller-provided bitmap.
///
/// Allocation policy: *next-fit with first-fit fallback*. A scan hint keeps
/// the end of the previous allocation as the next scan start, so sequential
/// allocations resolve in O(1) per frame. When no run is reachable from the
/// hint without straddling the end of the window, a linear first-fit scan
/// from the first frame runs instead, which finds a run if there is one.
pub struct BitmapAllocator<'a> {
    bits: &'a mut [u8],
    base: FrameIdx,
    total: usize,
    free: usize,
    hint: usize,
}

// ---------------------------------------------------------------------------
// Model
// ---------------------------------------------------------------------------

/// What an allocator is, without its bitmap.
#[verifier::ext_equal]
pub struct FrameView {
    /// Index of the first managed frame.
    pub base: FrameIdx,
    /// For each managed frame, whether it is in use.
    pub used: Seq<bool>,
    /// Where the next scan starts.
    pub hint: nat,
}

/// Bit `i` of a bitmap.
pub open spec fn bit_at(bits: Seq<u8>, i: int) -> bool {
    bits[i / 8] & (1u8 << ((i % 8) as u8)) != 0
}

/// The first `total` bits of a bitmap.
pub open spec fn window(bits: Seq<u8>, total: nat) -> Seq<bool> {
    Seq::new(total, |i: int| bit_at(bits, i))
}

/// Number of free frames.
pub open spec fn count_free(used: Seq<bool>) -> nat
    decreases used.len(),
{
    if used.len() == 0 {
        0
    } else {
        count_free(used.drop_last()) + if used.last() {
            0nat
        } else {
            1
        }
    }
}

/// The `n` frames from `s` on lie in the window and are free.
pub open spec fn free_run(used: Seq<bool>, s: int, n: int) -> bool {
    0 <= s && s + n <= used.len() && forall|j: int| s <= j < s + n ==> !#[trigger] used[j]
}

/// The `n` frames from `s` on lie in the window and are used.
pub open spec fn used_run(used: Seq<bool>, s: int, n: int) -> bool {
    0 <= s && s + n <= used.len() && forall|j: int| s <= j < s + n ==> #[trigger] used[j]
}

/// `s` is the lowest start of a free run of `n` frames inside `lo .. hi`.
pub open spec fn lowest_run(used: Seq<bool>, lo: int, hi: int, n: int, s: int) -> bool {
    &&& lo <= s && s + n <= hi
    &&& free_run(used, s, n)
    &&& forall|t: int| lo <= t < s ==> !#[trigger] free_run(used, t, n)
}

/// There is a free run of `n` frames inside `lo .. hi`.
pub open spec fn fits(used: Seq<bool>, lo: int, hi: int, n: int) -> bool {
    exists|t: int| lo <= t && t + n <= hi && #[trigger] free_run(used, t, n)
}

/// The frames with those of `s .. s + n` marked `val`.
pub open spec fn mark(used: Seq<bool>, s: int, n: int, val: bool) -> Seq<bool> {
    Seq::new(
        used.len(),
        |i: int|
            if s <= i < s + n {
                val
            } else {
                used[i]
            },
    )
}

impl FrameView {
    /// The `n` frames from the absolute index `idx` on lie in the window.
    pub open spec fn holds(self, idx: FrameIdx, n: usize) -> bool {
        self.base <= idx && idx + n <= self.base + self.used.len()
    }

    /// A run of `n` frames is placed at `s`: the lowest run from the hint on,
    /// else the lowest that ends before the hint, else the lowest of all.
    pub open spec fn placed(self, n: int, s: int) -> bool {
        let len = self.used.len() as int;
        let hint = self.hint as int;
        ||| lowest_run(self.used, hint, len, n, s)
        ||| !fits(self.used, hint, len, n) && lowest_run(self.used, 0, hint, n, s)
        ||| !fits(self.used, hint, len, n) && !fits(self.used, 0, hint, n) && lowest_run(
            self.used,
            0,
            len,
            n,
            s,
        )
    }

    /// The state after the `n` frames from `s` on were handed out.
    pub open spec fn taken(self, n: int, s: int) -> FrameView {
        FrameView {
            used: mark(self.used, s, n, true),
            hint: ((s + n) % (self.used.len() as int)) as nat,
            ..self
        }
    }

    /// The state with the frames of `s .. s + n` marked `val`.
    pub open spec fn marked(self, s: int, n: int, val: bool) -> FrameView {
        FrameView { used: mark(self.used, s, n, val), ..self }
    }

    /// Releasing the `n` frames from `idx` on leaves `w` and returns `r`.
    pub open spec fn released(self, w: FrameView, idx: FrameIdx, n: usize, r: Result<(), AllocError>)
        -> bool {
        match r {
            Ok(()) => self.holds(idx, n) && used_run(self.used, idx - self.base, n as int) && w
                == self.marked(idx - self.base, n as int, false),
            Err(e) => w == self && (if self.holds(idx, n) {
                e == AllocError::NotAllocated && !used_run(self.used, idx - self.base, n as int)
            } else {
                e == AllocError::OutOfRange
            }),
        }
    }

    /// Reserving the `n` frames from `idx` on leaves `w` and returns `r`.
    pub open spec fn reserved(self, w: FrameView, idx: FrameIdx, n: usize, r: Result<(), AllocError>)
        -> bool {
        match r {
            Ok(()) => self.holds(idx, n) && free_run(self.used, idx - self.base, n as int) && w
                == self.marked(idx - self.base, n as int, true),
            Err(e) => w == self && (if self.holds(idx, n) {
                e == AllocError::NotAllocated && !free_run(self.used, idx - self.base, n as int)
            } else {
                e == AllocError::OutOfRange
            }),
        }
    }
}

// ---------------------------------------------------------------------------
// Lemmas
// ---------------------------------------------------------------------------

proof fn lemma_bits(b: u8, k: u8, j: u8)
    by (bit_vector)
    requires
        k < 8,
        j < 8,
    ensures
        ((b | (1u8 << k)) & (1u8 << j) != 0) == (j == k || b & (1u8 << j) != 0),
        ((b & !(1u8 << k)) & (1u8 << j) != 0) == (j != k && b & (1u8 << j) != 0),
{
}

/// Writing one byte of the bitmap changes one frame.
proof fn lemma_set(bits: Seq<u8>, idx: int, val: bool, b: u8, total: nat)
    requires
        0 <= idx < total,
        total <= bits.len() * 8,
        val ==> b == bits[idx / 8] | (1u8 << ((idx % 8) as u8)),
        !val ==> b == bits[idx / 8] & !(1u8 << ((idx % 8) as u8)),
    ensures
        window(bits.update(idx / 8, b), total) == window(bits, total).update(idx, val),
{
    let new = bits.update(idx / 8, b);
    assert forall|i: int| 0 <= i < total implies bit_at(new, i) == (if i == idx {
        val
    } else {
        bit_at(bits, i)
    }) by {
        if i / 8 == idx / 8 {
            lemma_bits(bits[idx / 8], (idx % 8) as u8, (i % 8) as u8);
        }
    }
    assert(window(new, total) =~= window(bits, total).update(idx, val));
}

/// Changing one frame changes the count by it.
proof fn lemma_count_update(used: Seq<bool>, i: int, val: bool)
    requires
        0 <= i < used.len(),
    ensures
        count_free(used.update(i, val)) == count_free(used) + (if used[i] {
            1int
        } else {
            0
        }) - (if val {
            1int
        } else {
            0
        }),
    decreases used.len(),
{
    let new = used.update(i, val);
    if i == used.len() - 1 {
        assert(new.drop_last() =~= used.drop_last());
    } else {
        lemma_count_update(used.drop_last(), i, val);
        assert(new.drop_last() =~= used.drop_last().update(i, val));
    }
}

/// Marking a run is marking a shorter one and then its last frame.
proof fn lemma_mark_step(used: Seq<bool>, s: int, n: int, val: bool)
    requires
        0 <= s,
        0 <= n,
        s + n < used.len(),
    ensures
        mark(used, s, n + 1, val) == mark(used, s, n, val).update(s + n, val),
{
    assert(mark(used, s, n + 1, val) =~= mark(used, s, n, val).update(s + n, val));
}

/// Marking nothing changes nothing.
proof fn lemma_mark_none(used: Seq<bool>, s: int, val: bool)
    ensures
        mark(used, s, 0, val) == used,
{
    assert(mark(used, s, 0, val) =~= used);
}

/// Taking a free run, or giving back a used one, changes the count by its
/// length.
proof fn lemma_count_mark(used: Seq<bool>, s: int, n: int, val: bool)
    requires
        0 <= s,
        0 <= n,
        s + n <= used.len(),
        forall|j: int| s <= j < s + n ==> #[trigger] used[j] == !val,
    ensures
        count_free(mark(used, s, n, val)) == count_free(used) + (if val {
            -n
        } else {
            n
        }),
    decreases n,
{
    if n == 0 {
        lemma_mark_none(used, s, val);
    } else {
        lemma_count_mark(used, s, n - 1, val);
        lemma_mark_step(used, s, n - 1, val);
        lemma_count_update(mark(used, s, n - 1, val), s + n - 1, val);
    }
}

proof fn lemma_count_bound(used: Seq<bool>)
    ensures
        count_free(used) <= used.len(),
    decreases used.len(),
{
    if used.len() > 0 {
        lemma_count_bound(used.drop_last());
    }
}

/// A free run is at most as long as there are free frames.
proof fn lemma_run_bound(used: Seq<bool>, s: int, n: int)
    requires
        free_run(used, s, n),
        n >= 0,
    ensures
        n <= count_free(used),
{
    lemma_count_mark(used, s, n, true);
}

proof fn lemma_all_free(used: Seq<bool>)
    requires
        forall|i: int| 0 <= i < used.len() ==> !#[trigger] used[i],
    ensures
        count_free(used) == used.len(),
    decreases used.len(),
{
    if used.len() > 0 {
        lemma_all_free(used.drop_last());
    }
}

proof fn lemma_all_used(used: Seq<bool>)
    requires
        forall|i: int| 0 <= i < used.len() ==> #[trigger] used[i],
    ensures
        count_free(used) == 0,
    decreases used.len(),
{
    if used.len() > 0 {
        lemma_all_used(used.drop_last());
    }
}

// ---------------------------------------------------------------------------
// Code
// ---------------------------------------------------------------------------

impl<'a> BitmapAllocator<'a> {
    pub closed spec fn view(&self) -> FrameView {
        FrameView {
            base: self.base,
            used: window(self.bits@, self.total as nat),
            hint: self.hint as nat,
        }
    }

    /// The bitmap covers the window, and the window ends within the frame
    /// index type.
    pub closed spec fn sized(&self) -> bool {
        &&& self.total <= self.bits@.len() * 8
        &&& self.base + self.total <= u64::MAX
        &&& self.hint < self.total || self.hint == 0
    }

    /// What the allocator holds as its number of free frames.
    pub closed spec fn counter(&self) -> nat {
        self.free as nat
    }

    /// What holds of every allocator: it is sized, and its counter is the
    /// number of free frames.
    pub open spec fn wf(&self) -> bool {
        self.sized() && self.counter() == count_free(self@.used)
    }

    /// What a sized allocator guarantees of its model.
    pub proof fn lemma_sized(&self)
        requires
            self.sized(),
        ensures
            self@.base + self@.used.len() <= u64::MAX,
            self@.used.len() <= usize::MAX,
            self@.hint < self@.used.len() || self@.hint == 0,
            self@.hint <= self@.used.len(),
    {
    }

    /// An allocator of `total` frames from `base` on, all of them free: `bits`
    /// covers at least `total` bits, and those start 0.
    pub fn new(bits: &'a mut [u8], base: FrameIdx, total: usize) -> (r: Self)
        requires
            total <= old(bits)@.len() * 8,
            base + total <= u64::MAX,
            forall|i: int| 0 <= i < total ==> !#[trigger] bit_at(old(bits)@, i),
        ensures
            r.wf(),
            r@.base == base,
            r@.used == Seq::new(total as nat, |i: int| false),
            r@.hint == 0,
    {
        proof {
            let used = window(bits@, total as nat);
            assert forall|i: int| 0 <= i < used.len() implies !#[trigger] used[i] by {
                assert(!bit_at(bits@, i));
            }
            lemma_all_free(used);
            assert(used =~= Seq::new(total as nat, |i: int| false));
        }
        BitmapAllocator { bits, base, total, free: total, hint: 0 }
    }

    /// An allocator of `total` frames from `base` on, all of them in use: the
    /// bits of the window start 1. The owner frees the usable runs afterwards
    /// with [`BitmapAllocator::clear_range`].
    pub fn new_all_used(bits: &'a mut [u8], base: FrameIdx, total: usize) -> (r: Self)
        requires
            total <= old(bits)@.len() * 8,
            base + total <= u64::MAX,
            forall|i: int| 0 <= i < total ==> #[trigger] bit_at(old(bits)@, i),
        ensures
            r.wf(),
            r@.base == base,
            r@.used == Seq::new(total as nat, |i: int| true),
            r@.hint == 0,
    {
        proof {
            let used = window(bits@, total as nat);
            assert forall|i: int| 0 <= i < used.len() implies #[trigger] used[i] by {
                assert(bit_at(bits@, i));
            }
            lemma_all_used(used);
            assert(used =~= Seq::new(total as nat, |i: int| true));
        }
        BitmapAllocator { bits, base, total, free: 0, hint: 0 }
    }

    /// Index of the first managed frame.
    pub fn base(&self) -> (r: FrameIdx)
        ensures
            r == self@.base,
    {
        self.base
    }

    /// Number of managed frames.
    pub fn total(&self) -> (r: usize)
        ensures
            r == self@.used.len(),
    {
        self.total
    }

    /// Number of free frames.
    pub fn free_count(&self) -> (r: usize)
        requires
            self.wf(),
        ensures
            r == count_free(self@.used),
    {
        self.free
    }

    /// Number of frames in use.
    pub fn used_count(&self) -> (r: usize)
        requires
            self.wf(),
        ensures
            r == self@.used.len() - count_free(self@.used),
    {
        proof {
            lemma_count_bound(self@.used);
        }
        self.total - self.free
    }

    fn bit(&self, idx: usize) -> (r: bool)
        requires
            self.sized(),
            idx < self.total,
        ensures
            r == self@.used[idx as int],
    {
        self.bits[idx / 8] & (1u8 << ((idx % 8) as u8)) != 0
    }

    fn set_bit(&mut self, idx: usize, used: bool)
        requires
            old(self).sized(),
            idx < old(self).total,
        ensures
            final(self).sized(),
            final(self)@ == (FrameView {
                used: old(self)@.used.update(idx as int, used),
                ..old(self)@
            }),
            final(self).total == old(self).total,
            final(self).free == old(self).free,
            final(self).base == old(self).base,
            final(self).hint == old(self).hint,
    {
        let mask = 1u8 << ((idx % 8) as u8);
        let b = if used {
            self.bits[idx / 8] | mask
        } else {
            self.bits[idx / 8] & !mask
        };
        proof {
            lemma_set(self.bits@, idx as int, used, b, self.total as nat);
        }
        self.bits[idx / 8] = b;
    }

    /// Marks the frames of `s .. s + n`.
    fn fill(&mut self, s: usize, n: usize, val: bool)
        requires
            old(self).sized(),
            s + n <= old(self).total,
        ensures
            final(self).sized(),
            final(self)@ == old(self)@.marked(s as int, n as int, val),
            final(self).total == old(self).total,
            final(self).free == old(self).free,
            final(self).base == old(self).base,
            final(self).hint == old(self).hint,
    {
        proof {
            lemma_mark_none(self@.used, s as int, val);
        }
        for j in 0..n
            invariant
                self.sized(),
                s + n <= self.total,
                self.total == old(self).total,
                self.free == old(self).free,
                self.base == old(self).base,
                self.hint == old(self).hint,
                self.total == old(self)@.used.len(),
                self@ == old(self)@.marked(s as int, j as int, val),
        {
            self.set_bit(s + j, val);
            proof {
                lemma_mark_step(old(self)@.used, s as int, j as int, val);
            }
        }
    }

    /// The lowest free run of `n` frames inside `lo .. hi`.
    fn find_run(&self, lo: usize, hi: usize, n: usize) -> (r: Option<usize>)
        requires
            self.sized(),
            lo <= hi <= self.total,
            n > 0,
        ensures
            match r {
                Some(s) => lowest_run(self@.used, lo as int, hi as int, n as int, s as int),
                None => !fits(self@.used, lo as int, hi as int, n as int),
            },
    {
        let mut run: usize = 0;
        let ghost used = self@.used;
        for i in lo..hi
            invariant
                self.sized(),
                used == self@.used,
                lo <= hi <= self.total,
                self.total == used.len(),
                run < n,
                lo + run <= i,
                forall|j: int| i - run <= j < i ==> !#[trigger] used[j],
                run < i - lo ==> used[i - run - 1],
                forall|t: int| lo <= t && t + n <= i ==> !#[trigger] free_run(used, t, n as int),
        {
            if self.bit(i) {
                run = 0;
                proof {
                    assert forall|t: int| lo <= t && t + n <= i + 1 implies !#[trigger] free_run(
                        used,
                        t,
                        n as int,
                    ) by {
                        if t + n == i + 1 {
                            assert(used[i as int]);
                        }
                    }
                }
            } else {
                run += 1;
                if run == n {
                    let s = i + 1 - n;
                    proof {
                        assert(free_run(used, s as int, n as int));
                        assert forall|t: int| lo <= t < s implies !#[trigger] free_run(
                            used,
                            t,
                            n as int,
                        ) by {}
                    }
                    return Some(s);
                }
                proof {
                    assert forall|t: int| lo <= t && t + n <= i + 1 implies !#[trigger] free_run(
                        used,
                        t,
                        n as int,
                    ) by {
                        if t + n == i + 1 {
                            assert(used[i + 1 - run - 1]);
                        }
                    }
                }
            }
        }
        None
    }

    /// Allocates the first free run of `n` frames that a scan finds which goes
    /// from `start` to the end of the window and then from its beginning to
    /// `start`. No run straddles the end.
    fn scan_from(&mut self, start: usize, n: usize) -> (r: Option<FrameIdx>)
        requires
            old(self).wf(),
            start <= old(self).total,
            n > 0,
        ensures
            final(self).wf(),
            match r {
                Some(f) => {
                    let s = f - old(self)@.base;
                    let used = old(self)@.used;
                    &&& ({
                        ||| lowest_run(used, start as int, used.len() as int, n as int, s)
                        ||| !fits(used, start as int, used.len() as int, n as int) && lowest_run(
                            used,
                            0,
                            start as int,
                            n as int,
                            s,
                        )
                    })
                    &&& final(self)@ == old(self)@.taken(n as int, s)
                },
                None => {
                    &&& *final(self) == *old(self)
                    &&& !fits(old(self)@.used, start as int, old(self)@.used.len() as int, n as int)
                    &&& !fits(old(self)@.used, 0, start as int, n as int)
                },
            },
    {
        let found = match self.find_run(start, self.total, n) {
            Some(s) => Some(s),
            None => self.find_run(0, start, n),
        };
        match found {
            Some(s) => {
                proof {
                    assert(free_run(self@.used, s as int, n as int));
                    lemma_run_bound(self@.used, s as int, n as int);
                    lemma_count_mark(self@.used, s as int, n as int, true);
                }
                self.fill(s, n, true);
                self.free = self.free - n;
                self.hint = (s + n) % self.total;
                proof {
                    assert(self@ == old(self)@.taken(n as int, s as int));
                }
                Some(self.base + s as u64)
            },
            None => None,
        }
    }

    /// Allocates a single frame. `None` if exhausted.
    pub fn alloc_one(&mut self) -> (r: Option<FrameIdx>)
        requires
            old(self).wf(),
        ensures
            final(self).wf(),
            match r {
                Some(f) => old(self)@.placed(1, f - old(self)@.base) && final(self)@ == old(
                    self,
                )@.taken(1, f - old(self)@.base),
                None => *final(self) == *old(self) && count_free(old(self)@.used) == 0,
            },
    {
        let r = self.alloc_range(1);
        proof {
            if r is None && count_free(old(self)@.used) > 0 {
                laws::lemma_some_free(old(self)@.used);
            }
        }
        r
    }

    /// Allocates `n` contiguous frames: next fit from the scan hint, falling
    /// back to first fit. `None` if there is no such run.
    pub fn alloc_range(&mut self, n: usize) -> (r: Option<FrameIdx>)
        requires
            old(self).wf(),
        ensures
            final(self).wf(),
            match r {
                Some(f) => n > 0 && old(self)@.placed(n as int, f - old(self)@.base) && final(self)@
                    == old(self)@.taken(n as int, f - old(self)@.base),
                None => *final(self) == *old(self) && (n == 0 || !fits(
                    old(self)@.used,
                    0,
                    old(self)@.used.len() as int,
                    n as int,
                )),
            },
    {
        if n == 0 || n > self.free {
            proof {
                if n > 0 && fits(self@.used, 0, self@.used.len() as int, n as int) {
                    let t = choose|t: int|
                        0 <= t && t + n <= self@.used.len() && #[trigger] free_run(
                            self@.used,
                            t,
                            n as int,
                        );
                    lemma_run_bound(self@.used, t, n as int);
                }
            }
            return None;
        }
        match self.scan_from(self.hint, n) {
            Some(f) => Some(f),
            None => self.scan_from(0, n),
        }
    }

    /// Releases a single frame.
    ///
    /// # Errors
    ///
    /// [`AllocError::OutOfRange`] when `idx` lies outside the window,
    /// [`AllocError::NotAllocated`] when the frame is free.
    pub fn free(&mut self, idx: FrameIdx) -> (r: Result<(), AllocError>)
        requires
            old(self).wf(),
        ensures
            final(self).wf(),
            match r {
                Ok(()) => old(self)@.holds(idx, 1) && old(self)@.used[idx - old(self)@.base]
                    && final(self)@ == old(self)@.marked(idx - old(self)@.base, 1, false),
                Err(e) => *final(self) == *old(self) && (if old(self)@.holds(idx, 1) {
                    e == AllocError::NotAllocated && !old(self)@.used[idx - old(self)@.base]
                } else {
                    e == AllocError::OutOfRange
                }),
            },
    {
        let r = self.free_range(idx, 1);
        proof {
            if old(self)@.holds(idx, 1) {
                let s = idx - old(self)@.base;
                if old(self)@.used[s] {
                    assert(used_run(old(self)@.used, s, 1));
                }
            }
        }
        r
    }

    /// Whether the `n` frames from `idx` on lie in the window.
    fn in_window(&self, idx: FrameIdx, n: usize) -> (r: bool)
        requires
            self.sized(),
        ensures
            r == self@.holds(idx, n),
    {
        match idx.checked_add(n as u64) {
            Some(end) => idx >= self.base && end <= self.base + self.total as u64,
            None => false,
        }
    }

    /// Whether all frames of `s .. s + n` are in the state `val`.
    fn all_are(&self, s: usize, n: usize, val: bool) -> (r: bool)
        requires
            self.sized(),
            s + n <= self.total,
        ensures
            r == (forall|j: int| s <= j < s + n ==> #[trigger] self@.used[j] == val),
    {
        for j in 0..n
            invariant
                self.sized(),
                s + n <= self.total,
                forall|k: int| s <= k < s + j ==> #[trigger] self@.used[k] == val,
        {
            if self.bit(s + j) != val {
                assert(self@.used[s + j] != val);
                return false;
            }
        }
        true
    }

    /// Releases a contiguous run of `n` frames starting at `idx`.
    ///
    /// # Errors
    ///
    /// [`AllocError::OutOfRange`] when the run leaves the window,
    /// [`AllocError::NotAllocated`] when a frame of it is free.
    pub fn free_range(&mut self, idx: FrameIdx, n: usize) -> (r: Result<(), AllocError>)
        requires
            old(self).wf(),
        ensures
            final(self).wf(),
            r is Err ==> *final(self) == *old(self),
            old(self)@.released(final(self)@, idx, n, r),
    {
        if !self.in_window(idx, n) {
            return Err(AllocError::OutOfRange);
        }
        let start = (idx - self.base) as usize;
        if !self.all_are(start, n, true) {
            return Err(AllocError::NotAllocated);
        }
        proof {
            lemma_count_mark(self@.used, start as int, n as int, false);
            lemma_count_bound(mark(self@.used, start as int, n as int, false));
        }
        self.fill(start, n, false);
        self.free = self.free + n;
        Ok(())
    }

    /// Marks `n` frames starting at `idx` as used (boot reservation).
    ///
    /// # Errors
    ///
    /// [`AllocError::OutOfRange`] when the run leaves the window,
    /// [`AllocError::NotAllocated`] when a frame of it is already in use.
    pub fn reserve(&mut self, idx: FrameIdx, n: usize) -> (r: Result<(), AllocError>)
        requires
            old(self).wf(),
        ensures
            final(self).wf(),
            r is Err ==> *final(self) == *old(self),
            old(self)@.reserved(final(self)@, idx, n, r),
    {
        if !self.in_window(idx, n) {
            return Err(AllocError::OutOfRange);
        }
        let start = (idx - self.base) as usize;
        if !self.all_are(start, n, false) {
            return Err(AllocError::NotAllocated);
        }
        proof {
            lemma_count_mark(self@.used, start as int, n as int, true);
            lemma_run_bound(self@.used, start as int, n as int);
        }
        self.fill(start, n, true);
        self.free = self.free - n;
        Ok(())
    }

    /// Marks `n` frames starting at `idx` as free whatever they were (two
    /// regions of the firmware map may overlap). A run that leaves the window
    /// is ignored.
    pub fn clear_range(&mut self, idx: FrameIdx, n: usize)
        requires
            old(self).wf(),
        ensures
            final(self).wf(),
            if old(self)@.holds(idx, n) {
                final(self)@ == old(self)@.marked(idx - old(self)@.base, n as int, false)
            } else {
                *final(self) == *old(self)
            },
    {
        if !self.in_window(idx, n) {
            return;
        }
        let start = (idx - self.base) as usize;
        proof {
            lemma_mark_none(self@.used, start as int, false);
        }
        for j in 0..n
            invariant
                self.wf(),
                start + n <= self.total,
                self.total == old(self)@.used.len(),
                self@ == old(self)@.marked(start as int, j as int, false),
        {
            let was = self.bit(start + j);
            proof {
                lemma_count_update(self@.used, start + j, false);
                lemma_count_bound(self@.used.update(start + j, false));
                lemma_mark_step(old(self)@.used, start as int, j as int, false);
            }
            self.set_bit(start + j, false);
            if was {
                self.free = self.free + 1;
            }
        }
    }

    /// Slow invariant check used by tests: recounts the unset bits and
    /// compares with the counter.
    pub fn check_invariants(&self) -> (r: bool)
        requires
            self.sized(),
        ensures
            r == (self.counter() == count_free(self@.used)),
    {
        let mut unset: usize = 0;
        let ghost used = self@.used;
        for i in 0..self.total
            invariant
                self.sized(),
                used == self@.used,
                used.len() == self.total,
                unset == count_free(used.take(i as int)),
                unset <= i,
        {
            proof {
                assert(used.take(i + 1).drop_last() =~= used.take(i as int));
            }
            if !self.bit(i) {
                unset += 1;
            }
        }
        proof {
            assert(used.take(self.total as int) =~= used);
        }
        unset == self.free
    }
}

} // verus!
