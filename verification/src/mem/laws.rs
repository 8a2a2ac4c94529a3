//! What holds of every frame allocator, whatever happens to it.

use vstd::prelude::*;
use crate::mem;
use crate::mem::FrameView;

verus! {

/// Where frames are free, one can be found.
pub proof fn lemma_some_free(used: Seq<bool>)
    requires
        mem::count_free(used) > 0,
    ensures
        mem::fits(used, 0, used.len() as int, 1),
    decreases used.len(),
{
    let last = used.len() - 1;
    if !used[last] {
        assert(mem::free_run(used, last, 1));
    } else {
        lemma_some_free(used.drop_last());
        let t = choose|t: int|
            0 <= t && t + 1 <= last && #[trigger] mem::free_run(used.drop_last(), t, 1);
        assert(!used.drop_last()[t]);
        assert(mem::free_run(used, t, 1));
    }
}

/// Where a run is placed is determined by the state and its length.
pub proof fn law_placement_is_determined(v: FrameView, n: int, s: int, t: int)
    requires
        v.placed(n, s),
        v.placed(n, t),
    ensures
        s == t,
{
    assert(mem::free_run(v.used, s, n));
    assert(mem::free_run(v.used, t, n));
}

/// Frames that are handed out lie in the window and were free, are in use
/// afterwards, and no other frame changes.
pub proof fn law_allocation_is_fresh(v: FrameView, n: int, s: int)
    requires
        n > 0,
        v.hint <= v.used.len(),
        v.placed(n, s),
    ensures
        0 <= s && s + n <= v.used.len(),
        forall|i: int|
            #![trigger v.used[i]]
            #![trigger v.taken(n, s).used[i]]
            0 <= i < v.used.len() ==> (if s <= i < s + n {
                !v.used[i] && v.taken(n, s).used[i]
            } else {
                v.taken(n, s).used[i] == v.used[i]
            }),
        mem::count_free(v.taken(n, s).used) == mem::count_free(v.used) - n,
        v.taken(n, s).hint < v.used.len(),
{
    assert(mem::free_run(v.used, s, n));
    mem::lemma_count_mark(v.used, s, n, true);
    assert(0 <= (s + n) % (v.used.len() as int) < v.used.len()) by (nonlinear_arith)
        requires
            v.used.len() > 0,
    ;
}

/// Two allocations without a release in between never share a frame.
pub proof fn law_allocations_are_disjoint(v: FrameView, n: int, s: int, m: int, t: int)
    requires
        n > 0,
        m > 0,
        v.hint <= v.used.len(),
        v.placed(n, s),
        v.taken(n, s).placed(m, t),
    ensures
        t + m <= s || s + n <= t,
{
    law_allocation_is_fresh(v, n, s);
    law_allocation_is_fresh(v.taken(n, s), m, t);
    if t < s + n && s < t + m {
        let i = if s <= t {
            t
        } else {
            s
        };
        assert(v.taken(n, s).used[i]);
    }
}

/// An allocation fails only when no run of that length is free.
pub proof fn law_allocation_succeeds_if_it_fits(v: FrameView, n: int)
    requires
        n > 0,
        v.hint <= v.used.len(),
        mem::fits(v.used, 0, v.used.len() as int, n),
    ensures
        exists|s: int| v.placed(n, s),
{
    let len = v.used.len() as int;
    let hint = v.hint as int;
    if mem::fits(v.used, hint, len, n) {
        let s = lemma_lowest(v.used, hint, len, n);
        assert(v.placed(n, s));
    } else if mem::fits(v.used, 0, hint, n) {
        let s = lemma_lowest(v.used, 0, hint, n);
        assert(v.placed(n, s));
    } else {
        let s = lemma_lowest(v.used, 0, len, n);
        assert(v.placed(n, s));
    }
}

proof fn lemma_lowest(used: Seq<bool>, lo: int, hi: int, n: int) -> (s: int)
    requires
        mem::fits(used, lo, hi, n),
    ensures
        mem::lowest_run(used, lo, hi, n, s),
{
    let t = choose|t: int| lo <= t && t + n <= hi && #[trigger] mem::free_run(used, t, n);
    lemma_lowest_up_to(used, lo, hi, n, t)
}

proof fn lemma_lowest_up_to(used: Seq<bool>, lo: int, hi: int, n: int, t: int) -> (s: int)
    requires
        lo <= t,
        t + n <= hi,
        mem::free_run(used, t, n),
    ensures
        mem::lowest_run(used, lo, hi, n, s),
    decreases t - lo,
{
    if exists|u: int| lo <= u < t && mem::free_run(used, u, n) {
        let u = choose|u: int| lo <= u < t && mem::free_run(used, u, n);
        lemma_lowest_up_to(used, lo, hi, n, u)
    } else {
        t
    }
}

/// Releasing an allocation gives back exactly the frames that it took.
pub proof fn law_free_undoes_alloc(v: FrameView, n: int, s: int)
    requires
        n > 0,
        v.hint <= v.used.len(),
        v.placed(n, s),
    ensures
        mem::used_run(v.taken(n, s).used, s, n),
        v.taken(n, s).marked(s, n, false).used == v.used,
{
    law_allocation_is_fresh(v, n, s);
    assert(v.taken(n, s).marked(s, n, false).used =~= v.used);
}

/// A run that was released cannot be released again before it is handed out.
pub proof fn law_double_free_is_refused(v: FrameView, s: int, n: int)
    requires
        n > 0,
        mem::used_run(v.used, s, n),
    ensures
        !mem::used_run(v.marked(s, n, false).used, s, n),
        mem::free_run(v.marked(s, n, false).used, s, n),
        mem::count_free(v.marked(s, n, false).used) == mem::count_free(v.used) + n,
{
    mem::lemma_count_mark(v.used, s, n, false);
    assert(!v.marked(s, n, false).used[s]);
}

/// A reservation takes frames out of every later allocation.
pub proof fn law_reserved_frames_stay(v: FrameView, s: int, n: int, m: int, t: int)
    requires
        n > 0,
        m > 0,
        v.hint <= v.used.len(),
        mem::free_run(v.used, s, n),
        v.marked(s, n, true).placed(m, t),
    ensures
        t + m <= s || s + n <= t,
{
    let w = v.marked(s, n, true);
    law_allocation_is_fresh(w, m, t);
    if t < s + n && s < t + m {
        let i = if s <= t {
            t
        } else {
            s
        };
        assert(w.used[i]);
    }
}

/// When every frame has been released, all frames of the window are free.
pub proof fn law_all_released_is_all_free(v: FrameView)
    requires
        forall|i: int| 0 <= i < v.used.len() ==> !#[trigger] v.used[i],
    ensures
        mem::count_free(v.used) == v.used.len(),
{
    mem::lemma_all_free(v.used);
}

/// The `n` frames from `s` on are all free.
pub open spec fn all_free(used: Seq<bool>, s: int, n: int) -> bool {
    forall|j: int| s <= j < s + n ==> !#[trigger] used[j]
}

/// Where a run of frames is placed: at the lowest place from the hint on where
/// as many frames are free; where there is none, at the lowest that ends before
/// the hint; and where there is none of those either, at the lowest of all. The
/// next search goes on right behind it, at the start again when it was the end
/// of the window.
pub proof fn law_next_fit(v: FrameView, n: int, s: int, t: int)
    requires
        n > 0,
        v.hint <= v.used.len(),
        v.placed(n, s),
    ensures
        0 <= s && s + n <= v.used.len(),
        all_free(v.used, s, n),
        v.hint <= t && t + n <= v.used.len() && all_free(v.used, t, n) ==> v.hint <= s <= t,
        s < v.hint && s + n > v.hint && 0 <= t && t + n <= v.used.len() && all_free(v.used, t, n)
            ==> s <= t && t + n > v.hint,
        s + n <= v.hint && 0 <= t && t + n <= v.used.len() && all_free(v.used, t, n) ==> s <= t,
        v.taken(n, s).hint == (if s + n == v.used.len() {
            0
        } else {
            s + n
        }),
        v.taken(n, s).base == v.base,
{
    assert(mem::free_run(v.used, s, n));
    if 0 <= t && t + n <= v.used.len() && all_free(v.used, t, n) {
        assert(mem::free_run(v.used, t, n));
    }
    let len = v.used.len() as int;
    if s + n == len {
        assert((s + n) % len == 0) by (nonlinear_arith)
            requires
                s + n == len,
                len > 0,
        ;
    } else {
        assert((s + n) % len == s + n) by (nonlinear_arith)
            requires
                0 <= s + n < len,
        ;
    }
}

/// Whether a run can be had is whether as many frames in a row are free, and
/// whether it can be released is whether it is all in use.
pub proof fn law_runs(v: FrameView, s: int, n: int)
    requires
        n >= 0,
    ensures
        mem::free_run(v.used, s, n) <==> 0 <= s && s + n <= v.used.len() && all_free(v.used, s, n),
        mem::used_run(v.used, s, n) <==> 0 <= s && s + n <= v.used.len() && forall|j: int|
            s <= j < s + n ==> #[trigger] v.used[j],
        mem::fits(v.used, 0, v.used.len() as int, n) <==> exists|t: int|
            0 <= t && t + n <= v.used.len() && #[trigger] all_free(v.used, t, n),
{
    let len = v.used.len() as int;
    if mem::fits(v.used, 0, len, n) {
        let t = choose|t: int| 0 <= t && t + n <= len && #[trigger] mem::free_run(v.used, t, n);
        assert(all_free(v.used, t, n));
    }
    if exists|t: int| 0 <= t && t + n <= len && #[trigger] all_free(v.used, t, n) {
        let t = choose|t: int| 0 <= t && t + n <= len && #[trigger] all_free(v.used, t, n);
        assert(mem::free_run(v.used, t, n));
    }
}

/// Marking a run changes exactly its frames; the window and the place where the
/// next search starts stay.
pub proof fn law_marking_is_exact(v: FrameView, s: int, n: int, val: bool)
    ensures
        ({
            let w = v.marked(s, n, val);
            &&& w.base == v.base && w.hint == v.hint
            &&& w.used.len() == v.used.len()
            &&& forall|i: int|
                0 <= i < v.used.len() ==> #[trigger] w.used[i] == (if s <= i < s + n {
                    val
                } else {
                    v.used[i]
                })
        }),
{
}

/// A frame index belongs to the window exactly if it is one of its frames.
pub proof fn law_window(v: FrameView, idx: u64, n: usize)
    ensures
        n > 0 ==> (v.holds(idx, n) <==> v.base <= idx && idx + n - 1 < v.base + v.used.len()),
{
}

/// The number of free frames is that of the places where one is: it grows by
/// one with each free frame and by none with one in use.
pub proof fn law_free_frames_are_counted(used: Seq<bool>, b: bool)
    ensures
        mem::count_free(Seq::empty()) == 0,
        mem::count_free(used.push(b)) == mem::count_free(used) + (if b {
            0int
        } else {
            1
        }),
{
    assert(used.push(b).drop_last() =~= used);
}

/// What the errors say.
pub proof fn law_error_texts(n: usize)
    ensures
        mem::AllocError::OutOfFrames(n).text() == "no run of "@ + crate::text::decimal(n as nat)
            + " free frame(s)"@,
        mem::AllocError::OutOfRange.text() == "frame index out of range"@,
        mem::AllocError::NotAllocated.text() == "frame is not allocated"@,
{
}

/// What a release does: it works exactly if all the frames lie in the window and
/// are in use, and then exactly these are free; otherwise nothing changes, and
/// the error says whether they are outside the window.
pub proof fn law_release_effect(
    v: FrameView,
    w: FrameView,
    idx: u64,
    n: usize,
    r: Result<(), mem::AllocError>,
)
    requires
        v.released(w, idx, n, r),
    ensures
        ({
            let s = idx - v.base;
            let inside = v.base <= idx && idx + n <= v.base + v.used.len();
            &&& !inside ==> r == Err::<(), _>(mem::AllocError::OutOfRange)
            &&& inside && all_free(v.used.map_values(|u: bool| !u), s, n as int) ==> r is Ok
            &&& inside && !all_free(v.used.map_values(|u: bool| !u), s, n as int) ==> r == Err::<
                (),
                _,
            >(mem::AllocError::NotAllocated)
            &&& r is Err ==> w == v
            &&& r is Ok ==> w.used.len() == v.used.len() && w.hint == v.hint && w.base == v.base
                && forall|i: int|
                0 <= i < v.used.len() ==> #[trigger] w.used[i] == (if s <= i < s + n {
                    false
                } else {
                    v.used[i]
                })
        }),
{
    let s = idx - v.base;
    let m = v.used.map_values(|u: bool| !u);
    if v.holds(idx, n) {
        if mem::used_run(v.used, s, n as int) {
            assert forall|j: int| s <= j < s + n implies !#[trigger] m[j] by {
                assert(v.used[j]);
            }
        }
        if all_free(m, s, n as int) {
            assert forall|j: int| s <= j < s + n implies #[trigger] v.used[j] by {
                assert(!m[j]);
            }
        }
    }
}

/// What a reservation does: it works exactly if all the frames lie in the window
/// and are free, and then exactly these are in use; otherwise nothing changes.
pub proof fn law_reserve_effect(
    v: FrameView,
    w: FrameView,
    idx: u64,
    n: usize,
    r: Result<(), mem::AllocError>,
)
    requires
        v.reserved(w, idx, n, r),
    ensures
        ({
            let s = idx - v.base;
            let inside = v.base <= idx && idx + n <= v.base + v.used.len();
            &&& !inside ==> r == Err::<(), _>(mem::AllocError::OutOfRange)
            &&& inside && all_free(v.used, s, n as int) ==> r is Ok
            &&& inside && !all_free(v.used, s, n as int) ==> r == Err::<(), _>(
                mem::AllocError::NotAllocated,
            )
            &&& r is Err ==> w == v
            &&& r is Ok ==> w.used.len() == v.used.len() && w.hint == v.hint && w.base == v.base
                && forall|i: int|
                0 <= i < v.used.len() ==> #[trigger] w.used[i] == (if s <= i < s + n {
                    true
                } else {
                    v.used[i]
                })
        }),
{
}

} // verus!
