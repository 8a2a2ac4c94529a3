//! Kernel heap: where it lies and how its pages are backed.

use vstd::prelude::*;
use crate::config::HEAP_SIZE;
use crate::kernel::memory::paging::{JobView, MapJob, PageFlags, PAGE_BYTES};
use crate::kernel::memory::{PagingErrorKind, HEAP_START};

verus! {

#[derive(Clone, Copy, PartialEq, Eq, Debug)]
pub enum HeapInitError {
    OutOfMemory,
    Mapping(PagingErrorKind),
}

/// Number of pages of the heap.
pub open spec fn heap_pages() -> int {
    (HEAP_SIZE + 4095) / 4096
}

/// The job for the pages of the heap.
pub open spec fn heap_job() -> JobView {
    JobView {
        first: HEAP_START,
        pages: heap_pages() as nat,
        done: 0,
        flags: PageFlags { writable: true, user: false, no_execute: true },
    }
}

/// The pages that back the heap: writable, not executable, not for users.
pub fn init() -> (r: MapJob)
    ensures
        r@ == heap_job(),
        heap_pages() * PAGE_BYTES >= HEAP_SIZE,
{
    let pages = (HEAP_SIZE as u64 + 4095) / 4096;
    MapJob::new(
        HEAP_START,
        pages,
        PageFlags { writable: true, user: false, no_execute: true },
    )
}

/// The sum of the numbers below `n`.
spec fn sum_below(n: nat) -> nat
    decreases n,
{
    if n == 0 {
        0
    } else {
        sum_below((n - 1) as nat) + (n - 1) as nat
    }
}

proof fn lemma_sum_below(n: nat)
    ensures
        2 * sum_below(n) + n == n * n,
    decreases n,
{
    if n == 0 {
        assert(n * n == 0) by (nonlinear_arith)
            requires
                n == 0,
        ;
    } else {
        let m = (n - 1) as nat;
        lemma_sum_below(m);
        assert(m * m + 2 * n == n * n + 1) by (nonlinear_arith)
            requires
                n == m + 1,
        ;
    }
}

/// Kernel self-test: allocates a growing list and verifies its data.
pub fn test_heap() -> (r: bool)
    ensures
        r,
{
    let mut v: Vec<u64> = Vec::new();
    for i in 0..128u64
        invariant
            v@.len() == i,
            forall|k: int| 0 <= k < i ==> #[trigger] v@[k] == k,
    {
        v.push(i);
    }
    let mut sum: u64 = 0;
    for i in 0..v.len()
        invariant
            v@.len() == 128,
            forall|k: int| 0 <= k < 128 ==> #[trigger] v@[k] == k,
            sum == sum_below(i as nat),
            sum <= 128 * i,
    {
        sum = sum + v[i];
    }
    proof {
        lemma_sum_below(128);
    }
    v.len() == 128 && sum == 8128
}

/// The heap has exactly the pages that its 64 MiB take.
pub proof fn law_heap_pages()
    ensures
        heap_pages() * 4096 == 64 * 1024 * 1024,
{
}

/// The heap starts at 2^46 and has 64 MiB of pages that are writable, not
/// executable, and for the kernel alone.
pub proof fn law_heap_job()
    ensures
        heap_job().first == 0x4000_0000_0000,
        heap_job().pages * 4096 == 64 * 1024 * 1024,
        heap_job().done == 0,
        heap_job().flags.writable && !heap_job().flags.user && heap_job().flags.no_execute,
{
}

} // verus!
