//! Little-endian numbers in byte strings.

use vstd::prelude::*;

verus! {

/// The number that the bytes `b` stand for, lowest byte first.
pub open spec fn le_value(b: Seq<u8>) -> nat
    decreases b.len(),
{
    if b.len() == 0 {
        0
    } else {
        b[0] as nat + 256 * le_value(b.drop_first())
    }
}

/// The lowest `k` bytes of `n`, lowest byte first.
pub open spec fn le_bytes(n: nat, k: nat) -> Seq<u8>
    decreases k,
{
    if k == 0 {
        Seq::empty()
    } else {
        seq![(n % 256) as u8] + le_bytes(n / 256, (k - 1) as nat)
    }
}

/// The number in the `k` bytes of `b` from `at` on.
pub open spec fn field(b: Seq<u8>, at: int, k: int) -> nat {
    le_value(b.subrange(at, at + k))
}

/// `k` bytes are written for a number of `k` bytes.
pub proof fn lemma_le_len(n: nat, k: nat)
    ensures
        le_bytes(n, k).len() == k,
    decreases k,
{
    if k > 0 {
        lemma_le_len(n / 256, (k - 1) as nat);
    }
}

/// 256 to the power `k`.
pub open spec fn range(k: nat) -> nat
    decreases k,
{
    if k == 0 {
        1
    } else {
        256 * range((k - 1) as nat)
    }
}

/// A number that fits in `k` bytes is read back from them.
pub proof fn law_le_round_trip(n: nat, k: nat)
    requires
        n < range(k),
    ensures
        le_value(le_bytes(n, k)) == n,
    decreases k,
{
    if k > 0 {
        let rest = le_bytes(n / 256, (k - 1) as nat);
        law_le_round_trip(n / 256, (k - 1) as nat);
        assert(le_bytes(n, k).drop_first() =~= rest);
    }
}

proof fn lemma_head(b: Seq<u8>, at: int, k: int)
    requires
        0 <= at,
        0 < k,
        at + k <= b.len(),
    ensures
        field(b, at, k) == b[at] as nat + 256 * field(b, at + 1, k - 1),
{
    assert(b.subrange(at, at + k).drop_first() =~= b.subrange(at + 1, at + k));
}

proof fn lemma_none(b: Seq<u8>, at: int)
    requires
        0 <= at <= b.len(),
    ensures
        field(b, at, 0) == 0,
{
}

/// The eight bytes from `at` on, each with its place value.
#[verifier::opaque]
pub open spec fn eight_bytes(b: Seq<u8>, at: int) -> int {
    b[at] + 0x100 * b[at + 1] + 0x1_0000 * b[at + 2] + 0x100_0000 * b[at + 3] + 0x1_0000_0000 * b[at
        + 4] + 0x100_0000_0000 * b[at + 5] + 0x1_0000_0000_0000 * b[at + 6] + 0x100_0000_0000_0000
        * b[at + 7]
}

/// A number in two, four or eight bytes is the sum of all its bytes, each with
/// its place value, the lowest first.
pub proof fn law_fields_are_little_endian(b: Seq<u8>, at: int)
    requires
        0 <= at,
    ensures
        at + 2 <= b.len() ==> field(b, at, 2) == b[at] + 0x100 * b[at + 1],
        at + 4 <= b.len() ==> field(b, at, 4) == b[at] + 0x100 * b[at + 1] + 0x1_0000 * b[at + 2]
            + 0x100_0000 * b[at + 3],
        at + 8 <= b.len() ==> field(b, at, 8) == eight_bytes(b, at),
{
    reveal(eight_bytes);
    if at + 2 <= b.len() {
        lemma_head(b, at, 2);
        lemma_head(b, at + 1, 1);
        lemma_none(b, at + 2);
    }
    if at + 4 <= b.len() {
        lemma_head(b, at, 4);
        lemma_head(b, at + 1, 3);
        lemma_head(b, at + 2, 2);
        lemma_head(b, at + 3, 1);
        lemma_none(b, at + 4);
    }
    if at + 8 <= b.len() {
        lemma_head(b, at, 8);
        lemma_head(b, at + 1, 7);
        lemma_head(b, at + 2, 6);
        lemma_head(b, at + 3, 5);
        lemma_head(b, at + 4, 4);
        lemma_head(b, at + 5, 3);
        lemma_head(b, at + 6, 2);
        lemma_head(b, at + 7, 1);
        lemma_none(b, at + 8);
    }
}

/// The eight bytes that are written for a number are those of which it is the
/// sum, each with its place value.
pub proof fn law_written_bytes_sum_up(n: u64)
    ensures
        le_bytes(n as nat, 8).len() == 8,
        eight_bytes(le_bytes(n as nat, 8), 0) == n,
{
    reveal_with_fuel(range, 9);
    let b = le_bytes(n as nat, 8);
    lemma_le_len(n as nat, 8);
    law_le_round_trip(n as nat, 8);
    law_fields_are_little_endian(b, 0);
    assert(b.subrange(0, 8) =~= b);
}

/// The two-byte number at `at`.
pub fn read_u16(b: &[u8], at: usize) -> (r: u16)
    requires
        at + 2 <= b@.len(),
    ensures
        r == field(b@, at as int, 2),
{
    proof {
        lemma_head(b@, at as int, 2);
        lemma_head(b@, at + 1, 1);
        lemma_none(b@, at + 2);
    }
    b[at] as u16 + 256 * (b[at + 1] as u16)
}

/// The four-byte number at `at`.
pub fn read_u32(b: &[u8], at: usize) -> (r: u32)
    requires
        at + 4 <= b@.len(),
    ensures
        r == field(b@, at as int, 4),
{
    proof {
        lemma_head(b@, at as int, 4);
        lemma_head(b@, at + 1, 3);
        lemma_head(b@, at + 2, 2);
        lemma_head(b@, at + 3, 1);
        lemma_none(b@, at + 4);
    }
    b[at] as u32 + 256 * (b[at + 1] as u32) + 65536 * (b[at + 2] as u32) + 16777216 * (b[at
        + 3] as u32)
}

/// The eight-byte number at `at`.
pub fn read_u64(b: &[u8], at: usize) -> (r: u64)
    requires
        at + 8 <= b@.len(),
    ensures
        r == field(b@, at as int, 8),
{
    proof {
        assert(b@.len() == b.len());
    }
    let low = read_u32(b, at);
    let high = read_u32(b, at + 4);
    proof {
        lemma_head(b@, at as int, 8);
        lemma_head(b@, at + 1, 7);
        lemma_head(b@, at + 2, 6);
        lemma_head(b@, at + 3, 5);
        lemma_head(b@, at as int, 4);
        lemma_head(b@, at + 1, 3);
        lemma_head(b@, at + 2, 2);
        lemma_head(b@, at + 3, 1);
        lemma_none(b@, at + 4);
    }
    low as u64 + 0x1_0000_0000 * (high as u64)
}

/// Appends the eight bytes of `n`.
pub fn push_u64(out: &mut Vec<u8>, n: u64)
    ensures
        final(out)@ == old(out)@ + le_bytes(n as nat, 8),
{
    let mut rest: u64 = n;
    proof {
        lemma_le_len(n as nat, 8);
        assert(out@ + le_bytes(n as nat, 8) =~= old(out)@ + le_bytes(n as nat, 8));
    }
    for i in 0..8
        invariant
            out@ + le_bytes(rest as nat, (8 - i) as nat) == old(out)@ + le_bytes(n as nat, 8),
    {
        let ghost before = out@;
        let ghost k = (8 - i) as nat;
        out.push((rest % 256) as u8);
        proof {
            assert(out@ + le_bytes((rest / 256) as nat, (k - 1) as nat) =~= before + le_bytes(
                rest as nat,
                k,
            ));
        }
        rest = rest / 256;
    }
    proof {
        assert(out@ + le_bytes(rest as nat, 0) =~= out@);
    }
}

} // verus!
