//! What holds of every capability space.

use vstd::prelude::*;
use crate::caps;
use crate::caps::{CapRights, Capability};

verus! {

/// A derived capability points at the same object with the same kind, and has
/// no right that the source or the mask lacks.
pub proof fn law_derive_never_widens(cap: Capability, mask: CapRights)
    ensures
        cap.narrowed(mask).object == cap.object,
        cap.narrowed(mask).kind == cap.kind,
        caps::covers(cap.rights@, cap.narrowed(mask).rights@),
        caps::covers(mask@, cap.narrowed(mask).rights@),
{
    CapRights::lemma_mask(cap.rights@ & mask@);
    let (a, b) = (cap.rights@, mask@);
    assert(a & (a & b) == (a & b) && b & (a & b) == (a & b)) by (bit_vector);
}

/// A right that a chain of derivations gives was held at its start.
pub proof fn law_rights_are_inherited(a: u8, b: u8, c: u8)
    requires
        caps::covers(a, b),
        caps::covers(b, c),
    ensures
        caps::covers(a, c),
{
    assert(a & b == b && b & c == c ==> a & c == c) by (bit_vector);
}

/// Deriving with all rights keeps them, and deriving twice narrows no further.
pub proof fn law_derive_is_idempotent(cap: Capability, mask: CapRights)
    requires
        caps::covers(caps::ALL_BITS, cap.rights@),
    ensures
        cap.narrowed(CapRights::of(caps::ALL_BITS)) == cap,
        cap.narrowed(mask).narrowed(mask) == cap.narrowed(mask),
{
    broadcast use {CapRights::lemma_of, CapRights::lemma_mask};

    let (a, b) = (cap.rights@, mask@);
    assert(7u8 & a == a ==> a & 7u8 == a) by (bit_vector);
    assert((a & b) & b == a & b) by (bit_vector);
}

/// Rights made from three flags contain exactly the rights whose flag is set.
pub proof fn law_rights_are_their_flags(read: bool, write: bool, call: bool, m: u8)
    requires
        m == (if read {
            caps::READ_BIT as int
        } else {
            0
        }) + (if write {
            caps::WRITE_BIT as int
        } else {
            0
        }) + (if call {
            caps::CALL_BIT as int
        } else {
            0
        }),
    ensures
        caps::covers(m, caps::READ_BIT) == read,
        caps::covers(m, caps::WRITE_BIT) == write,
        caps::covers(m, caps::CALL_BIT) == call,
        caps::covers(caps::ALL_BITS, m),
{
    assert(m <= 7);
    assert(m & 1u8 == m % 2) by (bit_vector);
    assert(m & 2u8 == 2 * ((m / 2) % 2)) by (bit_vector);
    assert(m & 4u8 == 4 * ((m / 4) % 2)) by (bit_vector);
    assert(m <= 7 ==> 7u8 & m == m) by (bit_vector);
}

/// What was inserted is found in its slot, and every other slot is as it was.
pub proof fn law_insert_lookup(slots: Seq<Option<Capability>>, s: int, cap: Capability)
    requires
        caps::lowest_free(slots, s),
    ensures
        caps::held(slots.update(s, Some(cap)), s),
        slots.update(s, Some(cap))[s] == Some(cap),
        forall|j: int|
            0 <= j < slots.len() && j != s ==> slots.update(s, Some(cap))[j] == #[trigger] slots[j],
        caps::entries(slots.update(s, Some(cap))).len() == caps::entries(slots).len() + 1,
{
    lemma_count(slots, s, Some(cap));
}

/// After a revoke the slot is empty and reusable, every other slot is as it
/// was, and one capability fewer is held.
pub proof fn law_revoke_frees_slot(slots: Seq<Option<Capability>>, s: int)
    requires
        caps::held(slots, s),
    ensures
        !caps::held(slots.update(s, None), s),
        !caps::full(slots.update(s, None)),
        forall|j: int|
            0 <= j < slots.len() && j != s ==> slots.update(s, None)[j] == #[trigger] slots[j],
        caps::entries(slots.update(s, None)).len() == caps::entries(slots).len() - 1,
{
    assert(slots.update(s, None)[s] is None);
    lemma_count(slots, s, None);
}

/// Revoking what was just inserted restores the space.
pub proof fn law_revoke_undoes_insert(slots: Seq<Option<Capability>>, s: int, cap: Capability)
    requires
        caps::lowest_free(slots, s),
    ensures
        slots.update(s, Some(cap)).update(s, None) == slots,
{
    assert(slots.update(s, Some(cap)).update(s, None) =~= slots);
}

/// An insertion fails exactly when as many capabilities are held as there are
/// slots.
pub proof fn law_full_is_all_occupied(slots: Seq<Option<Capability>>)
    ensures
        caps::entries(slots).len() <= slots.len(),
        caps::full(slots) <==> caps::entries(slots).len() == slots.len(),
    decreases slots.len(),
{
    if slots.len() > 0 {
        let short = slots.drop_last();
        law_full_is_all_occupied(short);
        if caps::full(slots) {
            assert forall|i: int| 0 <= i < short.len() implies (#[trigger] short[i]) is Some by {
                assert(slots[i] is Some);
            }
            assert(slots[slots.len() - 1] is Some);
        }
        if caps::full(short) && slots.last() is Some {
            assert forall|i: int| 0 <= i < slots.len() implies (#[trigger] slots[i]) is Some by {
                if i < short.len() {
                    assert(short[i] is Some);
                }
            }
        }
    }
}

proof fn lemma_count(slots: Seq<Option<Capability>>, s: int, c: Option<Capability>)
    requires
        0 <= s < slots.len(),
    ensures
        caps::entries(slots.update(s, c)).len() == caps::entries(slots).len() + (if c is Some {
            1int
        } else {
            0
        }) - (if slots[s] is Some {
            1int
        } else {
            0
        }),
    decreases slots.len(),
{
    let new = slots.update(s, c);
    if s == slots.len() - 1 {
        assert(new.drop_last() =~= slots.drop_last());
    } else {
        lemma_count(slots.drop_last(), s, c);
        assert(new.drop_last() =~= slots.drop_last().update(s, c));
    }
}

/// A derived capability has exactly the rights that both the source and the
/// mask have.
pub proof fn law_derive_keeps_the_common_rights(cap: Capability, mask: CapRights, b: u8)
    ensures
        cap.narrowed(mask).rights@ & b == b <==> cap.rights@ & b == b && mask@ & b == b,
        cap.narrowed(mask).object == cap.object,
        cap.narrowed(mask).kind == cap.kind,
{
    CapRights::lemma_mask(cap.rights@ & mask@);
    let (a, m) = (cap.rights@, mask@);
    assert((a & m) & b == b <==> a & b == b && m & b == b) by (bit_vector);
}

/// Rights suffice exactly if each single one that is asked for is there.
pub proof fn law_rights_are_checked_one_by_one(a: u8, b: u8)
    requires
        b <= 7,
    ensures
        caps::covers(a, b) <==> (b % 2 == 1 ==> a % 2 == 1) && (b / 2 % 2 == 1 ==> a / 2 % 2 == 1)
            && (b / 4 == 1 ==> a / 4 % 2 == 1),
{
    assert(b <= 7 ==> (a & b == b <==> (b % 2 == 1 ==> a % 2 == 1) && (b / 2 % 2 == 1 ==> a / 2 % 2
        == 1) && (b / 4 == 1 ==> a / 4 % 2 == 1))) by (bit_vector);
}

/// The text of rights has a place for each right, with its letter exactly if it
/// is there and a dash otherwise.
pub proof fn law_rights_text(r: CapRights)
    ensures
        r.text().len() == 3,
        r.text()[0] == (if r@ % 2 == 1 {
            'r'
        } else {
            '-'
        }),
        r.text()[1] == (if r@ / 2 % 2 == 1 {
            'w'
        } else {
            '-'
        }),
        r.text()[2] == (if r@ / 4 % 2 == 1 {
            'c'
        } else {
            '-'
        }),
{
    law_rights_are_checked_one_by_one(r@, 1);
    law_rights_are_checked_one_by_one(r@, 2);
    law_rights_are_checked_one_by_one(r@, 4);
}

/// An insertion takes the first slot that is empty, and fails only where none
/// is.
pub proof fn law_insertion_takes_the_first_free_slot(slots: Seq<Option<Capability>>, s: int)
    ensures
        caps::lowest_free(slots, s) <==> 0 <= s < slots.len() && slots[s] is None && forall|k: int|
            0 <= k < s ==> (#[trigger] slots[k]) is Some,
        caps::full(slots) <==> !(exists|k: int| 0 <= k < slots.len() && (#[trigger] slots[k]) is None),
        caps::held(slots, s) <==> 0 <= s < slots.len() && slots[s] is Some,
{
}

/// The list of a space names exactly its occupied slots, each with its
/// capability, from the lowest slot to the highest.
pub proof fn law_list_is_the_occupied_slots(slots: Seq<Option<Capability>>)
    requires
        slots.len() <= 65535,
    ensures
        forall|k: int|
            0 <= k < caps::entries(slots).len() ==> {
                let e = #[trigger] caps::entries(slots)[k];
                e.0 < slots.len() && slots[e.0 as int] == Some(e.1)
            },
        forall|k: int, m: int|
            0 <= k < m < caps::entries(slots).len() ==> (#[trigger] caps::entries(slots)[k]).0 < (
            #[trigger] caps::entries(slots)[m]).0,
        forall|i: int|
            0 <= i < slots.len() && (#[trigger] slots[i]) is Some ==> caps::entries(slots).contains(
                (i as u16, slots[i]->0),
            ),
    decreases slots.len(),
{
    if slots.len() > 0 {
        let short = slots.drop_last();
        law_list_is_the_occupied_slots(short);
        let e = caps::entries(slots);
        let f = caps::entries(short);
        assert forall|k: int| 0 <= k < e.len() implies (#[trigger] e[k]).0 < slots.len()
            && slots[e[k].0 as int] == Some(e[k].1) by {
            if k < f.len() {
                assert(e[k] == f[k]);
                assert(short[f[k].0 as int] == Some(f[k].1));
            }
        }
        assert forall|k: int, m: int| 0 <= k < m < e.len() implies (#[trigger] e[k]).0 < (
        #[trigger] e[m]).0 by {
            assert(e[k] == f[k]);
            if m < f.len() {
                assert(e[m] == f[m]);
            }
        }
        assert forall|i: int| 0 <= i < slots.len() && (#[trigger] slots[i]) is Some implies e.contains(
            (i as u16, slots[i]->0),
        ) by {
            if i < short.len() {
                assert(short[i] is Some);
                let k = f.index_of((i as u16, slots[i]->0));
                assert(f.contains((i as u16, slots[i]->0)));
                assert(e[k] == f[k]);
            } else {
                assert(e[e.len() - 1] == (i as u16, slots[i]->0));
            }
        }
    }
}

/// What a derivation does: where the source has a capability in the slot that
/// shares a right with the mask, and the space has a free slot, the first free
/// one gets a capability for the same object with exactly the shared rights, and
/// no other slot changes. In every other case nothing does.
pub proof fn law_derive_effect(
    a: Seq<Option<Capability>>,
    b: Seq<Option<Capability>>,
    source: Seq<Option<Capability>>,
    slot: u16,
    mask: CapRights,
    r: Result<u16, caps::CapError>,
    i: int,
)
    requires
        caps::derived(a, b, source, slot, mask, r),
    ensures
        r is Ok ==> slot < source.len() && source[slot as int] is Some,
        r is Err ==> b == a,
        slot >= source.len() || source[slot as int] is None ==> r is Err,
        slot < source.len() && source[slot as int] is Some && 0 <= i < a.len() && a[i] is None && (
        forall|j: int| 0 <= j < i ==> (#[trigger] a[j]) is Some) ==> {
            let cap = source[slot as int]->0;
            &&& cap.rights@ & mask@ == 0 ==> r is Err
            &&& cap.rights@ & mask@ != 0 ==> r == Ok::<u16, caps::CapError>(i as u16) || i > 65535
            &&& cap.rights@ & mask@ != 0 && i <= 65535 ==> {
                &&& b.len() == a.len()
                &&& b[i] is Some
                &&& b[i]->0.object == cap.object && b[i]->0.kind == cap.kind
                &&& b[i]->0.rights@ == cap.rights@ & mask@
                &&& forall|j: int| 0 <= j < a.len() && j != i ==> #[trigger] b[j] == a[j]
            }
        },
{
    if slot < source.len() && source[slot as int] is Some {
        CapRights::lemma_mask(source[slot as int]->0.rights@ & mask@);
    }
    if let Ok(s) = r {
        if 0 <= i < a.len() && a[i] is None && (forall|j: int|
            0 <= j < i ==> (#[trigger] a[j]) is Some) {
            assert(s == i);
        }
    }
}

/// What the errors say.
pub proof fn law_error_texts(s: u16, r: CapRights)
    ensures
        caps::CapError::SpaceFull.text() == "capability space is full"@,
        caps::CapError::NoSuchSlot(s).text() == "no capability in slot "@ + crate::text::decimal(
            s as nat,
        ),
        caps::CapError::AlreadyOccupied(s).text() == "slot "@ + crate::text::decimal(s as nat)
            + " is already occupied"@,
        caps::CapError::RightsTooNarrow(r).text() == "insufficient rights ("@ + r.text() + ")"@,
{
}

} // verus!
