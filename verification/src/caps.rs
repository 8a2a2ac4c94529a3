//! Capability-based access control (seL4-inspired, minimal).
//!
//! Permissions are not based on user identities. Every task holds a
//! *capability space* (`CNode`): a fixed set of typed, rights-bearing tokens,
//! each pointing at exactly one kernel object. Access to an object (send on a
//! channel, map a frame, spawn a task) is only possible while a capability
//! for it, with the required rights, is held.
//!
//! 1. A capability is typed: `lookup` returns the kind, so a channel
//!    capability can never be used as a task capability.
//! 2. Rights can only be *narrowed* when duplicating, never widened.
//! 3. `revoke` removes a capability atomically and frees its slot; after a
//!    revoke the slot is reusable and lookups fail.
//! 4. A `CNode` has a fixed capacity; insertion beyond it fails cleanly.

use vstd::prelude::*;
use crate::text;

pub mod laws;

verus! {

/// Object kinds that can be the target of a capability.
#[derive(Clone, Copy, PartialEq, Eq, Debug, Hash, Structural)]
pub enum ObjectKind {
    /// A schedulable task.
    Task,
    /// A message channel used with [`crate::ipc`].
    Channel,
    /// A shared data frame (zero-copy IPC payload).
    Frame,
    /// A physical frame (mapping authority).
    PhysFrame,
    /// An interrupt notification endpoint.
    Irq,
}

impl ObjectKind {
    /// The name of the kind.
    pub open spec fn text(self) -> Seq<char> {
        match self {
            ObjectKind::Task => "task"@,
            ObjectKind::Channel => "channel"@,
            ObjectKind::Frame => "frame"@,
            ObjectKind::PhysFrame => "physframe"@,
            ObjectKind::Irq => "irq"@,
        }
    }

    pub fn to_string(&self) -> (r: String)
        ensures
            r@ == self.text(),
    {
        match self {
            ObjectKind::Task => String::from_str("task"),
            ObjectKind::Channel => String::from_str("channel"),
            ObjectKind::Frame => String::from_str("frame"),
            ObjectKind::PhysFrame => String::from_str("physframe"),
            ObjectKind::Irq => String::from_str("irq"),
        }
    }
}

/// The mask of the right to read.
pub const READ_BIT: u8 = 1;

/// The mask of the right to write.
pub const WRITE_BIT: u8 = 2;

/// The mask of the right to invoke (send, receive, spawn).
pub const CALL_BIT: u8 = 4;

/// The mask of all rights.
pub const ALL_BITS: u8 = 7;

/// Access rights attached to a capability.
#[derive(Clone, Copy, PartialEq, Eq, Debug, Default, Structural)]
pub struct CapRights(u8);

/// Every right of `b` is among those of `a`.
pub open spec fn covers(a: u8, b: u8) -> bool {
    a & b == b
}

impl CapRights {
    /// The rights as a mask.
    pub closed spec fn view(&self) -> u8 {
        self.0
    }

    /// The rights with the mask `mask`.
    pub closed spec fn of(mask: u8) -> CapRights {
        CapRights(mask)
    }

    /// Rights are the same when their masks are.
    pub broadcast proof fn lemma_of(self)
        ensures
            #[trigger] CapRights::of(self@) == self,
    {
    }

    /// The mask of the rights made from a mask.
    pub broadcast proof fn lemma_mask(mask: u8)
        ensures
            (#[trigger] CapRights::of(mask))@ == mask,
    {
    }

    /// No rights.
    pub fn none() -> (r: CapRights)
        ensures
            r == CapRights::of(0),
            r@ == 0,
    {
        CapRights(0)
    }

    /// The right to read.
    pub fn read() -> (r: CapRights)
        ensures
            r == CapRights::of(READ_BIT),
            r@ == READ_BIT,
    {
        CapRights(READ_BIT)
    }

    /// The right to write.
    pub fn write() -> (r: CapRights)
        ensures
            r == CapRights::of(WRITE_BIT),
            r@ == WRITE_BIT,
    {
        CapRights(WRITE_BIT)
    }

    /// The right to invoke (send, receive, spawn).
    pub fn call() -> (r: CapRights)
        ensures
            r == CapRights::of(CALL_BIT),
            r@ == CALL_BIT,
    {
        CapRights(CALL_BIT)
    }

    /// All rights.
    pub fn all() -> (r: CapRights)
        ensures
            r == CapRights::of(ALL_BITS),
            r@ == ALL_BITS,
    {
        CapRights(ALL_BITS)
    }

    pub fn new(read: bool, write: bool, call: bool) -> (r: Self)
        ensures
            r@ == (if read {
                READ_BIT as int
            } else {
                0
            }) + (if write {
                WRITE_BIT as int
            } else {
                0
            }) + (if call {
                CALL_BIT as int
            } else {
                0
            }),
    {
        let mut r: u8 = 0;
        if read {
            r = r + READ_BIT;
        }
        if write {
            r = r + WRITE_BIT;
        }
        if call {
            r = r + CALL_BIT;
        }
        CapRights(r)
    }

    pub fn is_empty(self) -> (r: bool)
        ensures
            r == (self@ == 0),
    {
        self.0 == 0
    }

    /// Raw rights mask (for serialising capabilities).
    pub fn bits(self) -> (r: u8)
        ensures
            r == self@,
    {
        self.0
    }

    pub fn contains(self, other: Self) -> (r: bool)
        ensures
            r == covers(self@, other@),
    {
        self.0 & other.0 == other.0
    }

    /// Narrow: keep only the rights that both `self` and `mask` allow.
    pub fn intersect(self, mask: Self) -> (r: Self)
        ensures
            r == CapRights::of(self@ & mask@),
            r@ == self@ & mask@,
    {
        CapRights(self.0 & mask.0)
    }

    /// `rwc`, with a dash in place of each right that is missing.
    pub open spec fn text(self) -> Seq<char> {
        seq![
            if covers(self@, READ_BIT) {
                'r'
            } else {
                '-'
            },
            if covers(self@, WRITE_BIT) {
                'w'
            } else {
                '-'
            },
            if covers(self@, CALL_BIT) {
                'c'
            } else {
                '-'
            },
        ]
    }

    pub fn to_string(&self) -> (res: String)
        ensures
            res@ == self.text(),
    {
        let r = self.contains(Self::read());
        let w = self.contains(Self::write());
        let c = self.contains(Self::call());
        let mut s = String::new();
        s.append(
            if r {
                "r"
            } else {
                "-"
            },
        );
        s.append(
            if w {
                "w"
            } else {
                "-"
            },
        );
        s.append(
            if c {
                "c"
            } else {
                "-"
            },
        );
        proof {
            reveal_strlit("r");
            reveal_strlit("w");
            reveal_strlit("c");
            reveal_strlit("-");
            assert(s@ =~= self.text());
        }
        s
    }
}

/// A single capability: a typed reference to a kernel object.
#[derive(Clone, Copy, PartialEq, Eq, Debug, Structural)]
pub struct Capability {
    /// Kernel-object identifier (opaque to users: an interned handle).
    pub object: u32,
    /// Type of the referenced object.
    pub kind: ObjectKind,
    /// Access rights granted by this token.
    pub rights: CapRights,
}

impl Capability {
    pub fn new(object: u32, kind: ObjectKind, rights: CapRights) -> (r: Self)
        ensures
            r == (Capability { object, kind, rights }),
    {
        Capability { object, kind, rights }
    }

    pub fn has_rights(&self, required: CapRights) -> (r: bool)
        ensures
            r == covers(self.rights@, required@),
    {
        self.rights.contains(required)
    }

    /// The capability with its rights narrowed by `mask`.
    pub open spec fn narrowed(self, mask: CapRights) -> Capability {
        Capability { rights: CapRights::of(self.rights@ & mask@), ..self }
    }
}

/// A slot index inside a capability space.
pub type Slot = u16;

/// Sentinel: no capability (equivalent of a null pointer, but typed).
pub const NULL_SLOT: Slot = 0xFFFF;

/// Capacity of a capability space: fixed and small.
pub const CNODE_CAPACITY: usize = 64;

/// Capability space ("CNode"): a fixed-capacity array of typed tokens.
#[derive(Debug)]
pub struct CNode {
    slots: [Option<Capability>; CNODE_CAPACITY],
}

#[derive(Clone, Copy, PartialEq, Eq, Debug)]
pub enum CapError {
    SpaceFull,
    NoSuchSlot(Slot),
    AlreadyOccupied(Slot),
    RightsTooNarrow(CapRights),
}

impl CapError {
    /// What the error says.
    pub open spec fn text(self) -> Seq<char> {
        match self {
            CapError::SpaceFull => "capability space is full"@,
            CapError::NoSuchSlot(s) => "no capability in slot "@ + text::decimal(s as nat),
            CapError::AlreadyOccupied(s) => "slot "@ + text::decimal(s as nat)
                + " is already occupied"@,
            CapError::RightsTooNarrow(r) => "insufficient rights ("@ + r.text() + ")"@,
        }
    }

    pub fn to_string(&self) -> (res: String)
        ensures
            res@ == self.text(),
    {
        match self {
            CapError::SpaceFull => String::from_str("capability space is full"),
            CapError::NoSuchSlot(s) => {
                let mut t = String::from_str("no capability in slot ");
                text::push_decimal(&mut t, *s as u64);
                t
            },
            CapError::AlreadyOccupied(s) => {
                let mut t = String::from_str("slot ");
                text::push_decimal(&mut t, *s as u64);
                t.append(" is already occupied");
                t
            },
            CapError::RightsTooNarrow(r) => {
                let mut t = String::from_str("insufficient rights (");
                let rights = r.to_string();
                t.append(rights.as_str());
                t.append(")");
                t
            },
        }
    }
}

// ---------------------------------------------------------------------------
// Model of a capability space: its slots in order.
// ---------------------------------------------------------------------------

/// Slot `i` holds a capability.
pub open spec fn held(slots: Seq<Option<Capability>>, i: int) -> bool {
    0 <= i < slots.len() && slots[i] is Some
}

/// Slot `i` is the lowest free one.
pub open spec fn lowest_free(slots: Seq<Option<Capability>>, i: int) -> bool {
    0 <= i < slots.len() && slots[i] is None && forall|j: int| 0 <= j < i ==> slots[j] is Some
}

/// Every slot holds a capability.
pub open spec fn full(slots: Seq<Option<Capability>>) -> bool {
    forall|i: int| 0 <= i < slots.len() ==> (#[trigger] slots[i]) is Some
}

/// The occupied slots with their capabilities, in slot order.
pub open spec fn entries(slots: Seq<Option<Capability>>) -> Seq<(Slot, Capability)>
    decreases slots.len(),
{
    if slots.len() == 0 {
        Seq::empty()
    } else if slots.last() is Some {
        entries(slots.drop_last()).push(((slots.len() - 1) as Slot, slots.last()->0))
    } else {
        entries(slots.drop_last())
    }
}

/// Deriving a capability from the slot `slot` of `source` into the space `a`
/// leaves `b` and returns `r`.
pub open spec fn derived(
    a: Seq<Option<Capability>>,
    b: Seq<Option<Capability>>,
    source: Seq<Option<Capability>>,
    slot: Slot,
    mask: CapRights,
    r: Result<Slot, CapError>,
) -> bool {
    match r {
        Ok(s) => {
            &&& held(source, slot as int)
            &&& source[slot as int]->0.rights@ & mask@ != 0
            &&& lowest_free(a, s as int)
            &&& b == a.update(s as int, Some(source[slot as int]->0.narrowed(mask)))
        },
        Err(e) => {
            &&& b == a
            &&& if !held(source, slot as int) {
                e == CapError::NoSuchSlot(slot)
            } else if source[slot as int]->0.rights@ & mask@ == 0 {
                e == CapError::RightsTooNarrow(CapRights::of(0))
            } else {
                e == CapError::SpaceFull && full(a)
            }
        },
    }
}

impl Clone for CNode {
    fn clone(&self) -> (r: Self)
        ensures
            r@ == self@,
    {
        CNode { slots: self.slots }
    }
}

impl Default for CNode {
    fn default() -> (r: Self)
        ensures
            r@ == Seq::new(CNODE_CAPACITY as nat, |i: int| None::<Capability>),
    {
        CNode::new()
    }
}

impl CNode {
    pub closed spec fn view(&self) -> Seq<Option<Capability>> {
        self.slots@
    }

    /// A capability space has its fixed number of slots.
    pub broadcast proof fn lemma_len(&self)
        ensures
            (#[trigger] self@).len() == CNODE_CAPACITY,
    {
    }

    /// An empty capability space.
    pub fn new() -> (r: Self)
        ensures
            r@ == Seq::new(CNODE_CAPACITY as nat, |i: int| None::<Capability>),
    {
        let r = CNode { slots: [None; CNODE_CAPACITY] };
        proof {
            assert(r@ =~= Seq::new(CNODE_CAPACITY as nat, |i: int| None::<Capability>));
        }
        r
    }

    /// Inserts a capability into the first free slot; returns its slot index.
    pub fn insert(&mut self, cap: Capability) -> (r: Result<Slot, CapError>)
        ensures
            match r {
                Ok(s) => lowest_free(old(self)@, s as int) && final(self)@ == old(self)@.update(
                    s as int,
                    Some(cap),
                ),
                Err(e) => e == CapError::SpaceFull && full(old(self)@) && final(self)@ == old(
                    self,
                )@,
            },
    {
        match self.first_free() {
            Some(s) => {
                self.slots[s as usize] = Some(cap);
                Ok(s)
            },
            None => Err(CapError::SpaceFull),
        }
    }

    /// Inserts at a specific slot; fails if the slot is occupied.
    pub fn insert_at(&mut self, slot: Slot, cap: Capability) -> (r: Result<(), CapError>)
        ensures
            match r {
                Ok(()) => slot < CNODE_CAPACITY && old(self)@[slot as int] is None && final(self)@
                    == old(self)@.update(slot as int, Some(cap)),
                Err(e) => final(self)@ == old(self)@ && (if slot < CNODE_CAPACITY {
                    e == CapError::AlreadyOccupied(slot) && old(self)@[slot as int] is Some
                } else {
                    e == CapError::NoSuchSlot(slot)
                }),
            },
    {
        if slot as usize >= CNODE_CAPACITY {
            return Err(CapError::NoSuchSlot(slot));
        }
        if self.slots[slot as usize].is_some() {
            return Err(CapError::AlreadyOccupied(slot));
        }
        self.slots[slot as usize] = Some(cap);
        Ok(())
    }

    /// Looks up a capability without consuming it.
    pub fn lookup(&self, slot: Slot) -> (r: Result<&Capability, CapError>)
        ensures
            match r {
                Ok(c) => held(self@, slot as int) && self@[slot as int] == Some(*c),
                Err(e) => e == CapError::NoSuchSlot(slot) && !held(self@, slot as int),
            },
    {
        if slot as usize >= CNODE_CAPACITY {
            return Err(CapError::NoSuchSlot(slot));
        }
        match &self.slots[slot as usize] {
            Some(c) => Ok(c),
            None => Err(CapError::NoSuchSlot(slot)),
        }
    }

    /// Looks up a capability and checks that it has `required` rights.
    pub fn lookup_with(&self, slot: Slot, required: CapRights) -> (r: Result<
        &Capability,
        CapError,
    >)
        ensures
            match r {
                Ok(c) => held(self@, slot as int) && self@[slot as int] == Some(*c) && covers(
                    c.rights@,
                    required@,
                ),
                Err(e) => if held(self@, slot as int) {
                    e == CapError::RightsTooNarrow(required) && !covers(
                        self@[slot as int]->0.rights@,
                        required@,
                    )
                } else {
                    e == CapError::NoSuchSlot(slot)
                },
            },
    {
        match self.lookup(slot) {
            Ok(cap) => if cap.has_rights(required) {
                Ok(cap)
            } else {
                Err(CapError::RightsTooNarrow(required))
            },
            Err(e) => Err(e),
        }
    }

    /// Removes and returns the capability at `slot`.
    pub fn revoke(&mut self, slot: Slot) -> (r: Result<Capability, CapError>)
        ensures
            match r {
                Ok(c) => held(old(self)@, slot as int) && old(self)@[slot as int] == Some(c)
                    && final(self)@ == old(self)@.update(slot as int, None),
                Err(e) => e == CapError::NoSuchSlot(slot) && !held(old(self)@, slot as int)
                    && final(self)@ == old(self)@,
            },
    {
        if slot as usize >= CNODE_CAPACITY {
            return Err(CapError::NoSuchSlot(slot));
        }
        match self.slots[slot as usize] {
            Some(c) => {
                self.slots[slot as usize] = None;
                Ok(c)
            },
            None => Err(CapError::NoSuchSlot(slot)),
        }
    }

    /// Duplicates a capability into this space with rights *narrowed* by
    /// `mask`, so a receiver can never hand out more rights than it holds
    /// itself. A duplicate without rights is refused.
    pub fn derive(&mut self, source: &CNode, slot: Slot, mask: CapRights) -> (r: Result<
        Slot,
        CapError,
    >)
        ensures
            derived(old(self)@, final(self)@, source@, slot, mask, r),
    {
        match source.lookup(slot) {
            Ok(src) => {
                let narrowed = Capability {
                    object: src.object,
                    kind: src.kind,
                    rights: src.rights.intersect(mask),
                };
                if narrowed.rights.is_empty() {
                    return Err(CapError::RightsTooNarrow(CapRights::none()));
                }
                self.insert(narrowed)
            },
            Err(e) => Err(e),
        }
    }

    /// Number of occupied slots.
    pub fn occupied(&self) -> (r: usize)
        ensures
            r == entries(self@).len(),
    {
        let mut n: usize = 0;
        for i in 0..CNODE_CAPACITY
            invariant
                n == entries(self@.take(i as int)).len(),
                n <= i,
        {
            proof {
                assert(self@.take(i + 1).drop_last() =~= self@.take(i as int));
            }
            if self.slots[i].is_some() {
                n += 1;
            }
        }
        proof {
            assert(self@.take(CNODE_CAPACITY as int) =~= self@);
        }
        n
    }

    /// First free slot, if any.
    pub fn first_free(&self) -> (r: Option<Slot>)
        ensures
            match r {
                Some(s) => lowest_free(self@, s as int),
                None => full(self@),
            },
    {
        for i in 0..CNODE_CAPACITY
            invariant
                forall|j: int| 0 <= j < i ==> (#[trigger] self@[j]) is Some,
        {
            if self.slots[i].is_none() {
                return Some(i as Slot);
            }
        }
        None
    }

    /// The occupied slots in index order.
    pub fn iter(&self) -> (r: Vec<(Slot, &Capability)>)
        ensures
            r@.len() == entries(self@).len(),
            forall|k: int|
                0 <= k < r@.len() ==> (#[trigger] r@[k]).0 == entries(self@)[k].0 && *r@[k].1
                    == entries(self@)[k].1,
    {
        let mut out: Vec<(Slot, &Capability)> = Vec::new();
        for i in 0..CNODE_CAPACITY
            invariant
                out@.len() == entries(self@.take(i as int)).len(),
                forall|k: int|
                    0 <= k < out@.len() ==> (#[trigger] out@[k]).0 == entries(
                        self@.take(i as int),
                    )[k].0 && *out@[k].1 == entries(self@.take(i as int))[k].1,
        {
            proof {
                assert(self@.take(i + 1).drop_last() =~= self@.take(i as int));
            }
            if let Some(c) = &self.slots[i] {
                out.push((i as Slot, c));
            }
        }
        proof {
            assert(self@.take(CNODE_CAPACITY as int) =~= self@);
        }
        out
    }
}

} // verus!
