//! Kernel-object registry (the targets of capabilities).
//!
//! A capability in a task's capability space references exactly one
//! [`KernelObject`]; syscall handlers *look up* the object through the
//! registry and check the capability's kind and rights, so the kernel never
//! confuses a channel with a frame. The id of an object is its place in the
//! registry, counted from 1, and stays its id when others are removed.

use vstd::prelude::*;
use crate::caps::ObjectKind;
use crate::sched::TaskId;

verus! {

/// A shared-memory frame group (zero-copy IPC payload).
#[derive(Clone, Copy, PartialEq, Eq, Debug, Structural)]
pub struct SharedFrame {
    /// Physical base address.
    pub phys: u64,
    /// Number of contiguous 4 KiB pages.
    pub pages: usize,
    /// Virtual address (global window) where the frames are mapped.
    pub window: u64,
}

/// The objects capabilities can point at.
#[derive(Clone, Copy, PartialEq, Eq, Debug, Structural)]
pub enum KernelObject {
    /// A message channel (index into the channel table).
    Channel(u16),
    /// A shared frame group.
    Frame(SharedFrame),
    /// A task.
    Task(TaskId),
    /// Authority object for `spawn` (id 1).
    SpawnAuthority,
}

/// Object id 1 is the spawn authority (only its holder may spawn tasks).
pub const SPAWN_AUTHORITY: u32 = 1;

/// The registry.
pub struct ObjectTable {
    objects: Vec<Option<KernelObject>>,
}

/// The object with the id `id`, if there is one.
pub open spec fn object(objects: Seq<Option<KernelObject>>, id: u32) -> Option<KernelObject> {
    if 1 <= id <= objects.len() {
        objects[id - 1]
    } else {
        None
    }
}

/// The kind of capability that points at an object.
pub open spec fn kind_of(o: KernelObject) -> ObjectKind {
    match o {
        KernelObject::Channel(_) => ObjectKind::Channel,
        KernelObject::Frame(_) => ObjectKind::Frame,
        KernelObject::Task(_) => ObjectKind::Task,
        KernelObject::SpawnAuthority => ObjectKind::Task,
    }
}

/// The channel index of the object `id`, if it is a channel.
pub open spec fn channel_at(objects: Seq<Option<KernelObject>>, id: u32) -> Option<u16> {
    match object(objects, id) {
        Some(KernelObject::Channel(c)) => Some(c),
        _ => None,
    }
}

/// The frame group of the object `id`, if it is one.
pub open spec fn frame_at(objects: Seq<Option<KernelObject>>, id: u32) -> Option<SharedFrame> {
    match object(objects, id) {
        Some(KernelObject::Frame(f)) => Some(f),
        _ => None,
    }
}

impl ObjectTable {
    /// The objects in the order of their ids; removed ones leave a gap.
    pub closed spec fn view(&self) -> Seq<Option<KernelObject>> {
        self.objects@
    }

    /// An empty registry.
    pub fn new() -> (r: ObjectTable)
        ensures
            r@ == Seq::<Option<KernelObject>>::empty(),
    {
        ObjectTable { objects: Vec::new() }
    }

    /// Number of ids that were given out.
    pub fn len(&self) -> (r: usize)
        ensures
            r == self@.len(),
    {
        self.objects.len()
    }

    fn get(&self, id: u32) -> (r: Option<KernelObject>)
        ensures
            r == object(self@, id),
    {
        if id == 0 || id as usize > self.objects.len() {
            return None;
        }
        self.objects[id as usize - 1]
    }
}

/// Registers a new object, returning its kernel-object id.
pub fn register(objects: &mut ObjectTable, obj: KernelObject) -> (id: u32)
    requires
        old(objects)@.len() < u32::MAX,
    ensures
        id == old(objects)@.len() + 1,
        final(objects)@ == old(objects)@.push(Some(obj)),
{
    objects.objects.push(Some(obj));
    objects.objects.len() as u32
}

/// Registers the spawn authority. On the registry as it is at boot, empty,
/// this gives it the id [`SPAWN_AUTHORITY`].
pub fn init(objects: &mut ObjectTable)
    requires
        old(objects)@.len() < u32::MAX,
    ensures
        final(objects)@ == old(objects)@.push(Some(KernelObject::SpawnAuthority)),
        old(objects)@.len() == 0 ==> object(final(objects)@, SPAWN_AUTHORITY) == Some(
            KernelObject::SpawnAuthority,
        ),
{
    let _ = register(objects, KernelObject::SpawnAuthority);
}

/// Looks up an object by id. The handle holds no reference: it resolves in
/// the registry each time a handler needs the concrete object.
pub fn lookup(objects: &ObjectTable, id: u32) -> (r: Option<ObjectRef>)
    ensures
        r is Some == object(objects@, id) is Some,
        r is Some ==> r->0.spec_id() == id,
{
    match objects.get(id) {
        Some(_) => Some(ObjectRef::new(id)),
        None => None,
    }
}

/// Opaque handle that resolves when a handler needs the concrete object.
pub struct ObjectRef {
    id: u32,
}

impl ObjectRef {
    pub closed spec fn spec_id(&self) -> u32 {
        self.id
    }

    fn new(id: u32) -> (r: Self)
        ensures
            r.spec_id() == id,
    {
        ObjectRef { id }
    }

    pub fn id(&self) -> (r: u32)
        ensures
            r == self.spec_id(),
    {
        self.id
    }

    /// Kind of the referenced object.
    pub fn kind(&self, objects: &ObjectTable) -> (r: Option<ObjectKind>)
        ensures
            r == (match object(objects@, self.spec_id()) {
                Some(o) => Some(kind_of(o)),
                None => None,
            }),
    {
        match objects.get(self.id) {
            Some(KernelObject::Channel(_)) => Some(ObjectKind::Channel),
            Some(KernelObject::Frame(_)) => Some(ObjectKind::Frame),
            Some(KernelObject::Task(_)) => Some(ObjectKind::Task),
            Some(KernelObject::SpawnAuthority) => Some(ObjectKind::Task),
            None => None,
        }
    }

    /// The frame group if this object is one.
    pub fn frame(&self, objects: &ObjectTable) -> (r: Option<SharedFrame>)
        ensures
            r == frame_at(objects@, self.spec_id()),
    {
        match objects.get(self.id) {
            Some(KernelObject::Frame(f)) => Some(f),
            _ => None,
        }
    }

    /// Channel index if this object is a channel.
    pub fn channel(&self, objects: &ObjectTable) -> (r: Option<u16>)
        ensures
            r == channel_at(objects@, self.spec_id()),
    {
        match objects.get(self.id) {
            Some(KernelObject::Channel(idx)) => Some(idx),
            _ => None,
        }
    }
}

/// The registry without the object `id`.
pub open spec fn removed(objects: Seq<Option<KernelObject>>, id: u32) -> Seq<
    Option<KernelObject>,
> {
    if 1 <= id <= objects.len() {
        objects.update(id - 1, None)
    } else {
        objects
    }
}

/// Removes an object (when a shared frame is released).
pub fn remove(objects: &mut ObjectTable, id: u32)
    ensures
        final(objects)@ == removed(old(objects)@, id),
{
    if id != 0 && id as usize <= objects.objects.len() {
        objects.objects.set(id as usize - 1, None);
    }
}

/// Kernel self-test: register + lookup round trip.
pub fn test_caps(objects: &mut ObjectTable) -> (r: bool)
    requires
        old(objects)@.len() < u32::MAX,
    ensures
        r,
        final(objects)@ == old(objects)@.push(Some(KernelObject::Channel(0))),
{
    let id = register(objects, KernelObject::Channel(0));
    match lookup(objects, id) {
        Some(r) => {
            let kind = r.kind(objects);
            let channel = r.channel(objects);
            matches!(kind, Some(ObjectKind::Channel)) && matches!(channel, Some(0))
        },
        None => false,
    }
}

/// An object that was registered is found under its id, and the ids of the
/// others stay theirs.
pub proof fn law_register_lookup(
    objects: Seq<Option<KernelObject>>,
    obj: KernelObject,
    id: u32,
    other: u32,
)
    requires
        id == objects.len() + 1,
        other != id,
    ensures
        object(objects.push(Some(obj)), id) == Some(obj),
        object(objects.push(Some(obj)), other) == object(objects, other),
{
}

/// A removed object is not found again under its id, and the ids of the
/// others stay theirs.
pub proof fn law_remove_is_final(
    objects: Seq<Option<KernelObject>>,
    id: u32,
    other: u32,
    obj: KernelObject,
)
    requires
        other != id,
    ensures
        object(removed(objects, id), id) is None,
        object(removed(objects, id), other) == object(objects, other),
        1 <= id <= objects.len() ==> object(removed(objects, id).push(Some(obj)), id) is None,
{
}

/// No object is both a channel and a frame group, and only channels have the
/// channel kind.
pub proof fn law_objects_are_typed(objects: Seq<Option<KernelObject>>, id: u32)
    ensures
        !(channel_at(objects, id) is Some && frame_at(objects, id) is Some),
        object(objects, id) matches Some(o) ==> {
            &&& channel_at(objects, id) is Some <==> kind_of(o) == ObjectKind::Channel
            &&& frame_at(objects, id) is Some <==> kind_of(o) == ObjectKind::Frame
        },
{
}

} // verus!
