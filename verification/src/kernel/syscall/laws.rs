//! What holds of every syscall.

use vstd::prelude::*;
use crate::caps;
use crate::caps::{CapRights, Capability, ObjectKind};
use crate::kernel::caps as registry;
use crate::kernel::caps::KernelObject;
use crate::kernel::syscall;
use crate::kernel::syscall::{PRINT_MAX, USER_MAX_READ};
use crate::kernel::task;
use crate::kernel::user;
use crate::kernel::KernelView;
use crate::config::{SYS_PRINT, SYS_SPAWN, SYS_SEND};
use crate::sched::TaskId;

verus! {

/// Whatever a syscall reads from user memory lies in user memory as a whole,
/// and is not too long.
pub proof fn law_reads_stay_in_user_memory(num: u64, a0: u64, a1: u64)
    ensures
        syscall::needed(num, a0, a1) matches Some(r) ==> {
            &&& user::USER_BASE <= r.at
            &&& r.at + r.len <= user::USER_STACK_TOP
            &&& r.len <= USER_MAX_READ
            &&& num == SYS_PRINT ==> r.len <= PRINT_MAX
            &&& num == SYS_PRINT || num == SYS_SPAWN || num == SYS_SEND
        },
{
}

/// A task whose capability space holds no spawn authority with the right to
/// call cannot spawn; a new task, whose space is empty, cannot.
pub proof fn law_new_tasks_cannot_spawn(v: KernelView, e: task::EntryView)
    requires
        v.tasks.wf(),
        v.tasks.has_room(),
        e.id == v.tasks.next_id,
        forall|i: int| 0 <= i < e.cspace.len() ==> (#[trigger] e.cspace[i]) is None,
    ensures
        !(KernelView { tasks: v.tasks.added(e), ..v }).can_spawn(e.id),
{
    task::laws::law_added_task_is_ready(v.tasks, e);
}

/// A task that is given the spawn authority can spawn.
pub proof fn law_spawn_authority_is_enough(v: KernelView, id: TaskId, s: int, rights: CapRights)
    requires
        v.tasks.wf(),
        v.tasks.has(id),
        0 <= s < v.tasks.entry(id).cspace.len(),
        caps::covers(rights@, caps::CALL_BIT),
    ensures
        v.with_space(
            id,
            v.tasks.entry(id).cspace.update(
                s,
                Some(
                    Capability {
                        object: registry::SPAWN_AUTHORITY,
                        kind: ObjectKind::Task,
                        rights,
                    },
                ),
            ),
        ).can_spawn(id),
{
    let cap = Capability { object: registry::SPAWN_AUTHORITY, kind: ObjectKind::Task, rights };
    let space = v.tasks.entry(id).cspace.update(s, Some(cap));
    lemma_with_space(v, id, space);
    let w = v.with_space(id, space);
    assert(caps::held(w.tasks.entry(id).cspace, s));
    assert(syscall::spawn_cap(w.tasks.entry(id).cspace[s]->0));
}

proof fn lemma_with_space(v: KernelView, id: TaskId, space: Seq<Option<Capability>>)
    requires
        v.tasks.wf(),
        v.tasks.has(id),
    ensures
        v.with_space(id, space).tasks.has(id),
        v.with_space(id, space).tasks.entry(id).cspace == space,
{
    assert(task::entry_is(v.tasks.entries, task::place(v.tasks.entries, id), id));
    let e = task::EntryView { cspace: space, ..v.tasks.entry(id) };
    task::lemma_with_entry(v.tasks, id, e);
    assert(v.tasks.with_entry(id, e).has(id));
}

/// A channel that was created can be used at once by its creator, through the
/// slot that was returned, and is empty.
pub proof fn law_created_channel_is_usable(v: KernelView, w: KernelView, id: TaskId, r: u64)
    requires
        v.tasks.wf(),
        v.objects.len() < u32::MAX,
        v.channels.len() < 65536,
        v.tasks.has(id) ==> v.tasks.entry(id).cspace.len() == caps::CNODE_CAPACITY,
        syscall::channel_made(v, w, id, r),
        r > 0,
    ensures
        w.resolve(id, syscall::slot_named(r)) == Some(v.channels.len() as u16),
        w.channels.len() == v.channels.len() + 1,
        w.channels[v.channels.len() as int].queue.len() == 0,
{
    let (u, cap) = v.channel_created();
    let space = v.tasks.entry(id).cspace;
    lemma_with_space(u, id, space.update(r - 1, Some(cap)));
    CapRights::lemma_mask(caps::ALL_BITS);
    assert(7u8 & 4u8 == 4u8) by (bit_vector);
    assert(registry::object(w.objects, cap.object) == Some(
        KernelObject::Channel(v.channels.len() as u16),
    ));
    assert(syscall::slot_named(r) == r - 1);
}

/// After its capability was closed, a channel cannot be used through that slot
/// any more, by no operation.
pub proof fn law_closed_channel_is_gone(v: KernelView, id: TaskId, slot: u16)
    requires
        v.tasks.wf(),
    ensures
        syscall::channel_closed(v, id, slot).resolve(id, slot) is None,
{
    if v.tasks.has(id) && caps::held(v.tasks.entry(id).cspace, slot as int) {
        lemma_with_space(v, id, v.tasks.entry(id).cspace.update(slot as int, None));
    }
}

/// Closing the capability that a creation has just put into the caller's space
/// restores that space.
pub proof fn law_close_undoes_create(v: KernelView, w: KernelView, id: TaskId, r: u64)
    requires
        v.tasks.wf(),
        v.tasks.has(id),
        v.tasks.entry(id).cspace.len() == caps::CNODE_CAPACITY,
        syscall::channel_made(v, w, id, r),
        r > 0,
    ensures
        syscall::channel_closed(w, id, syscall::slot_named(r)).tasks == v.tasks,
{
    let (u, cap) = v.channel_created();
    let space = v.tasks.entry(id).cspace;
    let more = space.update(r - 1, Some(cap));
    lemma_with_space(u, id, more);
    assert(syscall::slot_named(r) == r - 1);
    assert(w.tasks.wf()) by {
        assert(task::entry_is(v.tasks.entries, task::place(v.tasks.entries, id), id));
        task::lemma_with_entry(
            v.tasks,
            id,
            task::EntryView { cspace: more, ..v.tasks.entry(id) },
        );
    }
    let x = syscall::channel_closed(w, id, syscall::slot_named(r));
    assert(more.update(r - 1, None) =~= space);
    let p = task::place(v.tasks.entries, id);
    assert(task::entry_is(v.tasks.entries, p, id));
    assert(task::entry_is(w.tasks.entries, p, id));
    task::lemma_place(w.tasks.entries, p, id);
    assert(x.tasks.entries =~= v.tasks.entries);
    assert(x.tasks =~= v.tasks);
}

} // verus!
