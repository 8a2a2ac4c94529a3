//! What holds of every task table.

use vstd::prelude::*;
use crate::kernel::interrupts::CpuFrame;
use crate::kernel::task;
use crate::kernel::task::{ParkKind, TasksView};
use crate::sched;
use crate::sched::{SchedView, TaskId, TaskState};

verus! {

/// Every sleeper whose tick has come leaves the list and is no longer blocked;
/// the others stay in the list, and nobody is added to it.
pub proof fn law_sleepers_wake_on_time(s: SchedView, sleeping: Seq<(TaskId, u64)>, now: u64)
    requires
        s.wf(),
    ensures
        ({
            let w = task::wake_due(s, sleeping, 0, now);
            &&& forall|k: int| 0 <= k < w.1.len() ==> (#[trigger] w.1[k]).1 > now
            &&& forall|k: int| 0 <= k < w.1.len() ==> sleeping.contains(#[trigger] w.1[k])
            &&& forall|k: int|
                0 <= k < sleeping.len() && (#[trigger] sleeping[k]).1 > now ==> w.1.contains(
                    sleeping[k],
                )
            &&& forall|k: int|
                0 <= k < sleeping.len() && (#[trigger] sleeping[k]).1 <= now && s.known(
                    sleeping[k].0,
                ) ==> w.0.rec(sleeping[k].0).state != TaskState::Blocked
        }),
{
    lemma_wake_due(s, sleeping, 0, now);
}

proof fn lemma_wake_due(s: SchedView, sleeping: Seq<(TaskId, u64)>, i: int, now: u64)
    requires
        s.wf(),
        0 <= i <= sleeping.len(),
        forall|k: int| 0 <= k < i ==> (#[trigger] sleeping[k]).1 > now,
    ensures
        ({
            let w = task::wake_due(s, sleeping, i, now);
            &&& forall|k: int| 0 <= k < w.1.len() ==> (#[trigger] w.1[k]).1 > now
            &&& forall|k: int| 0 <= k < w.1.len() ==> sleeping.contains(#[trigger] w.1[k])
            &&& forall|k: int|
                0 <= k < sleeping.len() && (#[trigger] sleeping[k]).1 > now ==> w.1.contains(
                    sleeping[k],
                )
            &&& forall|k: int|
                0 <= k < sleeping.len() && (#[trigger] sleeping[k]).1 <= now && s.known(
                    sleeping[k].0,
                ) ==> w.0.rec(sleeping[k].0).state != TaskState::Blocked
            &&& forall|x: TaskId| #[trigger]
                s.known(x) && s.rec(x).state != TaskState::Blocked ==> w.0.rec(x).state
                    != TaskState::Blocked
        }),
    decreases sleeping.len() - i,
{
    let w = task::wake_due(s, sleeping, i, now);
    if i == sleeping.len() {
        assert forall|k: int| 0 <= k < w.1.len() implies sleeping.contains(#[trigger] w.1[k]) by {
            assert(sleeping[k] == w.1[k]);
        }
    } else if sleeping[i].1 <= now {
        let id = sleeping[i].0;
        let t = s.wake(id);
        let rest = task::swap_removed(sleeping, i);
        s.lemma_wake(id);
        sched::laws::law_wake_keeps_tasks(s, id);
        lemma_wake_unblocks(s, id);
        assert forall|k: int| 0 <= k < i implies (#[trigger] rest[k]).1 > now by {
            assert(rest[k] == sleeping[k]);
        }
        lemma_wake_due(t, rest, i, now);
        assert forall|k: int| 0 <= k < w.1.len() implies sleeping.contains(#[trigger] w.1[k]) by {
            assert(rest.contains(w.1[k]));
            let j = rest.index_of(w.1[k]);
            let j0 = if j == i {
                sleeping.len() - 1
            } else {
                j
            };
            assert(sleeping[j0] == rest[j]);
        }
        assert forall|k: int| 0 <= k < sleeping.len() && (#[trigger] sleeping[k]).1 > now implies
            w.1.contains(sleeping[k]) by {
            let j = if k == sleeping.len() - 1 {
                i
            } else {
                k
            };
            assert(rest[j] == sleeping[k]);
        }
        assert forall|k: int|
            0 <= k < sleeping.len() && (#[trigger] sleeping[k]).1 <= now && s.known(
                sleeping[k].0,
            ) implies w.0.rec(sleeping[k].0).state != TaskState::Blocked by {
            assert(t.known(sleeping[k].0));
            if k != i {
                let j = if k == sleeping.len() - 1 {
                    i
                } else {
                    k
                };
                assert(rest[j] == sleeping[k]);
            }
        }
        assert forall|x: TaskId| #[trigger]
            s.known(x) && s.rec(x).state != TaskState::Blocked implies w.0.rec(x).state
            != TaskState::Blocked by {
            assert(t.known(x));
        }
    } else {
        lemma_wake_due(s, sleeping, i + 1, now);
    }
}

/// Waking a task leaves it not blocked, and blocks no other.
proof fn lemma_wake_unblocks(s: SchedView, id: TaskId)
    requires
        s.wf(),
    ensures
        forall|x: TaskId| #[trigger]
            s.known(x) && (x == id || s.rec(x).state != TaskState::Blocked) ==> s.wake(
                id,
            ).known(x) && s.wake(id).rec(x).state != TaskState::Blocked,
{
    sched::laws::law_wake_keeps_tasks(s, id);
    sched::laws::law_wake_blocks_nobody(s, id);
}

/// The task that has the CPU has an entry: a switch never goes to a frame that
/// is not there.
pub proof fn law_runner_has_an_entry(v: TasksView)
    requires
        v.wf(),
    ensures
        v.running() matches Some(id) ==> v.has(id) && v.entry(id).id == id,
{
    if let Some(id) = v.running() {
        let s = v.sched->0;
        assert(s.known(id));
        assert(!sched::laws::done(s, id));
        assert(task::entry_is(v.entries, task::place(v.entries, id), id));
    }
}

/// A switch from `a` to `b` keeps the registers of `a` at `frame`, restores
/// those of `b`, and points the hardware at the stack and the ring of `b`.
pub proof fn law_switch_changes_the_frame(v: TasksView, a: TaskId, b: TaskId, frame: u64)
    requires
        v.wf(),
        v.running() == Some(b),
        v.has(a),
        a != b,
    ensures
        ({
            let (w, f) = v.resumed(Some(a), frame);
            &&& f == v.entry(b).save_area
            &&& w.area(a) == frame
            &&& w.area(b) == v.area(b)
            &&& w.cpu.rsp0 == v.entry(b).kstack_top
            &&& w.cpu.gs.kstack == v.entry(b).kstack_top
            &&& w.cpu.user_ret == v.entry(b).is_user
            &&& w.cpu.gs.scratch1 == (if v.entry(b).is_user {
                1u64
            } else {
                0
            })
            &&& w.running() == Some(b)
        }),
{
    law_runner_has_an_entry(v);
    assert(task::entry_is(v.entries, task::place(v.entries, a), a));
    let e = task::EntryView { save_area: frame, ..v.entry(a) };
    task::lemma_with_entry(v, a, e);
    assert(v.has(b));
    let u = v.saved(a, frame);
    assert(u.has(a) && u.has(b));
    assert(u.entry(b) == v.entry(b));
}

/// A task that is not switched away from goes on with its own frame.
pub proof fn law_no_switch_keeps_the_frame(v: TasksView, frame: u64)
    ensures
        v.resumed(v.running(), frame).1 == frame,
        v.resumed(v.running(), frame).0.entries == v.entries,
{
}

/// A task that parks has given up the CPU to another one that has an entry.
pub proof fn law_park_gives_up_the_cpu(v: TasksView, frame: u64, how: ParkKind)
    requires
        v.wf(),
        v.can_park(),
    ensures
        ({
            let cur = v.running()->0;
            let (w, f) = v.park(frame, how);
            &&& w.running() is Some && w.running() != Some(cur)
            &&& v.has(w.running()->0)
            &&& f == v.area(w.running()->0)
            &&& w.area(cur) == frame
        }),
{
    let s = v.sched->0;
    let cur = s.running->0;
    law_runner_has_an_entry(v);
    task::lemma_leave_wake(s, cur);
    let next = s.leave(cur, TaskState::Blocked).1->0;
    sched::laws::law_leaving_yields_cpu(s, cur, TaskState::Blocked);
    sched::laws::law_leave_keeps_tasks(s, cur, TaskState::Blocked);
    sched::laws::law_leave_keeps_finished(s, cur, TaskState::Blocked);
    let w = s.leave(cur, TaskState::Blocked).0;
    s.lemma_leave(cur, TaskState::Blocked);
    assert(w.running == Some(next));
    assert(w.known(next) && !sched::laws::done(w, next));
    assert(s.known(next));
    if sched::laws::done(s, next) {
        assert(next != cur);
        assert(sched::laws::done(w, next));
    }
    assert(v.has(next));
    assert(task::entry_is(v.entries, task::place(v.entries, cur), cur));
    let e = task::EntryView { save_area: frame, ..v.entry(cur) };
    task::lemma_with_entry(v, cur, e);
    let u = v.saved(cur, frame);
    assert(u.has(cur) && u.has(next));
    assert(u.entry(next) == v.entry(next));
}

/// A task that exits has finished, has no entry any more, and its entry is
/// kept in the graveyard.
pub proof fn law_exit_is_final(v: TasksView)
    requires
        v.wf(),
        v.running() is Some,
    ensures
        ({
            let id = v.running()->0;
            let w = v.exit().0;
            &&& sched::laws::done(w.sched->0, id)
            &&& !w.has(id)
            &&& w.graveyard == v.graveyard.push(v.entry(id))
            &&& w.running() != Some(id)
        }),
{
    let s = v.sched->0;
    let id = s.running->0;
    law_runner_has_an_entry(v);
    s.lemma_leave(id, TaskState::Finished);
    sched::laws::law_leave_keeps_finished(s, id, TaskState::Finished);
    let w = v.exit().0;
    assert(sched::laws::done(w.sched->0, id));
    assert(w.sched->0.wf());
    let p = task::place(v.entries, id);
    assert(task::entry_is(v.entries, p, id));
    if w.has(id) {
        let q = task::place(w.entries, id);
        assert(task::entry_is(w.entries, q, id));
        let q0 = if q < p {
            q
        } else {
            q + 1
        };
        assert(v.entries[q0].id == id);
    }
}

/// A user task that waits in a syscall runs the same syscall again after it
/// was woken: its instruction pointer goes back over the two bytes of the
/// instruction. Any other frame stays as it is.
pub proof fn law_woken_syscall_is_retried(f: CpuFrame)
    requires
        f.rip >= 2,
    ensures
        f.vec == 256 ==> f.rewound().rip + 2 == f.rip,
        f.vec == 256 ==> f.rewound() == (CpuFrame { rip: (f.rip - 2) as u64, ..f }),
        f.vec != 256 ==> f.rewound() == f,
{
}

/// A task that was added is ready to run with its first frame, and nothing
/// else has changed for the others.
pub proof fn law_added_task_is_ready(v: TasksView, e: task::EntryView)
    requires
        v.wf(),
        v.has_room(),
        e.id == v.next_id,
    ensures
        ({
            let w = v.added(e);
            &&& w.has(e.id) && w.entry(e.id) == e
            &&& w.sched->0.known(e.id)
            &&& w.sched->0.rec(e.id).state == TaskState::Ready
            &&& w.running() == v.running()
            &&& forall|x: TaskId| #[trigger] v.has(x) ==> w.has(x) && w.entry(x) == v.entry(x)
        }),
{
    let s = v.sched->0;
    let r = sched::fresh(e.id, e.priority, e.weight, e.deadline, s.ticks);
    assert(!s.known(e.id));
    sched::laws::law_register_adds_one(s, r);
    sched::laws::law_registered_is_ready(s, r);
    let w = v.added(e);
    assert(task::entry_is(w.entries, v.entries.len() as int, e.id));
    assert forall|i: int, j: int| 0 <= i < j < w.entries.len() implies (#[trigger] w.entries[i]).id
        != (#[trigger] w.entries[j]).id by {}
    task::lemma_place(w.entries, v.entries.len() as int, e.id);
    assert forall|x: TaskId| #[trigger] v.has(x) implies w.has(x) && w.entry(x) == v.entry(x) by {
        let p = task::place(v.entries, x);
        assert(task::entry_is(v.entries, p, x));
        assert(task::entry_is(w.entries, p, x));
        task::lemma_place(w.entries, p, x);
    }
}

/// A switch finds a task: while a task other than the runner is ready, as the
/// idle task is, the runner can park, and when it exits another task with an
/// entry goes on.
pub proof fn law_switch_finds_a_task(v: TasksView, x: TaskId)
    requires
        v.wf(),
        v.sched matches Some(s) && sched::laws::nobody_lost(s),
        v.running() is Some,
        v.running() != Some(x),
        v.sched->0.known(x),
        v.sched->0.rec(x).state == TaskState::Ready,
    ensures
        v.can_park(),
        ({
            let (w, f) = v.exit();
            &&& w.running() is Some && w.running() != v.running()
            &&& v.has(w.running()->0)
            &&& f == v.area(w.running()->0)
        }),
{
    let s = v.sched->0;
    let id = s.running->0;
    law_runner_has_an_entry(v);
    sched::laws::law_leaving_finds_the_next(s, id, TaskState::Blocked, x);
    sched::laws::law_leaving_finds_the_next(s, id, TaskState::Finished, x);
    sched::laws::law_leaving_yields_cpu(s, id, TaskState::Finished);
    sched::laws::law_leave_keeps_tasks(s, id, TaskState::Finished);
    sched::laws::law_leave_keeps_finished(s, id, TaskState::Finished);
    s.lemma_leave(id, TaskState::Finished);
    let t = s.leave(id, TaskState::Finished).0;
    let next = t.running->0;
    assert(t.known(next) && !sched::laws::done(t, next));
    assert(s.known(next));
    if sched::laws::done(s, next) {
        assert(sched::laws::done(t, next));
    }
    assert(v.has(next));
    let p = task::place(v.entries, id);
    let q = task::place(v.entries, next);
    assert(task::entry_is(v.entries, p, id));
    assert(task::entry_is(v.entries, q, next));
    let w = v.exit().0;
    let q1 = if q < p {
        q
    } else {
        q - 1
    };
    assert(w.entries[q1] == v.entries[q]);
    assert(task::entry_is(w.entries, q1, next));
    task::lemma_place(w.entries, q1, next);
}

/// Whoever can run goes on being able to when the runner parks or exits. So the
/// idle task, which never leaves the CPU by itself, can always run.
pub proof fn law_others_stay_runnable(v: TasksView, frame: u64, how: ParkKind, x: TaskId)
    requires
        v.wf(),
        v.running() is Some,
        v.running() != Some(x),
        sched::laws::runnable(v.sched->0, x),
    ensures
        sched::laws::runnable(v.park(frame, how).0.sched->0, x),
        sched::laws::runnable(v.exit().0.sched->0, x),
{
    let s = v.sched->0;
    let id = s.running->0;
    sched::laws::law_leave_keeps_runnable(s, id, TaskState::Blocked);
    sched::laws::law_leave_keeps_runnable(s, id, TaskState::Finished);
    s.lemma_leave(id, TaskState::Blocked);
    sched::laws::law_wake_keeps_runnable(s.leave(id, TaskState::Blocked).0, id);
}

} // verus!
