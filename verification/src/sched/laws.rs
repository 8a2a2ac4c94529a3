//! What holds of every scheduler, whatever happens to it.

use vstd::prelude::*;
use crate::sched;
use crate::sched::{
    PolicyKind, SchedAction, SchedView, TaskId, TaskRec, TaskState, TaskStats, RING_CAPACITY,
};

verus! {

/// The entry `k` of the ready queue belongs to a task that is ready.
pub open spec fn live_entry(v: SchedView, k: int) -> bool {
    0 <= k < v.ready.len() && v.known(v.ready[k]) && v.rec(v.ready[k]).state == TaskState::Ready
}

/// Under round-robin and weighted round-robin the queue is first in, first
/// out: the task that gets the CPU is that of the oldest live entry, and what
/// stood behind it keeps its order. Without a live entry nobody gets the CPU.
pub proof fn law_dispatch_is_fifo(v: SchedView)
    requires
        v.idle(),
        !v.edf(),
    ensures
        v.dispatch().1 matches Some(c) ==> exists|k: int|
            #[trigger] live_entry(v, k) && v.ready[k] == c && (forall|j: int|
                0 <= j < k ==> !#[trigger] live_entry(v, j)) && v.dispatch().0.ready
                =~= v.ready.skip(k + 1),
        v.dispatch().1 is None ==> forall|j: int| !#[trigger] live_entry(v, j),
    decreases v.ready.len(),
{
    if v.ready.len() > 0 {
        let head = v.ready[0];
        let rest = v.dequeue();
        v.lemma_dequeue();
        if live_entry(v, 0) {
            assert(v.dispatch().0.ready =~= v.ready.skip(1));
        } else {
            law_dispatch_is_fifo(rest);
            assert forall|j: int| #[trigger] live_entry(rest, j) <==> j >= 0 && live_entry(
                v,
                j + 1,
            ) by {
                if 0 <= j < rest.ready.len() {
                    assert(rest.ready[j] == v.ready[j + 1]);
                }
            }
            if let Some(c) = rest.dispatch().1 {
                let k = choose|k: int|
                    #[trigger] live_entry(rest, k) && rest.ready[k] == c && (forall|j: int|
                        0 <= j < k ==> !#[trigger] live_entry(rest, j))
                        && rest.dispatch().0.ready =~= rest.ready.skip(k + 1);
                assert(live_entry(v, k + 1));
                assert forall|j: int| 0 <= j < k + 1 implies !#[trigger] live_entry(v, j) by {
                    if j > 0 {
                        assert(!live_entry(rest, j - 1));
                    }
                }
                assert(rest.ready.skip(k + 1) =~= v.ready.skip(k + 2));
            } else {
                assert forall|j: int| !#[trigger] live_entry(v, j) by {
                    if j > 0 {
                        assert(!live_entry(rest, j - 1));
                    }
                }
            }
        }
    }
}

/// The two tables differ at most in which tasks are marked as queued.
pub open spec fn same_but_marks(a: Seq<Option<TaskRec>>, b: Seq<Option<TaskRec>>) -> bool {
    &&& a.len() == b.len()
    &&& forall|i: int|
        #![trigger a[i]]
        #![trigger b[i]]
        0 <= i < a.len() ==> match (a[i], b[i]) {
            (None, None) => true,
            (Some(x), Some(y)) => TaskRec { in_ring: y.in_ring, ..x } == y,
            _ => false,
        }
}

proof fn lemma_dequeue_marks(v: SchedView)
    requires
        v.wf(),
        v.ready.len() > 0,
    ensures
        same_but_marks(v.tasks, v.dequeue().tasks),
{
    if v.known(v.ready[0]) {
        sched::lemma_known(v.tasks, v.ready[0]);
    }
}

/// EDF runs the ready task with the earliest deadline, of equal deadlines one
/// of the highest priority; and it runs a task without a deadline only while
/// no task with one is ready.
pub proof fn law_edf_runs_earliest_deadline(v: SchedView)
    requires
        v.idle(),
        v.edf(),
    ensures
        v.dispatch().1 matches Some(c) ==> {
            &&& v.known(c)
            &&& v.rec(c).state == TaskState::Ready
            &&& forall|k: int|
                #[trigger] sched::ready_at(v.tasks, k) ==> !sched::edf_before(v.tasks[k]->0, v.rec(c))
            &&& v.rec(c).deadline is None ==> !sched::deadline_task_ready(v.tasks)
        },
    decreases v.ready.len(),
{
    if v.ready.len() > 0 {
        let head = v.ready[0];
        let rest = v.dequeue();
        v.lemma_dequeue();
        lemma_dequeue_marks(v);
        assert forall|k: int| #[trigger] sched::ready_at(v.tasks, k) <==> sched::ready_at(rest.tasks, k) by {}
        if sched::deadline_task_ready(v.tasks) {
            let k = choose|k: int| #[trigger] sched::ready_at(v.tasks, k) && v.tasks[k]->0.deadline is Some;
            assert(sched::ready_at(rest.tasks, k) && rest.tasks[k]->0.deadline is Some);
        }
        if rest.known(head) && rest.rec(head).state == TaskState::Ready {
            let w = sched::lemma_edf_choice(rest.tasks, head);
            let c = rest.tasks[w]->0.id;
            sched::lemma_slot(rest.tasks, w, c);
            assert(sched::holds(v.tasks, w, c));
            sched::lemma_slot(v.tasks, w, c);
            let h = sched::slot_of(rest.tasks, head);
            sched::lemma_known(rest.tasks, head);
            assert forall|k: int| #[trigger] sched::ready_at(v.tasks, k) implies !sched::edf_before(
                v.tasks[k]->0,
                v.rec(c),
            ) by {
                assert(sched::ready_at(rest.tasks, k));
            }
        } else {
            law_edf_runs_earliest_deadline(rest);
            if let Some(c) = rest.dispatch().1 {
                sched::lemma_known(rest.tasks, c);
                let s = sched::slot_of(rest.tasks, c);
                assert(sched::holds(v.tasks, s, c));
                sched::lemma_slot(v.tasks, s, c);
                assert forall|k: int| #[trigger] sched::ready_at(v.tasks, k) implies !sched::edf_before(
                    v.tasks[k]->0,
                    v.rec(c),
                ) by {
                    assert(sched::ready_at(rest.tasks, k));
                }
            }
        }
    }
}

/// The CPU goes to a task that was ready, under every policy.
pub proof fn law_only_ready_tasks_run(v: SchedView)
    requires
        v.idle(),
    ensures
        v.dispatch().1 matches Some(c) ==> v.known(c) && v.rec(c).state == TaskState::Ready,
{
    if v.edf() {
        law_edf_runs_earliest_deadline(v);
    } else {
        law_dispatch_is_fifo(v);
    }
}

/// A task that blocks or finishes does not keep the CPU.
pub proof fn law_leaving_yields_cpu(v: SchedView, id: TaskId, state: TaskState)
    requires
        v.wf(),
        state == TaskState::Blocked || state == TaskState::Finished,
    ensures
        v.leave(id, state).0.running != Some(id),
        v.leave(id, state).1 != Some(id),
        v.known(id) ==> v.leave(id, state).0.known(id),
{
    v.lemma_leave(id, state);
    let r = TaskRec { state, ..v.rec(id) };
    if v.known(id) {
        sched::lemma_known(v.tasks, id);
    }
    sched::lemma_with_rec(v.tasks, id, r);
    if v.running == Some(id) {
        let u = SchedView { running: None, running_ticks: 0, ..v.set(id, r) };
        law_only_ready_tasks_run(u);
        u.lemma_dispatch();
    }
}

/// Under round-robin a runner keeps the CPU exactly until its ticks reach the
/// quantum.
pub proof fn law_round_robin_quantum(v: SchedView)
    requires
        v.wf(),
        v.kind == PolicyKind::RoundRobin,
        v.running is Some,
        v.running_ticks < u64::MAX,
    ensures
        v.tick().1 is Continue <==> v.running_ticks + 1 < v.quantum,
        v.tick().1 is Continue ==> v.tick().0.running == v.running && v.tick().0.running_ticks
            == v.running_ticks + 1,
{
}

/// Under weighted round-robin a runner keeps the CPU exactly until its ticks
/// reach its weight.
pub proof fn law_weighted_turn(v: SchedView, id: TaskId)
    requires
        v.wf(),
        v.kind == PolicyKind::WeightedRoundRobin,
        v.running == Some(id),
        v.running_ticks < u64::MAX,
    ensures
        v.tick().1 is Continue <==> v.running_ticks + 1 < v.rec(id).weight,
        v.tick().1 is Continue ==> v.tick().0.running == v.running && v.tick().0.running_ticks
            == v.running_ticks + 1,
{
    v.lemma_advance();
    v.advance().lemma_charge(id);
}

/// Under EDF a runner keeps the CPU exactly until its budget is used up.
pub proof fn law_edf_budget(v: SchedView, id: TaskId)
    requires
        v.wf(),
        v.edf(),
        v.running == Some(id),
    ensures
        v.tick().1 is Continue <==> sched::rolled(v.rec(id), sched::next_count(v.ticks)).budget_remaining_ticks
            > 1,
        v.tick().1 is Continue ==> v.tick().0.running == v.running,
{
    v.lemma_advance();
    sched::lemma_map_recs(v.tasks, |r: TaskRec| sched::rolled(r, sched::next_count(v.ticks)));
    v.advance().lemma_charge(id);
}

/// A tick counts one miss for every unfinished task whose deadline has come,
/// and for no other.
pub proof fn law_edf_counts_misses(v: SchedView, id: TaskId)
    requires
        v.wf(),
        v.edf(),
        v.known(id),
    ensures
        ({
            let now = sched::next_count(v.ticks);
            let due = v.rec(id).deadline is Some && v.rec(id).state != TaskState::Finished && now
                >= v.rec(id).next_deadline_ticks;
            v.advance().rec(id).stats.deadline_misses == if due {
                sched::next_count(v.rec(id).stats.deadline_misses)
            } else {
                v.rec(id).stats.deadline_misses
            }
        }),
{
    sched::lemma_map_recs(v.tasks, |r: TaskRec| sched::rolled(r, sched::next_count(v.ticks)));
}

/// With nothing running and no live entry in the queue, a tick leaves the CPU
/// idle.
pub proof fn law_idle_when_nobody_ready(v: SchedView)
    requires
        v.wf(),
        v.running is None,
        forall|k: int| !#[trigger] live_entry(v, k),
    ensures
        v.tick().1 == SchedAction::Preempt(None),
        v.tick().0.running is None,
{
    v.lemma_advance();
    let u = v.advance();
    if v.edf() {
        sched::lemma_map_recs(v.tasks, |r: TaskRec| sched::rolled(r, sched::next_count(v.ticks)));
    }
    assert forall|k: int| !#[trigger] live_entry(u, k) by {
        assert(!live_entry(v, k));
    }
    lemma_no_live_entry(u);
}

proof fn lemma_no_live_entry(v: SchedView)
    requires
        v.idle(),
        forall|k: int| !#[trigger] live_entry(v, k),
    ensures
        v.dispatch().1 is None,
        v.dispatch().0.running == v.running,
    decreases v.ready.len(),
{
    if v.ready.len() > 0 {
        assert(!live_entry(v, 0));
        v.lemma_dequeue();
        let rest = v.dequeue();
        assert forall|j: int| !#[trigger] live_entry(rest, j) by {
            if 0 <= j < rest.ready.len() {
                assert(rest.ready[j] == v.ready[j + 1]);
                assert(!live_entry(v, j + 1));
            }
        }
        lemma_no_live_entry(rest);
    }
}

/// At the end of a round-robin quantum the oldest waiting task runs and the
/// task that had the CPU waits behind all others.
pub proof fn law_round_robin_rotation(v: SchedView, id: TaskId)
    requires
        v.wf(),
        v.kind == PolicyKind::RoundRobin,
        v.running == Some(id),
        v.running_ticks + 1 >= v.quantum,
        v.running_ticks < u64::MAX,
        !v.rec(id).in_ring,
        v.ready.len() < RING_CAPACITY,
        live_entry(v, 0),
        v.ready[0] != id,
    ensures
        v.tick().1 == SchedAction::Preempt(Some(v.ready[0])),
        v.tick().0.running == Some(v.ready[0]),
        v.tick().0.ready =~= v.ready.drop_first().push(id),
        v.tick().0.running_ticks == 0,
{
    v.lemma_advance();
    let a = v.advance();
    let u = a.charge(id);
    a.lemma_charge(id);
    sched::lemma_known(u.tasks, id);
    let r = sched::turned_out(u.rec(id), false);
    sched::lemma_with_rec(u.tasks, id, r);
    sched::lemma_with_rec(a.tasks, id, sched::charged(a.rec(id), false));
    u.lemma_turn_out(id);
    let w = SchedView { tasks: sched::with_rec(u.tasks, id, r), running_ticks: 0, ..u };
    w.lemma_enqueue(id);
    let t = u.turn_out(id);
    assert(t == w.enqueue(id));
    t.lemma_dequeue();
    let head = v.ready[0];
    assert(t.ready[0] == head);
    assert(t.dequeue().ready =~= v.ready.drop_first().push(id));
}

/// Waking a task twice is waking it once.
pub proof fn law_wake_is_idempotent(v: SchedView, id: TaskId)
    requires
        v.wf(),
    ensures
        v.wake(id).wake(id) == v.wake(id),
{
    if v.known(id) && v.rec(id).state == TaskState::Blocked {
        sched::lemma_known(v.tasks, id);
        let r = TaskRec { state: TaskState::Ready, ..v.rec(id) };
        sched::lemma_with_rec(v.tasks, id, r);
        let u = v.set(id, r);
        let q = TaskRec { state: TaskState::Ready, in_ring: true, ..u.rec(id) };
        sched::lemma_with_rec(u.tasks, id, q);
    }
}

/// A blocked task that is woken is ready again and stands at the end of the
/// ready queue, unless it has an entry there already.
pub proof fn law_wake_requeues(v: SchedView, id: TaskId)
    requires
        v.wf(),
        v.known(id),
        v.rec(id).state == TaskState::Blocked,
    ensures
        v.wake(id).rec(id).state == TaskState::Ready,
        !v.rec(id).in_ring ==> v.wake(id).ready == sched::with_room(v.tasks, v.ready).push(id),
        v.wake(id).running == v.running,
{
    sched::lemma_known(v.tasks, id);
    let r = TaskRec { state: TaskState::Ready, ..v.rec(id) };
    sched::lemma_with_rec(v.tasks, id, r);
    let u = v.set(id, r);
    sched::lemma_with_rec(
        u.tasks,
        id,
        TaskRec { state: TaskState::Ready, in_ring: true, ..u.rec(id) },
    );
    lemma_same_marks(v.tasks, u.tasks, v.ready);
}

/// Which entries count depends on the ids and the marks alone.
proof fn lemma_same_marks(a: Seq<Option<TaskRec>>, b: Seq<Option<TaskRec>>, q: Seq<TaskId>)
    requires
        forall|x: TaskId| #[trigger] sched::marked(a, x) <==> sched::marked(b, x),
    ensures
        sched::compact(a, q) == sched::compact(b, q),
    decreases q.len(),
{
    if q.len() > 0 {
        lemma_same_marks(a, b, q.drop_last());
        assert(sched::marked(a, q.last()) <==> sched::marked(b, q.last()));
    }
}

/// Unregistering a task right after it was registered gives the task table
/// back as it was.
pub proof fn law_unregister_undoes_register(v: SchedView, r: TaskRec)
    requires
        v.wf(),
        !v.known(r.id),
        !sched::table_full(v.tasks),
        r.state == TaskState::Ready,
        !r.in_ring,
    ensures
        v.register(r).unregister(r.id).tasks =~= v.tasks,
        v.register(r).unregister(r.id).running == v.running,
{
    v.lemma_register(r);
    let slot = choose|i: int| sched::first_free(v.tasks, i);
    let u = SchedView { tasks: v.tasks.update(slot, Some(r)), ..v };
    assert(u.wf());
    assert(sched::holds(u.tasks, slot, r.id));
    sched::lemma_slot(u.tasks, slot, r.id);
    let q = TaskRec { state: TaskState::Ready, in_ring: true, ..u.rec(r.id) };
    sched::lemma_with_rec(u.tasks, r.id, q);
    let w = v.register(r);
    assert(sched::holds(w.tasks, slot, r.id));
    sched::lemma_slot(w.tasks, slot, r.id);
    if v.running == Some(r.id) {
        assert(v.known(r.id));
    }
}

/// The state is valid, and whoever is marked as queued has an entry in the
/// ready queue. The queue may hold entries besides: those that a task left
/// behind when it was taken out of the table.
pub open spec fn linked(v: SchedView) -> bool {
    &&& v.wf()
    &&& forall|x: TaskId| #[trigger] v.known(x) && v.rec(x).in_ring ==> v.ready.contains(x)
}

/// Every ready task is marked as queued, but perhaps `x`.
pub open spec fn queued_but(v: SchedView, x: Option<TaskId>) -> bool {
    forall|y: TaskId| #[trigger]
        v.known(y) && v.rec(y).state == TaskState::Ready && x != Some(y) ==> v.rec(y).in_ring
}

/// Every ready task is in the ready queue, and the runner is in the running
/// state.
pub open spec fn nobody_lost(v: SchedView) -> bool {
    &&& linked(v)
    &&& queued_but(v, None)
    &&& v.running matches Some(x) ==> v.rec(x).state == TaskState::Running
}

/// Queueing a ready task that was the only one missing.
proof fn lemma_enqueue_linked(v: SchedView, id: TaskId)
    requires
        linked(v),
        v.known(id),
        v.rec(id).state == TaskState::Ready,
        queued_but(v, Some(id)),
    ensures
        linked(v.enqueue(id)),
        queued_but(v.enqueue(id), None),
        v.enqueue(id).rec(id).state == TaskState::Ready,
        v.enqueue(id).ready.contains(id),
{
    v.lemma_enqueue(id);
    sched::lemma_known(v.tasks, id);
    let w = v.enqueue(id);
    if !v.rec(id).in_ring {
        let r = TaskRec { state: TaskState::Ready, in_ring: true, ..v.rec(id) };
        sched::lemma_with_rec(v.tasks, id, r);
        sched::lemma_with_room(v.tasks, v.ready, id);
        let kept = sched::with_room(v.tasks, v.ready);
        assert(w.ready[kept.len() as int] == id);
        assert forall|x: TaskId| #[trigger] w.known(x) && w.rec(x).in_ring implies w.ready.contains(
            x,
        ) by {
            assert(v.known(x));
            if x != id {
                assert(v.ready.contains(x) && sched::marked(v.tasks, x));
                assert(w.ready[kept.index_of(x)] == x);
            }
        }
        assert forall|y: TaskId| #[trigger]
            w.known(y) && w.rec(y).state == TaskState::Ready implies w.rec(y).in_ring by {
            assert(v.known(y));
        }
    }
}

/// Taking the oldest entry out of the queue.
proof fn lemma_dequeue_linked(v: SchedView)
    requires
        linked(v),
        v.ready.len() > 0,
        queued_but(v, None),
    ensures
        linked(v.dequeue()),
        queued_but(v.dequeue(), Some(v.ready[0])),
{
    v.lemma_dequeue();
    let head = v.ready[0];
    let w = v.dequeue();
    assert forall|x: TaskId| #[trigger] w.known(x) && w.rec(x).in_ring implies w.ready.contains(
        x,
    ) by {
        assert(v.known(x));
        assert(x != head);
        let k = v.ready.index_of(x);
        assert(v.ready.contains(x));
        assert(w.ready[k - 1] == x);
    }
    assert forall|y: TaskId| #[trigger]
        w.known(y) && w.rec(y).state == TaskState::Ready && Some(head) != Some(y) implies w.rec(
        y,
    ).in_ring by {
        assert(v.known(y));
    }
}

/// A change to a record that keeps its id and its mark keeps the entries.
proof fn lemma_set_linked(v: SchedView, w: SchedView, id: TaskId, r: TaskRec)
    requires
        linked(v),
        w.wf(),
        w.tasks == sched::with_rec(v.tasks, id, r),
        w.ready == v.ready,
        v.known(id),
        r.id == id,
        r.in_ring == v.rec(id).in_ring,
    ensures
        linked(w),
{
    sched::lemma_with_rec(v.tasks, id, r);
    assert forall|x: TaskId| #[trigger] w.known(x) && w.rec(x).in_ring implies w.ready.contains(
        x,
    ) by {
        assert(v.known(x));
    }
}

/// The same for a change to every record.
proof fn lemma_map_linked(v: SchedView, w: SchedView, f: spec_fn(TaskRec) -> TaskRec)
    requires
        linked(v),
        w.wf(),
        w.tasks == sched::map_recs(v.tasks, f),
        w.ready == v.ready,
        forall|r: TaskRec|
            (#[trigger] f(r)).id == r.id && f(r).in_ring == r.in_ring && f(r).state == r.state,
    ensures
        linked(w),
        queued_but(v, None) ==> queued_but(w, None),
        forall|x: TaskId| #[trigger] w.known(x) <==> v.known(x),
        forall|x: TaskId| v.known(x) ==> (#[trigger] w.rec(x)).state == v.rec(x).state,
{
    sched::lemma_map_recs(v.tasks, f);
    assert forall|x: TaskId| #[trigger] w.known(x) && w.rec(x).in_ring implies w.ready.contains(
        x,
    ) by {
        assert(v.known(x));
    }
    if queued_but(v, None) {
        assert forall|y: TaskId| #[trigger]
            w.known(y) && w.rec(y).state == TaskState::Ready implies w.rec(y).in_ring by {
            assert(v.known(y));
        }
    }
}

/// A dispatch loses no ready task, and it leaves the CPU idle only when no
/// task is ready.
pub proof fn law_dispatch_loses_nobody(v: SchedView)
    requires
        v.idle(),
        linked(v),
        queued_but(v, None),
    ensures
        linked(v.dispatch().0),
        queued_but(v.dispatch().0, None),
        v.dispatch().1 matches Some(c) ==> v.dispatch().0.rec(c).state == TaskState::Running,
        v.dispatch().1 is None ==> forall|x: TaskId| #[trigger]
            v.known(x) ==> v.rec(x).state != TaskState::Ready,
    decreases v.ready.len(),
{
    v.lemma_dispatch();
    if v.ready.len() == 0 {
        assert forall|x: TaskId| #[trigger] v.known(x) implies v.rec(x).state
            != TaskState::Ready by {
            if v.rec(x).in_ring {
                assert(v.ready.contains(x));
            }
        }
    } else {
        let head = v.ready[0];
        let rest = v.dequeue();
        v.lemma_dequeue();
        lemma_dequeue_linked(v);
        if !rest.known(head) || rest.rec(head).state != TaskState::Ready {
            assert forall|y: TaskId| #[trigger]
                rest.known(y) && rest.rec(y).state == TaskState::Ready implies rest.rec(
                y,
            ).in_ring by {
                assert(y != head);
            }
            law_dispatch_loses_nobody(rest);
            assert forall|x: TaskId| #[trigger] v.known(x) && rest.dispatch().1 is None implies v.rec(
                x,
            ).state != TaskState::Ready by {
                assert(rest.known(x));
            }
        } else {
            rest.lemma_choice(head);
            let c = rest.choice(head);
            let mid = if c == head {
                rest
            } else {
                rest.enqueue(head)
            };
            if c != head {
                rest.lemma_enqueue(head);
                lemma_enqueue_linked(rest, head);
            }
            mid.lemma_run(c);
            sched::lemma_known(mid.tasks, c);
            let r = sched::started(mid.rec(c), mid.edf());
            sched::lemma_with_rec(mid.tasks, c, r);
            lemma_set_linked(mid, mid.run(c), c, r);
            assert forall|y: TaskId| #[trigger]
                mid.run(c).known(y) && mid.run(c).rec(y).state == TaskState::Ready implies mid.run(
                c,
            ).rec(y).in_ring by {
                assert(mid.known(y));
            }
        }
    }
}

/// A new scheduler has lost nobody.
pub proof fn law_new_loses_nobody(v: SchedView)
    requires
        v.tasks.len() == sched::MAX_TASKS,
        forall|i: int| 0 <= i < v.tasks.len() ==> (#[trigger] v.tasks[i]) is None,
        v.ready.len() == 0,
        v.running is None,
        v.quantum >= 1,
    ensures
        nobody_lost(v),
{
    assert forall|x: TaskId| !#[trigger] v.known(x) by {
        if v.known(x) {
            assert(sched::holds(v.tasks, sched::slot_of(v.tasks, x), x));
        }
    }
}

/// Blocking or finishing a task loses no other.
pub proof fn law_leave_loses_nobody(v: SchedView, id: TaskId, state: TaskState)
    requires
        nobody_lost(v),
        state == TaskState::Blocked || state == TaskState::Finished,
    ensures
        nobody_lost(v.leave(id, state).0),
{
    v.lemma_leave(id, state);
    if v.known(id) {
        sched::lemma_known(v.tasks, id);
        let r = TaskRec { state, ..v.rec(id) };
        sched::lemma_with_rec(v.tasks, id, r);
        let w = v.set(id, r);
        if v.running == Some(id) {
            let u = SchedView { running: None, running_ticks: 0, ..w };
            lemma_set_linked(v, u, id, r);
            assert forall|y: TaskId| #[trigger]
                u.known(y) && u.rec(y).state == TaskState::Ready implies u.rec(y).in_ring by {
                assert(v.known(y));
            }
            law_dispatch_loses_nobody(u);
            u.lemma_dispatch();
        } else {
            lemma_set_linked(v, w, id, r);
            assert forall|y: TaskId| #[trigger]
                w.known(y) && w.rec(y).state == TaskState::Ready implies w.rec(y).in_ring by {
                assert(v.known(y));
            }
        }
    } else {
        assert(v.set(id, TaskRec { state, ..v.rec(id) }) == v);
        if v.running == Some(id) {
            assert(v.known(id));
        }
    }
}

/// A task that is woken is in the ready queue, and no other is lost.
pub proof fn law_wake_loses_nobody(v: SchedView, id: TaskId)
    requires
        nobody_lost(v),
    ensures
        nobody_lost(v.wake(id)),
        v.known(id) && v.rec(id).state == TaskState::Blocked ==> v.wake(id).ready.contains(id),
{
    v.lemma_wake(id);
    if v.known(id) && v.rec(id).state == TaskState::Blocked {
        sched::lemma_known(v.tasks, id);
        let r = TaskRec { state: TaskState::Ready, ..v.rec(id) };
        sched::lemma_with_rec(v.tasks, id, r);
        let w = v.set(id, r);
        lemma_set_linked(v, w, id, r);
        assert forall|y: TaskId| #[trigger]
            w.known(y) && w.rec(y).state == TaskState::Ready && Some(id) != Some(y) implies w.rec(
            y,
        ).in_ring by {
            assert(v.known(y));
        }
        lemma_enqueue_linked(w, id);
        w.lemma_enqueue(id);
    }
}

/// A task that is registered is in the ready queue, and no other is lost, up to
/// the last slot of the table.
pub proof fn law_register_loses_nobody(v: SchedView, r: TaskRec)
    requires
        nobody_lost(v),
        !v.known(r.id),
        !sched::table_full(v.tasks),
        r.state == TaskState::Ready,
        !r.in_ring,
    ensures
        nobody_lost(v.register(r)),
        v.register(r).ready.contains(r.id),
{
    v.lemma_register(r);
    let slot = choose|i: int| sched::first_free(v.tasks, i);
    let u = SchedView { tasks: v.tasks.update(slot, Some(r)), ..v };
    assert(u.wf());
    assert(sched::holds(u.tasks, slot, r.id));
    sched::lemma_slot(u.tasks, slot, r.id);
    assert forall|x: TaskId| x != r.id implies (#[trigger] u.known(x) <==> v.known(x)) && (v.known(
        x,
    ) ==> u.rec(x) == v.rec(x)) by {
        if v.known(x) {
            sched::lemma_known(v.tasks, x);
            assert(sched::holds(u.tasks, sched::slot_of(v.tasks, x), x));
            sched::lemma_slot(u.tasks, sched::slot_of(v.tasks, x), x);
        }
        if u.known(x) {
            sched::lemma_known(u.tasks, x);
            assert(sched::holds(v.tasks, sched::slot_of(u.tasks, x), x));
        }
    }
    assert forall|x: TaskId| #[trigger] u.known(x) && u.rec(x).in_ring implies u.ready.contains(
        x,
    ) by {
        assert(x != r.id);
        assert(v.known(x));
    }
    assert forall|y: TaskId| #[trigger]
        u.known(y) && u.rec(y).state == TaskState::Ready && Some(r.id) != Some(y) implies u.rec(
        y,
    ).in_ring by {
        assert(v.known(y));
    }
    assert(linked(u));
    lemma_enqueue_linked(u, r.id);
    u.lemma_enqueue(r.id);
    if let Some(x) = v.running {
        assert(v.known(x));
        assert(u.rec(x) == v.rec(x));
    }
}

/// Taking a task out of the table loses nobody else, whether or not it leaves
/// an entry in the ready queue behind.
pub proof fn law_unregister_loses_nobody(v: SchedView, id: TaskId)
    requires
        nobody_lost(v),
        v.known(id),
    ensures
        nobody_lost(v.unregister(id)),
{
    v.lemma_unregister(id);
    let u = v.unregister(id);
    sched::lemma_known(v.tasks, id);
    assert forall|x: TaskId| x != id implies (#[trigger] u.known(x) <==> v.known(x)) && (v.known(
        x,
    ) ==> u.rec(x) == v.rec(x)) by {
        if v.known(x) {
            sched::lemma_known(v.tasks, x);
            assert(sched::holds(u.tasks, sched::slot_of(v.tasks, x), x));
            sched::lemma_slot(u.tasks, sched::slot_of(v.tasks, x), x);
        }
        if u.known(x) {
            sched::lemma_known(u.tasks, x);
            assert(sched::holds(v.tasks, sched::slot_of(u.tasks, x), x));
        }
    }
    assert forall|x: TaskId| #[trigger] u.known(x) && u.rec(x).in_ring implies u.ready.contains(
        x,
    ) by {
        assert(v.known(x));
    }
    assert forall|y: TaskId| #[trigger]
        u.known(y) && u.rec(y).state == TaskState::Ready implies u.rec(y).in_ring by {
        assert(v.known(y));
    }
    if let Some(x) = u.running {
        assert(u.known(x));
    }
}

/// A tick loses no ready task, and it leaves the CPU idle only when no task is
/// ready.
pub proof fn law_tick_loses_nobody(v: SchedView)
    requires
        nobody_lost(v),
    ensures
        nobody_lost(v.tick().0),
        v.tick().1 == SchedAction::Preempt(None) ==> v.running is None && forall|x: TaskId|
            #[trigger] v.known(x) ==> v.rec(x).state != TaskState::Ready,
{
    v.lemma_tick();
    v.lemma_advance();
    let a = v.advance();
    if v.edf() {
        lemma_map_linked(v, a, |r: TaskRec| sched::rolled(r, sched::next_count(v.ticks)));
        sched::lemma_map_recs(
            v.tasks,
            |r: TaskRec| sched::rolled(r, sched::next_count(v.ticks)),
        );
    } else {
        assert(a.tasks == v.tasks);
        assert forall|x: TaskId| #[trigger] a.known(x) && a.rec(x).in_ring implies a.ready.contains(
            x,
        ) by {
            assert(v.known(x));
        }
        assert forall|y: TaskId| #[trigger]
            a.known(y) && a.rec(y).state == TaskState::Ready implies a.rec(y).in_ring by {
            assert(v.known(y));
        }
    }
    assert forall|x: TaskId| #[trigger] v.known(x) implies a.known(x) && a.rec(x).state == v.rec(
        x,
    ).state by {}
    match v.running {
        None => {
            law_dispatch_loses_nobody(a);
            a.lemma_dispatch();
        },
        Some(id) => {
            a.lemma_charge(id);
            sched::lemma_known(a.tasks, id);
            let c = sched::charged(a.rec(id), a.edf());
            sched::lemma_with_rec(a.tasks, id, c);
            let u = a.charge(id);
            lemma_set_linked(a, u, id, c);
            assert forall|y: TaskId| #[trigger]
                u.known(y) && u.rec(y).state == TaskState::Ready implies u.rec(y).in_ring by {
                assert(a.known(y));
            }
            if u.turn_over(id) {
                u.lemma_turn_out(id);
                sched::lemma_known(u.tasks, id);
                let r = sched::turned_out(u.rec(id), u.edf());
                sched::lemma_with_rec(u.tasks, id, r);
                let w = SchedView {
                    tasks: sched::with_rec(u.tasks, id, r),
                    running_ticks: 0,
                    ..u
                };
                lemma_set_linked(u, w, id, r);
                assert forall|y: TaskId| #[trigger]
                    w.known(y) && w.rec(y).state == TaskState::Ready && Some(id) != Some(
                        y,
                    ) implies w.rec(y).in_ring by {
                    assert(u.known(y));
                }
                lemma_enqueue_linked(w, id);
                w.lemma_enqueue(id);
                let t = u.turn_out(id);
                if u.kind == PolicyKind::WeightedRoundRobin {
                    lemma_map_linked(w.enqueue(id), t, |r: TaskRec| sched::refilled(r));
                    sched::lemma_map_recs(w.enqueue(id).tasks, |r: TaskRec| sched::refilled(r));
                } else {
                    assert(t == w.enqueue(id));
                }
                assert(t.known(id) && t.rec(id).state == TaskState::Ready);
                law_dispatch_loses_nobody(t);
                t.lemma_dispatch();
            }
        },
    }
}

/// The counter stayed, or went up by one.
pub open spec fn counted(a: u64, b: u64) -> bool {
    b == a || b == sched::next_count(a)
}

/// No counter of `a` is ahead of `b`: each stayed or went up by one.
pub open spec fn grown(a: TaskStats, b: TaskStats) -> bool {
    &&& counted(a.runs, b.runs)
    &&& counted(a.preemptions, b.preemptions)
    &&& counted(a.deadline_misses, b.deadline_misses)
    &&& counted(a.budget_exhaustions, b.budget_exhaustions)
    &&& b.total_ticks == a.total_ticks || b.total_ticks == a.total_ticks + 1 || (a.total_ticks
        == u64::MAX && b.total_ticks == 1)
}

/// A dispatch counts one run, on the account of the task that it runs.
pub proof fn law_dispatch_counts_runs(v: SchedView)
    requires
        v.idle(),
    ensures
        forall|x: TaskId| #[trigger]
            v.known(x) ==> v.dispatch().0.known(x) && v.dispatch().0.rec(x).stats == (if v.dispatch().1
                == Some(x) {
                TaskStats { runs: sched::next_count(v.rec(x).stats.runs), ..v.rec(x).stats }
            } else {
                v.rec(x).stats
            }),
    decreases v.ready.len(),
{
    v.lemma_dispatch();
    if v.ready.len() > 0 {
        let head = v.ready[0];
        let rest = v.dequeue();
        v.lemma_dequeue();
        assert forall|x: TaskId| #[trigger] v.known(x) implies rest.known(x) && rest.rec(x).stats
            == v.rec(x).stats by {
            sched::lemma_known(v.tasks, x);
        }
        if !rest.known(head) || rest.rec(head).state != TaskState::Ready {
            law_dispatch_counts_runs(rest);
            assert forall|x: TaskId| #[trigger] v.known(x) implies rest.dispatch().0.known(x) by {
                assert(rest.known(x));
            }
            assert forall|x: TaskId| #[trigger] v.known(x) implies rest.dispatch().0.rec(x).stats
                == (if rest.dispatch().1 == Some(x) {
                TaskStats { runs: sched::next_count(v.rec(x).stats.runs), ..v.rec(x).stats }
            } else {
                v.rec(x).stats
            }) by {
                assert(rest.known(x));
            }
        } else {
            rest.lemma_choice(head);
            let c = rest.choice(head);
            let mid = if c == head {
                rest
            } else {
                rest.enqueue(head)
            };
            if c != head {
                rest.lemma_enqueue(head);
                sched::lemma_known(rest.tasks, head);
                sched::lemma_with_rec(
                    rest.tasks,
                    head,
                    TaskRec { state: TaskState::Ready, in_ring: true, ..rest.rec(head) },
                );
            }
            assert forall|x: TaskId| #[trigger] v.known(x) implies mid.known(x) && mid.rec(x).stats
                == v.rec(x).stats by {
                assert(rest.known(x));
            }
            mid.lemma_run(c);
            sched::lemma_known(mid.tasks, c);
            sched::lemma_with_rec(mid.tasks, c, sched::started(mid.rec(c), mid.edf()));
            assert forall|x: TaskId| #[trigger] v.known(x) implies mid.run(c).known(x) && mid.run(
                c,
            ).rec(x).stats == (if c == x {
                TaskStats { runs: sched::next_count(v.rec(x).stats.runs), ..v.rec(x).stats }
            } else {
                v.rec(x).stats
            }) by {
                assert(mid.known(x));
            }
        }
    }
}

/// A tick never takes a count back: each counter of each task stays or goes
/// up by one.
pub proof fn law_tick_counts_up(v: SchedView)
    requires
        v.wf(),
    ensures
        forall|x: TaskId| #[trigger]
            v.known(x) ==> v.tick().0.known(x) && grown(v.rec(x).stats, v.tick().0.rec(x).stats),
{
    v.lemma_tick();
    v.lemma_advance();
    let a = v.advance();
    let f = |r: TaskRec| sched::rolled(r, sched::next_count(v.ticks));
    if v.edf() {
        sched::lemma_map_recs(v.tasks, f);
    }
    assert forall|x: TaskId| #[trigger] v.known(x) implies a.known(x) && (a.rec(x).stats == v.rec(
        x,
    ).stats || a.rec(x).stats == TaskStats {
        deadline_misses: sched::next_count(v.rec(x).stats.deadline_misses),
        ..v.rec(x).stats
    }) by {
        sched::lemma_known(v.tasks, x);
    }
    match v.running {
        None => {
            law_dispatch_counts_runs(a);
            assert forall|x: TaskId| #[trigger] v.known(x) implies a.dispatch().0.known(x) && grown(
                v.rec(x).stats,
                a.dispatch().0.rec(x).stats,
            ) by {
                assert(a.known(x));
            }
        },
        Some(id) => {
            a.lemma_charge(id);
            sched::lemma_known(a.tasks, id);
            sched::lemma_with_rec(a.tasks, id, sched::charged(a.rec(id), a.edf()));
            let u = a.charge(id);
            assert forall|x: TaskId| #[trigger] v.known(x) implies u.known(x) && u.rec(x).stats == (
            if x == id {
                sched::charged(a.rec(x), a.edf()).stats
            } else {
                a.rec(x).stats
            }) by {
                assert(a.known(x));
            }
            if u.turn_over(id) {
                u.lemma_turn_out(id);
                sched::lemma_known(u.tasks, id);
                let r = sched::turned_out(u.rec(id), u.edf());
                sched::lemma_with_rec(u.tasks, id, r);
                let w = SchedView {
                    tasks: sched::with_rec(u.tasks, id, r),
                    running_ticks: 0,
                    ..u
                };
                assert(w.known(id) && w.rec(id).state == TaskState::Ready);
                sched::lemma_with_rec(
                    w.tasks,
                    id,
                    TaskRec { state: TaskState::Ready, in_ring: true, ..w.rec(id) },
                );
                let e = w.enqueue(id);
                assert forall|x: TaskId| #[trigger] u.known(x) implies e.known(x) && e.rec(x).stats
                    == w.rec(x).stats by {
                    assert(w.known(x));
                }
                let t = u.turn_out(id);
                if u.kind == PolicyKind::WeightedRoundRobin {
                    sched::lemma_map_recs(e.tasks, |r: TaskRec| sched::refilled(r));
                }
                assert forall|x: TaskId| #[trigger] u.known(x) implies t.known(x) && t.rec(x).stats
                    == (if x == id {
                    sched::turned_out(u.rec(x), u.edf()).stats
                } else {
                    u.rec(x).stats
                }) by {
                    assert(e.known(x));
                }
                law_dispatch_counts_runs(t);
                assert forall|x: TaskId| #[trigger] v.known(x) implies t.dispatch().0.known(x)
                    && grown(v.rec(x).stats, t.dispatch().0.rec(x).stats) by {
                    assert(u.known(x));
                    assert(t.known(x));
                }
            }
        },
    }
}

/// A task that leaves the CPU stays registered, no other comes or goes, and
/// the clock stands.
pub proof fn law_leave_keeps_tasks(v: SchedView, id: TaskId, state: TaskState)
    requires
        v.wf(),
        state == TaskState::Blocked || state == TaskState::Finished,
    ensures
        forall|x: TaskId| #[trigger] v.leave(id, state).0.known(x) <==> v.known(x),
        v.leave(id, state).0.ticks == v.ticks,
        v.leave(id, state).0.kind == v.kind,
        v.leave(id, state).1 matches Some(n) ==> v.leave(id, state).0.running == Some(n)
            && v.known(n),
        v.running == Some(id) && v.leave(id, state).1 is None ==> v.leave(
            id,
            state,
        ).0.running is None,
        v.running != Some(id) ==> v.leave(id, state).0.running == v.running,
{
    v.lemma_leave(id, state);
    let r = TaskRec { state, ..v.rec(id) };
    if v.known(id) {
        sched::lemma_known(v.tasks, id);
    }
    sched::lemma_with_rec(v.tasks, id, r);
    let w = v.set(id, r);
    assert forall|x: TaskId| #[trigger] w.known(x) <==> v.known(x) by {}
    if v.running == Some(id) {
        let u = SchedView { running: None, running_ticks: 0, ..w };
        u.lemma_dispatch();
        assert forall|x: TaskId| #[trigger] u.dispatch().0.known(x) <==> v.known(x) by {
            assert(u.known(x) <==> w.known(x));
        }
    }
}

/// Waking a task adds and removes none, and leaves the runner and the clock.
pub proof fn law_wake_keeps_tasks(v: SchedView, id: TaskId)
    requires
        v.wf(),
    ensures
        forall|x: TaskId| #[trigger] v.wake(id).known(x) <==> v.known(x),
        v.wake(id).ticks == v.ticks,
        v.wake(id).kind == v.kind,
        v.wake(id).running == v.running,
{
    v.lemma_wake(id);
    if v.known(id) && v.rec(id).state == TaskState::Blocked {
        sched::lemma_known(v.tasks, id);
        let r = TaskRec { state: TaskState::Ready, ..v.rec(id) };
        sched::lemma_with_rec(v.tasks, id, r);
        let w = v.set(id, r);
        assert(w.known(id));
        sched::lemma_with_rec(
            w.tasks,
            id,
            TaskRec { state: TaskState::Ready, in_ring: true, ..w.rec(id) },
        );
        assert forall|x: TaskId| #[trigger] w.enqueue(id).known(x) <==> v.known(x) by {
            assert(w.known(x) <==> v.known(x));
        }
    }
}

/// A tick adds and removes no task, and moves the clock by one.
pub proof fn law_tick_keeps_tasks(v: SchedView)
    requires
        v.wf(),
    ensures
        forall|x: TaskId| #[trigger] v.tick().0.known(x) <==> v.known(x),
        v.tick().0.ticks == sched::next_count(v.ticks),
        v.tick().0.kind == v.kind,
        v.tick().1 matches SchedAction::Preempt(Some(n)) ==> v.tick().0.running == Some(n)
            && v.known(n),
        v.tick().1 == SchedAction::Continue ==> v.tick().0.running == v.running,
{
    v.lemma_tick();
    v.lemma_advance();
    let a = v.advance();
    match v.running {
        None => {
            a.lemma_dispatch();
            assert forall|x: TaskId| #[trigger] a.dispatch().0.known(x) <==> v.known(x) by {
                assert(a.known(x) <==> v.known(x));
            }
            if let Some(n) = a.dispatch().1 {
                assert(a.known(n));
            }
        },
        Some(id) => {
            a.lemma_charge(id);
            sched::lemma_known(a.tasks, id);
            sched::lemma_with_rec(a.tasks, id, sched::charged(a.rec(id), a.edf()));
            let u = a.charge(id);
            assert forall|x: TaskId| #[trigger] u.known(x) <==> v.known(x) by {
                assert(a.known(x) <==> v.known(x));
            }
            if u.turn_over(id) {
                u.lemma_turn_out(id);
                sched::lemma_known(u.tasks, id);
                let r = sched::turned_out(u.rec(id), u.edf());
                sched::lemma_with_rec(u.tasks, id, r);
                let w = SchedView {
                    tasks: sched::with_rec(u.tasks, id, r),
                    running_ticks: 0,
                    ..u
                };
                w.lemma_enqueue(id);
                let e = w.enqueue(id);
                let t = u.turn_out(id);
                if u.kind == PolicyKind::WeightedRoundRobin {
                    sched::lemma_map_recs(e.tasks, |r: TaskRec| sched::refilled(r));
                }
                assert forall|x: TaskId| #[trigger] t.known(x) <==> v.known(x) by {
                    assert(u.known(x) <==> v.known(x));
                    assert(w.known(x) <==> u.known(x));
                    assert(e.known(x) <==> w.known(x));
                }
                t.lemma_dispatch();
                assert forall|x: TaskId| #[trigger] t.dispatch().0.known(x) <==> v.known(x) by {
                    assert(t.known(x) <==> v.known(x));
                }
                if let Some(n) = t.dispatch().1 {
                    assert(t.known(n));
                }
            }
        },
    }
}

/// A registration adds the one task, and leaves the runner and the clock.
pub proof fn law_register_adds_one(v: SchedView, r: TaskRec)
    requires
        v.wf(),
        !v.known(r.id),
        !sched::table_full(v.tasks),
        r.state == TaskState::Ready,
    ensures
        forall|x: TaskId| #[trigger] v.register(r).known(x) <==> v.known(x) || x == r.id,
        v.register(r).ticks == v.ticks,
        v.register(r).kind == v.kind,
        v.register(r).running == v.running,
{
    v.lemma_register(r);
    let slot = choose|i: int| sched::first_free(v.tasks, i);
    let u = SchedView { tasks: v.tasks.update(slot, Some(r)), ..v };
    assert(u.wf());
    assert(sched::holds(u.tasks, slot, r.id));
    u.lemma_enqueue(r.id);
    assert(sched::holds(u.tasks, slot, r.id));
    assert forall|x: TaskId| #[trigger] u.enqueue(r.id).known(x) <==> v.known(x) || x == r.id by {
        assert(u.enqueue(r.id).known(x) <==> u.known(x));
        if v.known(x) {
            sched::lemma_known(v.tasks, x);
            assert(sched::holds(u.tasks, sched::slot_of(v.tasks, x), x));
        }
        if u.known(x) && x != r.id {
            sched::lemma_known(u.tasks, x);
            assert(sched::holds(v.tasks, sched::slot_of(u.tasks, x), x));
        }
    }
}

/// The table is full when as many tasks are registered as it has slots.
pub proof fn law_full_table_is_all_occupied(tasks: Seq<Option<TaskRec>>)
    ensures
        sched::occupied(tasks) <= tasks.len(),
        sched::table_full(tasks) <==> sched::occupied(tasks) == tasks.len(),
    decreases tasks.len(),
{
    if tasks.len() > 0 {
        let short = tasks.drop_last();
        law_full_table_is_all_occupied(short);
        if sched::table_full(tasks) {
            assert forall|i: int| 0 <= i < short.len() implies #[trigger] short[i] is Some by {
                assert(tasks[i] is Some);
            }
            assert(tasks[tasks.len() - 1] is Some);
        }
        if sched::table_full(short) && tasks.last() is Some {
            assert forall|i: int| 0 <= i < tasks.len() implies #[trigger] tasks[i] is Some by {
                if i < short.len() {
                    assert(short[i] is Some);
                }
            }
        }
    }
}

/// The task has finished.
pub open spec fn done(v: SchedView, x: TaskId) -> bool {
    v.known(x) && v.rec(x).state == TaskState::Finished
}

/// A dispatch never revives a finished task.
pub proof fn law_dispatch_keeps_finished(v: SchedView)
    requires
        v.idle(),
    ensures
        forall|x: TaskId| #[trigger] done(v, x) ==> done(v.dispatch().0, x),
    decreases v.ready.len(),
{
    v.lemma_dispatch();
    if v.ready.len() > 0 {
        let head = v.ready[0];
        let rest = v.dequeue();
        v.lemma_dequeue();
        assert forall|x: TaskId| #[trigger] done(v, x) implies done(rest, x) by {
            assert(rest.known(x));
        }
        if !rest.known(head) || rest.rec(head).state != TaskState::Ready {
            law_dispatch_keeps_finished(rest);
        } else {
            rest.lemma_choice(head);
            let c = rest.choice(head);
            let mid = if c == head {
                rest
            } else {
                rest.enqueue(head)
            };
            if c != head {
                rest.lemma_enqueue(head);
            }
            assert forall|x: TaskId| #[trigger] done(rest, x) implies done(mid, x) by {
                assert(mid.known(x));
                assert(x != head);
            }
            mid.lemma_run(c);
            assert forall|x: TaskId| #[trigger] done(v, x) implies done(mid.run(c), x) by {
                assert(done(rest, x));
                assert(done(mid, x));
                assert(mid.run(c).known(x));
                assert(x != c);
            }
        }
    }
}

/// A task that finishes is finished, and one that leaves the CPU revives no
/// other.
pub proof fn law_leave_keeps_finished(v: SchedView, id: TaskId, state: TaskState)
    requires
        v.wf(),
        state == TaskState::Blocked || state == TaskState::Finished,
    ensures
        forall|x: TaskId| #[trigger] done(v, x) && x != id ==> done(v.leave(id, state).0, x),
        state == TaskState::Finished && v.known(id) ==> done(v.leave(id, state).0, id),
{
    v.lemma_leave(id, state);
    let r = TaskRec { state, ..v.rec(id) };
    if v.known(id) {
        sched::lemma_known(v.tasks, id);
    }
    sched::lemma_with_rec(v.tasks, id, r);
    let w = v.set(id, r);
    assert forall|x: TaskId| #[trigger] done(v, x) && x != id implies done(w, x) by {
        assert(w.known(x));
    }
    if state == TaskState::Finished && v.known(id) {
        assert(w.known(id));
        assert(done(w, id));
    }
    if v.running == Some(id) {
        let u = SchedView { running: None, running_ticks: 0, ..w };
        law_dispatch_keeps_finished(u);
        assert forall|x: TaskId| #[trigger] done(w, x) implies done(u.dispatch().0, x) by {
            assert(u.known(x));
            assert(done(u, x));
        }
    }
}

/// Waking never revives a finished task.
pub proof fn law_wake_keeps_finished(v: SchedView, id: TaskId)
    requires
        v.wf(),
    ensures
        forall|x: TaskId| #[trigger] done(v, x) ==> done(v.wake(id), x),
{
    v.lemma_wake(id);
    if v.known(id) && v.rec(id).state == TaskState::Blocked {
        sched::lemma_known(v.tasks, id);
        let r = TaskRec { state: TaskState::Ready, ..v.rec(id) };
        sched::lemma_with_rec(v.tasks, id, r);
        let w = v.set(id, r);
        assert(w.known(id));
        sched::lemma_with_rec(
            w.tasks,
            id,
            TaskRec { state: TaskState::Ready, in_ring: true, ..w.rec(id) },
        );
        assert forall|x: TaskId| #[trigger] done(v, x) implies done(w.enqueue(id), x) by {
            assert(x != id);
            assert(w.known(x));
            assert(w.enqueue(id).known(x));
        }
    }
}

/// A tick never revives a finished task.
pub proof fn law_tick_keeps_finished(v: SchedView)
    requires
        v.wf(),
    ensures
        forall|x: TaskId| #[trigger] done(v, x) ==> done(v.tick().0, x),
{
    v.lemma_tick();
    v.lemma_advance();
    let a = v.advance();
    if v.edf() {
        sched::lemma_map_recs(
            v.tasks,
            |r: TaskRec| sched::rolled(r, sched::next_count(v.ticks)),
        );
    }
    assert forall|x: TaskId| #[trigger] done(v, x) implies done(a, x) by {
        assert(a.known(x));
    }
    match v.running {
        None => {
            law_dispatch_keeps_finished(a);
            assert forall|x: TaskId| #[trigger] done(v, x) implies done(a.dispatch().0, x) by {
                assert(done(a, x));
            }
        },
        Some(id) => {
            assert(v.known(id) && !done(v, id));
            assert(a.known(id));
            a.lemma_charge(id);
            sched::lemma_known(a.tasks, id);
            sched::lemma_with_rec(a.tasks, id, sched::charged(a.rec(id), a.edf()));
            let u = a.charge(id);
            assert forall|x: TaskId| #[trigger] done(v, x) implies done(u, x) && x != id by {
                assert(done(a, x));
                assert(u.known(x));
            }
            if u.turn_over(id) {
                u.lemma_turn_out(id);
                sched::lemma_known(u.tasks, id);
                let r = sched::turned_out(u.rec(id), u.edf());
                sched::lemma_with_rec(u.tasks, id, r);
                let w = SchedView {
                    tasks: sched::with_rec(u.tasks, id, r),
                    running_ticks: 0,
                    ..u
                };
                w.lemma_enqueue(id);
                let e = w.enqueue(id);
                let t = u.turn_out(id);
                if u.kind == PolicyKind::WeightedRoundRobin {
                    sched::lemma_map_recs(e.tasks, |r: TaskRec| sched::refilled(r));
                }
                assert forall|x: TaskId| #[trigger] done(v, x) implies done(t, x) by {
                    assert(done(u, x));
                    assert(w.known(x));
                    assert(done(w, x));
                    assert(e.known(x));
                    assert(done(e, x));
                    assert(t.known(x));
                }
                law_dispatch_keeps_finished(t);
                assert forall|x: TaskId| #[trigger] done(v, x) implies done(
                    t.dispatch().0,
                    x,
                ) by {
                    assert(done(t, x));
                }
            }
        },
    }
}

/// A registration leaves every other task's record as it is.
pub proof fn law_register_keeps_records(v: SchedView, r: TaskRec)
    requires
        v.wf(),
        !v.known(r.id),
        !sched::table_full(v.tasks),
        r.state == TaskState::Ready,
    ensures
        forall|x: TaskId| #[trigger]
            v.known(x) ==> v.register(r).known(x) && v.register(r).rec(x) == v.rec(x),
{
    v.lemma_register(r);
    let slot = choose|i: int| sched::first_free(v.tasks, i);
    let u = SchedView { tasks: v.tasks.update(slot, Some(r)), ..v };
    assert(u.wf());
    assert(sched::holds(u.tasks, slot, r.id));
    u.lemma_enqueue(r.id);
    assert forall|x: TaskId| #[trigger] v.known(x) implies u.enqueue(r.id).known(x) && u.enqueue(
        r.id,
    ).rec(x) == v.rec(x) by {
        sched::lemma_known(v.tasks, x);
        assert(sched::holds(u.tasks, sched::slot_of(v.tasks, x), x));
        sched::lemma_slot(u.tasks, sched::slot_of(v.tasks, x), x);
        assert(u.known(x));
    }
}

/// A registration puts the task into the lowest free slot and at the end of
/// the ready queue.
pub proof fn law_register_effect(v: SchedView, r: TaskRec, i: int)
    requires
        v.wf(),
        !v.known(r.id),
        sched::first_free(v.tasks, i),
        v.ready.len() < RING_CAPACITY,
        r.state == TaskState::Ready,
        !r.in_ring,
    ensures
        v.register(r).tasks == v.tasks.update(i, Some(TaskRec { in_ring: true, ..r })),
        v.register(r).ready == v.ready.push(r.id),
{
    let slot = choose|i: int| sched::first_free(v.tasks, i);
    assert(sched::first_free(v.tasks, slot));
    assert(slot == i) by {
        if slot < i {
            assert(v.tasks[slot] is Some);
        } else if i < slot {
            assert(v.tasks[i] is Some);
        }
    }
    v.lemma_register_at(r, i);
    let u = SchedView { tasks: v.tasks.update(i, Some(r)), ..v };
    assert(sched::holds(u.tasks, i, r.id));
    sched::lemma_slot(u.tasks, i, r.id);
    assert(u.enqueue(r.id).tasks =~= v.tasks.update(i, Some(TaskRec { in_ring: true, ..r })));
}

/// With two tasks ready and the CPU idle, a tick runs the first; when that one
/// blocks, the CPU goes to the second.
pub proof fn law_block_runs_the_next(v: SchedView, a: TaskId, b: TaskId)
    requires
        v.wf(),
        !v.edf(),
        v.running is None,
        v.ready == seq![a, b],
        a != b,
        v.known(a),
        v.known(b),
        v.rec(a).state == TaskState::Ready,
        v.rec(b).state == TaskState::Ready,
    ensures
        v.tick().1 == SchedAction::Preempt(Some(a)),
        v.tick().0.running == Some(a),
        v.tick().0.leave(a, TaskState::Blocked).1 == Some(b),
        v.tick().0.leave(a, TaskState::Blocked).0.running == Some(b),
{
    v.lemma_advance();
    let w = v.advance();
    assert(w.tasks == v.tasks);
    let rest = w.dequeue();
    w.lemma_dequeue();
    assert(w.known(a) && w.known(b));
    assert(rest.known(a) && rest.known(b));
    assert(rest.rec(a).state == TaskState::Ready && rest.rec(b).state == TaskState::Ready);
    assert(w.dispatch() == (rest.run(a), Some(a)));
    rest.lemma_run(a);
    let t = rest.run(a);
    assert(t.known(a) && t.known(b));
    assert(t.rec(b).state == TaskState::Ready);
    t.lemma_leave(a, TaskState::Blocked);
    let r = TaskRec { state: TaskState::Blocked, ..t.rec(a) };
    sched::lemma_known(t.tasks, a);
    sched::lemma_with_rec(t.tasks, a, r);
    let u = SchedView { running: None, running_ticks: 0, ..t.set(a, r) };
    assert(u.ready =~= seq![b]);
    assert(u.known(b) && u.rec(b) == t.rec(b));
    u.lemma_dequeue();
    let d = u.dequeue();
    assert(d.known(b) && d.rec(b).state == TaskState::Ready);
    assert(u.dispatch() == (d.run(b), Some(b)));
}

/// Waking a task blocks no other, and leaves it not blocked itself.
pub proof fn law_wake_blocks_nobody(v: SchedView, id: TaskId)
    requires
        v.wf(),
    ensures
        forall|x: TaskId| #[trigger]
            v.known(x) && v.rec(x).state != TaskState::Blocked ==> v.wake(id).rec(x).state
                != TaskState::Blocked,
        v.known(id) ==> v.wake(id).rec(id).state != TaskState::Blocked,
{
    v.lemma_wake(id);
    if v.known(id) && v.rec(id).state == TaskState::Blocked {
        sched::lemma_known(v.tasks, id);
        let r = TaskRec { state: TaskState::Ready, ..v.rec(id) };
        sched::lemma_with_rec(v.tasks, id, r);
        let w = v.set(id, r);
        assert(w.known(id));
        sched::lemma_with_rec(
            w.tasks,
            id,
            TaskRec { state: TaskState::Ready, in_ring: true, ..w.rec(id) },
        );
        assert forall|x: TaskId| #[trigger]
            v.known(x) && v.rec(x).state != TaskState::Blocked implies w.enqueue(id).rec(x).state
            != TaskState::Blocked by {
            assert(w.known(x));
        }
    }
}

/// A task that was registered is ready.
pub proof fn law_registered_is_ready(v: SchedView, r: TaskRec)
    requires
        v.wf(),
        !v.known(r.id),
        !sched::table_full(v.tasks),
        r.state == TaskState::Ready,
    ensures
        v.register(r).known(r.id),
        v.register(r).rec(r.id).state == TaskState::Ready,
{
    v.lemma_register(r);
    let slot = choose|i: int| sched::first_free(v.tasks, i);
    let u = SchedView { tasks: v.tasks.update(slot, Some(r)), ..v };
    assert(u.wf());
    assert(sched::holds(u.tasks, slot, r.id));
    sched::lemma_slot(u.tasks, slot, r.id);
    sched::lemma_with_rec(
        u.tasks,
        r.id,
        TaskRec { state: TaskState::Ready, in_ring: true, ..u.rec(r.id) },
    );
    u.lemma_enqueue(r.id);
}

/// When the runner leaves the CPU while another task is ready, there is a next
/// task to run.
pub proof fn law_leaving_finds_the_next(v: SchedView, id: TaskId, state: TaskState, x: TaskId)
    requires
        nobody_lost(v),
        state == TaskState::Blocked || state == TaskState::Finished,
        v.running == Some(id),
        v.known(x),
        x != id,
        v.rec(x).state == TaskState::Ready,
    ensures
        v.leave(id, state).1 is Some,
        v.leave(id, state).0.running == v.leave(id, state).1,
{
    v.lemma_leave(id, state);
    sched::lemma_known(v.tasks, id);
    let r = TaskRec { state, ..v.rec(id) };
    sched::lemma_with_rec(v.tasks, id, r);
    let u = SchedView { running: None, running_ticks: 0, ..v.set(id, r) };
    lemma_set_linked(v, u, id, r);
    assert forall|y: TaskId| #[trigger]
        u.known(y) && u.rec(y).state == TaskState::Ready implies u.rec(y).in_ring by {
        assert(v.known(y));
    }
    law_dispatch_loses_nobody(u);
    u.lemma_dispatch();
    assert(u.known(x) && u.rec(x).state == TaskState::Ready);
}

/// The task runs or is ready to.
pub open spec fn runnable(v: SchedView, x: TaskId) -> bool {
    v.known(x) && (v.rec(x).state == TaskState::Ready || v.rec(x).state == TaskState::Running)
}

/// A dispatch leaves every task that can run able to.
pub proof fn law_dispatch_keeps_runnable(v: SchedView)
    requires
        v.idle(),
    ensures
        forall|x: TaskId| #[trigger] runnable(v, x) ==> runnable(v.dispatch().0, x),
    decreases v.ready.len(),
{
    v.lemma_dispatch();
    if v.ready.len() > 0 {
        let head = v.ready[0];
        let rest = v.dequeue();
        v.lemma_dequeue();
        assert forall|x: TaskId| #[trigger] runnable(v, x) implies runnable(rest, x) by {
            assert(rest.known(x));
        }
        if !rest.known(head) || rest.rec(head).state != TaskState::Ready {
            law_dispatch_keeps_runnable(rest);
        } else {
            rest.lemma_choice(head);
            let c = rest.choice(head);
            let mid = if c == head {
                rest
            } else {
                rest.enqueue(head)
            };
            if c != head {
                rest.lemma_enqueue(head);
                sched::lemma_known(rest.tasks, head);
                sched::lemma_with_rec(
                    rest.tasks,
                    head,
                    TaskRec { state: TaskState::Ready, in_ring: true, ..rest.rec(head) },
                );
            }
            assert forall|x: TaskId| #[trigger] runnable(rest, x) implies runnable(mid, x) by {
                assert(mid.known(x));
            }
            mid.lemma_run(c);
            assert forall|x: TaskId| #[trigger] runnable(v, x) implies runnable(mid.run(c), x) by {
                assert(runnable(rest, x));
                assert(runnable(mid, x));
                assert(mid.run(c).known(x));
            }
        }
    }
}

/// A task that blocks or finishes leaves every other that can run able to.
pub proof fn law_leave_keeps_runnable(v: SchedView, id: TaskId, state: TaskState)
    requires
        v.wf(),
        state == TaskState::Blocked || state == TaskState::Finished,
    ensures
        forall|x: TaskId| #[trigger]
            runnable(v, x) && x != id ==> runnable(v.leave(id, state).0, x),
{
    v.lemma_leave(id, state);
    let r = TaskRec { state, ..v.rec(id) };
    if v.known(id) {
        sched::lemma_known(v.tasks, id);
    }
    sched::lemma_with_rec(v.tasks, id, r);
    let w = v.set(id, r);
    assert forall|x: TaskId| #[trigger] runnable(v, x) && x != id implies runnable(w, x) by {
        assert(w.known(x));
    }
    if v.running == Some(id) {
        let u = SchedView { running: None, running_ticks: 0, ..w };
        law_dispatch_keeps_runnable(u);
        assert forall|x: TaskId| #[trigger] runnable(w, x) implies runnable(u.dispatch().0, x) by {
            assert(u.known(x));
            assert(runnable(u, x));
        }
    }
}

/// Waking a task leaves every task that can run able to.
pub proof fn law_wake_keeps_runnable(v: SchedView, id: TaskId)
    requires
        v.wf(),
    ensures
        forall|x: TaskId| #[trigger] runnable(v, x) ==> runnable(v.wake(id), x),
{
    v.lemma_wake(id);
    if v.known(id) && v.rec(id).state == TaskState::Blocked {
        sched::lemma_known(v.tasks, id);
        let r = TaskRec { state: TaskState::Ready, ..v.rec(id) };
        sched::lemma_with_rec(v.tasks, id, r);
        let w = v.set(id, r);
        assert(w.known(id));
        w.lemma_enqueue(id);
        assert forall|x: TaskId| #[trigger] runnable(v, x) implies runnable(w.enqueue(id), x) by {
            assert(x != id);
            assert(w.known(x));
            assert(w.enqueue(id).known(x));
        }
    }
}

/// A tick leaves every task that can run able to.
pub proof fn law_tick_keeps_runnable(v: SchedView)
    requires
        v.wf(),
    ensures
        forall|x: TaskId| #[trigger] runnable(v, x) ==> runnable(v.tick().0, x),
{
    v.lemma_tick();
    v.lemma_advance();
    let a = v.advance();
    if v.edf() {
        sched::lemma_map_recs(
            v.tasks,
            |r: TaskRec| sched::rolled(r, sched::next_count(v.ticks)),
        );
    }
    assert forall|x: TaskId| #[trigger] runnable(v, x) implies runnable(a, x) by {
        assert(a.known(x));
    }
    match v.running {
        None => {
            law_dispatch_keeps_runnable(a);
            assert forall|x: TaskId| #[trigger] runnable(v, x) implies runnable(
                a.dispatch().0,
                x,
            ) by {
                assert(runnable(a, x));
            }
        },
        Some(id) => {
            assert(v.known(id) && a.known(id));
            a.lemma_charge(id);
            sched::lemma_known(a.tasks, id);
            sched::lemma_with_rec(a.tasks, id, sched::charged(a.rec(id), a.edf()));
            let u = a.charge(id);
            assert forall|x: TaskId| #[trigger] runnable(v, x) implies runnable(u, x) by {
                assert(runnable(a, x));
                assert(u.known(x));
            }
            if u.turn_over(id) {
                u.lemma_turn_out(id);
                sched::lemma_known(u.tasks, id);
                let r = sched::turned_out(u.rec(id), u.edf());
                sched::lemma_with_rec(u.tasks, id, r);
                let w = SchedView {
                    tasks: sched::with_rec(u.tasks, id, r),
                    running_ticks: 0,
                    ..u
                };
                assert(w.known(id));
                w.lemma_enqueue(id);
                sched::lemma_known(w.tasks, id);
                sched::lemma_with_rec(
                    w.tasks,
                    id,
                    TaskRec { state: TaskState::Ready, in_ring: true, ..w.rec(id) },
                );
                let e = w.enqueue(id);
                let t = u.turn_out(id);
                if u.kind == PolicyKind::WeightedRoundRobin {
                    sched::lemma_map_recs(e.tasks, |r: TaskRec| sched::refilled(r));
                }
                assert forall|x: TaskId| #[trigger] runnable(v, x) implies runnable(t, x) by {
                    assert(runnable(u, x));
                    assert(w.known(x));
                    assert(runnable(w, x));
                    assert(e.known(x));
                    assert(runnable(e, x));
                    assert(t.known(x));
                }
                law_dispatch_keeps_runnable(t);
                assert forall|x: TaskId| #[trigger] runnable(v, x) implies runnable(
                    t.dispatch().0,
                    x,
                ) by {
                    assert(runnable(t, x));
                }
            }
        },
    }
}

} // verus!
