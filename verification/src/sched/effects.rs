//! What the operations of the scheduler do to the records of the tasks, count
//! by count, and what EDF comes to over many ticks.

use vstd::prelude::*;
use crate::config::SchedPolicy;
use crate::sched;
use crate::sched::fairness::after;
use crate::sched::laws::live_entry;
use crate::sched::{
    Deadline, PolicyKind, SchedAction, SchedView, TaskId, TaskRec, TaskState, TaskStats,
};

verus! {

/// Numbers are kept modulo this.
pub open spec fn modulus() -> int {
    0x1_0000_0000_0000_0000
}

/// 1 if it is so.
pub open spec fn one_if(b: bool) -> int {
    if b {
        1
    } else {
        0
    }
}

/// The deadline of an unfinished EDF task has come at the next tick.
pub open spec fn falls_due(v: SchedView, x: TaskId) -> bool {
    &&& v.kind == PolicyKind::EarliestDeadlineFirst
    &&& v.rec(x).deadline is Some
    &&& v.rec(x).state != TaskState::Finished
    &&& (v.ticks + 1) % modulus() >= v.rec(x).next_deadline_ticks
}

/// The budget that an EDF task has left after one more tick, before anybody is
/// dispatched: a new period brings a full one, and a tick of execution costs
/// one.
pub open spec fn budget_left(v: SchedView, x: TaskId) -> int {
    let r = v.rec(x);
    let b = if falls_due(v, x) {
        r.deadline->0.budget as int
    } else {
        r.budget_remaining_ticks as int
    };
    if v.kind == PolicyKind::EarliestDeadlineFirst && v.running == Some(x) && b > 0 {
        b - 1
    } else {
        b
    }
}

/// The two records are of the same task with the same parameters.
pub open spec fn same_task(a: TaskRec, b: TaskRec) -> bool {
    a.id == b.id && a.priority == b.priority && a.weight == b.weight && a.deadline == b.deadline
}

/// EDF may run `a` while `b` is ready: a task with a deadline goes before one
/// without, an earlier deadline before a later one, and of equal ones the
/// higher priority.
pub open spec fn may_run_before(a: TaskRec, b: TaskRec) -> bool {
    match (a.deadline, b.deadline) {
        (Some(_), Some(_)) => a.next_deadline_ticks < b.next_deadline_ticks || (
        a.next_deadline_ticks == b.next_deadline_ticks && a.priority >= b.priority),
        (Some(_), None) => true,
        (None, Some(_)) => false,
        (None, None) => a.priority >= b.priority,
    }
}

/// What a dispatch does to the records.
proof fn lemma_dispatch_records(v: SchedView)
    requires
        v.idle(),
    ensures
        forall|x: TaskId| #[trigger]
            v.known(x) ==> v.dispatch().0.known(x) && v.dispatch().0.rec(x) == (TaskRec {
                in_ring: v.dispatch().0.rec(x).in_ring,
                ..(if v.dispatch().1 == Some(x) {
                    sched::started(v.rec(x), v.edf())
                } else {
                    v.rec(x)
                })
            }),
        v.dispatch().1 is Some ==> v.dispatch().0.running_ticks == 0,
        v.dispatch().1 is None ==> v.dispatch().0.running_ticks == v.running_ticks,
    decreases v.ready.len(),
{
    v.lemma_dispatch();
    if v.ready.len() > 0 {
        let head = v.ready[0];
        let rest = v.dequeue();
        v.lemma_dequeue();
        assert forall|x: TaskId| #[trigger] v.known(x) implies rest.known(x) && rest.rec(x) == (
        TaskRec { in_ring: rest.rec(x).in_ring, ..v.rec(x) }) by {}
        if !rest.known(head) || rest.rec(head).state != TaskState::Ready {
            lemma_dispatch_records(rest);
            assert forall|x: TaskId| #[trigger] v.known(x) implies v.dispatch().0.known(x)
                && v.dispatch().0.rec(x) == (TaskRec {
                in_ring: v.dispatch().0.rec(x).in_ring,
                ..(if v.dispatch().1 == Some(x) {
                    sched::started(v.rec(x), v.edf())
                } else {
                    v.rec(x)
                })
            }) by {
                assert(rest.known(x));
            }
        } else {
            rest.lemma_choice(head);
            let c = rest.choice(head);
            let mid = if c == head {
                rest
            } else {
                rest.enqueue(head)
            };
            if c != head {
                rest.lemma_enqueue(head);
                sched::lemma_known(rest.tasks, head);
                sched::lemma_with_rec(
                    rest.tasks,
                    head,
                    TaskRec { state: TaskState::Ready, in_ring: true, ..rest.rec(head) },
                );
            }
            assert forall|x: TaskId| #[trigger] v.known(x) implies mid.known(x) && mid.rec(x) == (
            TaskRec { in_ring: mid.rec(x).in_ring, ..v.rec(x) }) by {
                assert(rest.known(x));
            }
            mid.lemma_run(c);
            assert forall|x: TaskId| #[trigger] v.known(x) implies v.dispatch().0.known(x)
                && v.dispatch().0.rec(x) == (TaskRec {
                in_ring: v.dispatch().0.rec(x).in_ring,
                ..(if v.dispatch().1 == Some(x) {
                    sched::started(v.rec(x), v.edf())
                } else {
                    v.rec(x)
                })
            }) by {
                assert(mid.known(x));
            }
        }
    }
}

/// What the clock does to the records.
proof fn lemma_advance_records(v: SchedView)
    requires
        v.wf(),
    ensures
        forall|x: TaskId| #[trigger]
            v.known(x) ==> v.advance().known(x) && v.advance().rec(x) == (if v.edf() {
                sched::rolled(v.rec(x), sched::next_count(v.ticks))
            } else {
                v.rec(x)
            }),
{
    v.lemma_advance();
    if v.edf() {
        sched::lemma_map_recs(
            v.tasks,
            |r: TaskRec| sched::rolled(r, sched::next_count(v.ticks)),
        );
    }
}

/// What the end of a turn does to the records, before anybody is dispatched.
proof fn lemma_turn_out_records(u: SchedView, id: TaskId)
    requires
        u.wf(),
        u.running == Some(id),
    ensures
        u.turn_out(id).idle(),
        u.turn_out(id).kind == u.kind,
        u.turn_out(id).quantum == u.quantum,
        u.turn_out(id).ticks == u.ticks,
        forall|x: TaskId| #[trigger]
            u.known(x) ==> u.turn_out(id).known(x) && u.turn_out(id).rec(x) == (TaskRec {
                in_ring: u.turn_out(id).rec(x).in_ring,
                credits: u.turn_out(id).rec(x).credits,
                ..(if x == id {
                    sched::turned_out(u.rec(x), u.edf())
                } else {
                    u.rec(x)
                })
            }),
{
    u.lemma_turn_out(id);
    sched::lemma_known(u.tasks, id);
    let r = sched::turned_out(u.rec(id), u.edf());
    sched::lemma_with_rec(u.tasks, id, r);
    let w = SchedView { tasks: sched::with_rec(u.tasks, id, r), running_ticks: 0, ..u };
    assert(w.known(id));
    w.lemma_enqueue(id);
    sched::lemma_known(w.tasks, id);
    sched::lemma_with_rec(
        w.tasks,
        id,
        TaskRec { state: TaskState::Ready, in_ring: true, ..w.rec(id) },
    );
    let e = w.enqueue(id);
    let t = u.turn_out(id);
    if u.kind == PolicyKind::WeightedRoundRobin {
        sched::lemma_map_recs(e.tasks, |r: TaskRec| sched::refilled(r));
    }
    assert forall|x: TaskId| #[trigger] u.known(x) implies t.known(x) && t.rec(x) == (TaskRec {
        in_ring: t.rec(x).in_ring,
        credits: t.rec(x).credits,
        ..(if x == id {
            sched::turned_out(u.rec(x), u.edf())
        } else {
            u.rec(x)
        })
    }) by {
        assert(w.known(x));
        assert(e.known(x));
    }
}

/// What a tick does to the records, step by step.
proof fn lemma_tick_record(v: SchedView, x: TaskId)
    requires
        v.wf(),
        v.known(x),
    ensures
        ({
            let (w, action) = v.tick();
            let edf = v.edf();
            let rolled = if edf {
                sched::rolled(v.rec(x), sched::next_count(v.ticks))
            } else {
                v.rec(x)
            };
            let charged = if v.running == Some(x) {
                sched::charged(rolled, edf)
            } else {
                rolled
            };
            let turned = if v.running == Some(x) && !(action is Continue) {
                sched::turned_out(charged, edf)
            } else {
                charged
            };
            let started = if action == SchedAction::Preempt(Some(x)) {
                sched::started(turned, edf)
            } else {
                turned
            };
            &&& w.known(x)
            &&& w.ticks == sched::next_count(v.ticks)
            &&& w.kind == v.kind
            &&& w.quantum == v.quantum
            &&& w.rec(x) == (TaskRec {
                in_ring: w.rec(x).in_ring,
                credits: w.rec(x).credits,
                ..started
            })
        }),
{
    v.lemma_tick();
    v.lemma_advance();
    lemma_advance_records(v);
    let a = v.advance();
    match v.running {
        None => {
            a.lemma_dispatch();
            lemma_dispatch_records(a);
            assert(a.known(x));
        },
        Some(id) => {
            a.lemma_charge(id);
            sched::lemma_known(a.tasks, id);
            sched::lemma_with_rec(a.tasks, id, sched::charged(a.rec(id), a.edf()));
            let u = a.charge(id);
            assert(a.known(x) && u.known(x));
            if u.turn_over(id) {
                lemma_turn_out_records(u, id);
                let t = u.turn_out(id);
                assert(t.known(x));
                t.lemma_dispatch();
                lemma_dispatch_records(t);
            }
        },
    }
}

/// What a tick does to the account of each task: the runner is charged one
/// tick; a run is counted for the task that gets the CPU; the end of a turn
/// counts as a preemption, under EDF as an exhausted budget; a deadline that
/// has come is one miss, moves on by one period from the present tick and
/// brings a full budget. The runner that loses the CPU is ready, the task that
/// gets it runs, and nobody else changes its state.
pub proof fn law_tick_accounts(v: SchedView, x: TaskId)
    requires
        v.wf(),
        v.known(x),
    ensures
        ({
            let (w, action) = v.tick();
            let a = v.rec(x);
            let b = w.rec(x);
            let edf = v.kind == PolicyKind::EarliestDeadlineFirst;
            let ran = v.running == Some(x);
            let out = ran && !(action is Continue);
            let picked = action == SchedAction::Preempt(Some(x));
            &&& w.known(x)
            &&& w.ticks == (v.ticks + 1) % modulus()
            &&& w.kind == v.kind && w.quantum == v.quantum
            &&& same_task(a, b)
            &&& b.stats.total_ticks == (if !ran {
                a.stats.total_ticks as int
            } else if a.stats.total_ticks == u64::MAX {
                1
            } else {
                a.stats.total_ticks + 1
            })
            &&& b.stats.runs == (a.stats.runs + one_if(picked)) % modulus()
            &&& b.stats.preemptions == (a.stats.preemptions + one_if(out && !edf)) % modulus()
            &&& b.stats.budget_exhaustions == (a.stats.budget_exhaustions + one_if(out && edf))
                % modulus()
            &&& b.stats.deadline_misses == (a.stats.deadline_misses + one_if(falls_due(v, x)))
                % modulus()
            &&& b.next_deadline_ticks == (if falls_due(v, x) {
                (v.ticks + 1 + a.deadline->0.period) % modulus()
            } else {
                a.next_deadline_ticks as int
            })
            &&& b.budget_remaining_ticks == (if edf && picked && a.deadline is Some {
                a.deadline->0.budget as int
            } else {
                budget_left(v, x)
            })
            &&& b.state == (if picked {
                TaskState::Running
            } else if out {
                TaskState::Ready
            } else {
                a.state
            })
        }),
{
    lemma_tick_record(v, x);
}

/// When a turn ends: under round-robin after a quantum, under weighted
/// round-robin after as many ticks as the weight, under EDF when the budget is
/// used up. Without a runner every tick dispatches. A turn that goes on is one
/// tick longer, and a new one starts at 0.
pub proof fn law_when_a_turn_ends(v: SchedView)
    requires
        v.wf(),
        v.running_ticks < u64::MAX,
    ensures
        v.running is None ==> v.tick().1 == SchedAction::Preempt(v.tick().0.running),
        v.running matches Some(id) ==> {
            &&& v.tick().1 is Continue <==> match v.kind {
                PolicyKind::RoundRobin => v.running_ticks + 1 < v.quantum,
                PolicyKind::WeightedRoundRobin => v.running_ticks + 1 < v.rec(id).weight,
                PolicyKind::EarliestDeadlineFirst => budget_left(v, id) > 0,
            }
            &&& v.tick().1 is Continue ==> v.tick().0.running == v.running
                && v.tick().0.running_ticks == v.running_ticks + 1 && v.tick().0.ready == v.ready
        },
        v.tick().1 matches SchedAction::Preempt(Some(n)) ==> v.tick().0.running == Some(n)
            && v.tick().0.running_ticks == 0,
{
    v.lemma_tick();
    v.lemma_advance();
    lemma_advance_records(v);
    let a = v.advance();
    match v.running {
        None => {
            a.lemma_dispatch();
            lemma_dispatch_records(a);
        },
        Some(id) => {
            assert(v.known(id));
            a.lemma_charge(id);
            let u = a.charge(id);
            if u.turn_over(id) {
                lemma_turn_out_records(u, id);
                u.turn_out(id).lemma_dispatch();
                lemma_dispatch_records(u.turn_out(id));
            }
        },
    }
}

/// The task that an EDF dispatch picks may run before every task that is
/// ready.
proof fn lemma_edf_pick(v: SchedView)
    requires
        v.idle(),
        v.edf(),
    ensures
        v.dispatch().1 matches Some(c) ==> forall|y: TaskId| #[trigger]
            v.known(y) && v.rec(y).state == TaskState::Ready ==> may_run_before(v.rec(c), v.rec(y)),
{
    sched::laws::law_edf_runs_earliest_deadline(v);
    if let Some(c) = v.dispatch().1 {
        assert forall|y: TaskId| #[trigger]
            v.known(y) && v.rec(y).state == TaskState::Ready implies may_run_before(
            v.rec(c),
            v.rec(y),
        ) by {
            let k = sched::slot_of(v.tasks, y);
            sched::lemma_known(v.tasks, y);
            assert(sched::ready_at(v.tasks, k));
            assert(!sched::edf_before(v.rec(y), v.rec(c)));
        }
    }
}

/// Under EDF, a tick that hands the CPU out hands it to a task that may run
/// before every task that is ready then.
pub proof fn law_edf_tick_runs_the_most_urgent(v: SchedView, c: TaskId, y: TaskId)
    requires
        v.wf(),
        v.kind == PolicyKind::EarliestDeadlineFirst,
        v.tick().1 == SchedAction::Preempt(Some(c)),
        v.known(y),
        v.tick().0.rec(y).state == TaskState::Ready,
    ensures
        may_run_before(v.tick().0.rec(c), v.tick().0.rec(y)),
{
    v.lemma_tick();
    v.lemma_advance();
    lemma_advance_records(v);
    let a = v.advance();
    let d = match v.running {
        None => a,
        Some(id) => {
            a.lemma_charge(id);
            sched::lemma_known(a.tasks, id);
            sched::lemma_with_rec(a.tasks, id, sched::charged(a.rec(id), a.edf()));
            let u = a.charge(id);
            assert(a.known(y) && u.known(y));
            lemma_turn_out_records(u, id);
            u.turn_out(id)
        },
    };
    assert(d.known(y));
    lemma_dispatch_records(d);
    d.lemma_dispatch();
    lemma_edf_pick(d);
    assert(d.known(c));
}

/// The same when the runner blocks or finishes: of the tasks that are ready
/// then, the next one may run before all.
pub proof fn law_edf_next_is_the_most_urgent(
    v: SchedView,
    id: TaskId,
    state: TaskState,
    c: TaskId,
    y: TaskId,
)
    requires
        v.wf(),
        v.kind == PolicyKind::EarliestDeadlineFirst,
        state == TaskState::Blocked || state == TaskState::Finished,
        v.leave(id, state).1 == Some(c),
        v.known(y),
        v.leave(id, state).0.rec(y).state == TaskState::Ready,
    ensures
        may_run_before(v.leave(id, state).0.rec(c), v.leave(id, state).0.rec(y)),
{
    v.lemma_leave(id, state);
    let r = TaskRec { state, ..v.rec(id) };
    if v.known(id) {
        sched::lemma_known(v.tasks, id);
    }
    sched::lemma_with_rec(v.tasks, id, r);
    let d = SchedView { running: None, running_ticks: 0, ..v.set(id, r) };
    assert(d.known(y));
    lemma_dispatch_records(d);
    d.lemma_dispatch();
    lemma_edf_pick(d);
    assert(d.known(c));
}

/// What blocking or finishing does: the task is in its new state; if it had
/// the CPU, the next task runs and counts one run. Every other record keeps
/// its state, its parameters and its counts, and the clock stands.
pub proof fn law_leave_effect(v: SchedView, id: TaskId, state: TaskState, x: TaskId)
    requires
        v.wf(),
        state == TaskState::Blocked || state == TaskState::Finished,
        v.known(x),
    ensures
        ({
            let (w, next) = v.leave(id, state);
            let a = v.rec(x);
            let b = w.rec(x);
            &&& w.known(x)
            &&& same_task(a, b)
            &&& w.ticks == v.ticks && w.kind == v.kind && w.quantum == v.quantum
            &&& v.running != Some(id) ==> next is None && w.running == v.running
            &&& v.running == Some(id) ==> w.running == next
            &&& b.state == (if x == id {
                state
            } else if next == Some(x) {
                TaskState::Running
            } else {
                a.state
            })
            &&& b.stats == (TaskStats {
                runs: ((a.stats.runs + one_if(next == Some(x))) % modulus()) as u64,
                ..a.stats
            })
            &&& b.next_deadline_ticks == a.next_deadline_ticks
            &&& b.budget_remaining_ticks == (if next == Some(x) && v.kind
                == PolicyKind::EarliestDeadlineFirst && a.deadline is Some {
                a.deadline->0.budget
            } else {
                a.budget_remaining_ticks
            })
        }),
{
    v.lemma_leave(id, state);
    sched::laws::law_leaving_yields_cpu(v, id, state);
    let r = TaskRec { state, ..v.rec(id) };
    if v.known(id) {
        sched::lemma_known(v.tasks, id);
    }
    sched::lemma_with_rec(v.tasks, id, r);
    let u = v.set(id, r);
    assert(u.known(x));
    if v.running == Some(id) {
        let d = SchedView { running: None, running_ticks: 0, ..u };
        assert(d.known(x));
        lemma_dispatch_records(d);
        d.lemma_dispatch();
    }
}

/// What waking does: a blocked task is ready, with nothing else of its record
/// changed but its place in the queue; a task that is not blocked, or not
/// there, makes no difference at all. Nobody else is touched.
pub proof fn law_wake_effect(v: SchedView, id: TaskId, x: TaskId)
    requires
        v.wf(),
        v.known(x),
    ensures
        v.wake(id).known(x),
        x != id ==> v.wake(id).rec(x) == v.rec(x),
        v.known(id) && v.rec(id).state == TaskState::Blocked ==> v.wake(id).rec(id) == (TaskRec {
            state: TaskState::Ready,
            in_ring: true,
            ..v.rec(id)
        }),
        !(v.known(id) && v.rec(id).state == TaskState::Blocked) ==> v.wake(id) == v,
        v.wake(id).running == v.running,
        v.wake(id).ticks == v.ticks,
        v.wake(id).running_ticks == v.running_ticks,
        v.known(id) && v.rec(id).state == TaskState::Blocked && !v.rec(id).in_ring
            && v.ready.len() < 32 ==> v.wake(id).ready == v.ready.push(id),
        v.known(id) && v.rec(id).in_ring ==> v.wake(id).ready == v.ready,
{
    v.lemma_wake(id);
    if v.known(id) && v.rec(id).state == TaskState::Blocked {
        sched::lemma_known(v.tasks, id);
        let r = TaskRec { state: TaskState::Ready, ..v.rec(id) };
        sched::lemma_with_rec(v.tasks, id, r);
        let w = v.set(id, r);
        assert(w.known(id) && w.known(x));
        w.lemma_enqueue(id);
        sched::lemma_known(w.tasks, id);
        sched::lemma_with_rec(
            w.tasks,
            id,
            TaskRec { state: TaskState::Ready, in_ring: true, ..w.rec(id) },
        );
    }
}

/// The record of a task that was registered: ready, with the parameters that
/// were asked for (a priority and a weight of at least 1), no counts, and under
/// a deadline one period from now and a full budget.
pub proof fn law_registered_record(
    v: SchedView,
    id: TaskId,
    priority: u8,
    weight: u32,
    deadline: Option<Deadline>,
)
    requires
        v.wf(),
        !v.known(id),
        !sched::table_full(v.tasks),
    ensures
        ({
            let w = v.register(sched::fresh(id, priority, weight, deadline, v.ticks));
            let r = w.rec(id);
            &&& w.known(id)
            &&& r.id == id
            &&& r.state == TaskState::Ready
            &&& r.priority == (if priority == 0 {
                1
            } else {
                priority
            })
            &&& r.weight == (if weight == 0 {
                1
            } else {
                weight
            })
            &&& r.deadline == deadline
            &&& deadline matches Some(d) ==> r.next_deadline_ticks == (v.ticks + d.period)
                % modulus() && r.budget_remaining_ticks == d.budget
            &&& r.stats.runs == 0 && r.stats.preemptions == 0 && r.stats.deadline_misses == 0
            &&& r.stats.budget_exhaustions == 0 && r.stats.total_ticks == 0
            &&& r.credits == r.weight
            &&& r.in_ring
            &&& v.ready.len() < 32 ==> w.ready == v.ready.push(id)
            &&& w.running == v.running && w.ticks == v.ticks
        }),
{
    let r = sched::fresh(id, priority, weight, deadline, v.ticks);
    v.lemma_register(r);
    let slot = choose|i: int| sched::first_free(v.tasks, i);
    let u = SchedView { tasks: v.tasks.update(slot, Some(r)), ..v };
    assert(u.wf());
    assert(sched::holds(u.tasks, slot, id));
    sched::lemma_slot(u.tasks, slot, id);
    u.lemma_enqueue(id);
    sched::lemma_with_rec(
        u.tasks,
        id,
        TaskRec { state: TaskState::Ready, in_ring: true, ..u.rec(id) },
    );
}

/// A task that is taken out of the table is gone, and the CPU is idle if it
/// had it; every other task keeps its record.
pub proof fn law_unregister_effect(v: SchedView, id: TaskId, x: TaskId)
    requires
        v.wf(),
        v.known(id),
        x != id,
    ensures
        !v.unregister(id).known(id),
        v.unregister(id).known(x) <==> v.known(x),
        v.known(x) ==> v.unregister(id).rec(x) == v.rec(x),
        v.unregister(id).running == (if v.running == Some(id) {
            None
        } else {
            v.running
        }),
        v.unregister(id).ticks == v.ticks,
{
    v.lemma_unregister(id);
    let u = v.unregister(id);
    sched::lemma_known(v.tasks, id);
    if v.known(x) {
        sched::lemma_known(v.tasks, x);
        assert(sched::holds(u.tasks, sched::slot_of(v.tasks, x), x));
        sched::lemma_slot(u.tasks, sched::slot_of(v.tasks, x), x);
    }
    if u.known(x) {
        sched::lemma_known(u.tasks, x);
        assert(sched::holds(v.tasks, sched::slot_of(u.tasks, x), x));
    }
}

/// A tick gives the CPU only to a task that was ready, or back to the runner
/// whose turn was over.
pub proof fn law_tick_picks_only_ready(v: SchedView, c: TaskId)
    requires
        v.wf(),
        v.tick().1 == SchedAction::Preempt(Some(c)),
    ensures
        v.known(c),
        v.rec(c).state == TaskState::Ready || v.running == Some(c),
{
    v.lemma_tick();
    v.lemma_advance();
    sched::laws::law_tick_keeps_tasks(v);
    let d = match v.running {
        None => v.advance(),
        Some(id) => {
            v.advance().lemma_charge(id);
            lemma_turn_out_records(v.advance().charge(id), id);
            v.advance().charge(id).turn_out(id)
        },
    };
    sched::laws::law_only_ready_tasks_run(d);
    if v.running != Some(c) {
        lemma_tick_known(v, c);
    }
}

/// When the runner leaves, the CPU goes only to a task that was ready.
pub proof fn law_leave_picks_only_ready(v: SchedView, id: TaskId, state: TaskState, c: TaskId)
    requires
        v.wf(),
        state == TaskState::Blocked || state == TaskState::Finished,
        v.leave(id, state).1 == Some(c),
    ensures
        v.known(c),
        c != id,
        v.rec(c).state == TaskState::Ready,
{
    v.lemma_leave(id, state);
    sched::laws::law_leaving_yields_cpu(v, id, state);
    sched::laws::law_leave_keeps_tasks(v, id, state);
    let r = TaskRec { state, ..v.rec(id) };
    if v.known(id) {
        sched::lemma_known(v.tasks, id);
    }
    sched::lemma_with_rec(v.tasks, id, r);
    let d = SchedView { running: None, running_ticks: 0, ..v.set(id, r) };
    sched::laws::law_only_ready_tasks_run(d);
}

/// Under the round-robin policies, when the runner blocks or finishes, the
/// oldest entry of a ready task gives the next one, and the entries behind it
/// stay in their order. If there is no next task, nobody else in the queue is
/// ready.
pub proof fn law_leave_runs_the_oldest(v: SchedView, id: TaskId, state: TaskState)
    requires
        v.wf(),
        v.kind != PolicyKind::EarliestDeadlineFirst,
        state == TaskState::Blocked || state == TaskState::Finished,
        v.running == Some(id),
    ensures
        v.leave(id, state).1 matches Some(c) ==> exists|k: int|
            #[trigger] live_entry(v, k) && v.ready[k] == c && c != id && (forall|j: int|
                0 <= j < k && #[trigger] live_entry(v, j) ==> v.ready[j] == id) && v.leave(
                id,
                state,
            ).0.ready =~= v.ready.skip(k + 1),
        v.leave(id, state).1 is None ==> forall|j: int| #[trigger]
            live_entry(v, j) ==> v.ready[j] == id,
{
    v.lemma_leave(id, state);
    sched::lemma_known(v.tasks, id);
    let r = TaskRec { state, ..v.rec(id) };
    sched::lemma_with_rec(v.tasks, id, r);
    let u = SchedView { running: None, running_ticks: 0, ..v.set(id, r) };
    assert forall|j: int| #[trigger] live_entry(u, j) <==> live_entry(v, j) && v.ready[j]
        != id by {
        if 0 <= j < v.ready.len() {
            assert(u.known(v.ready[j]) <==> v.known(v.ready[j]));
        }
    }
    sched::laws::law_dispatch_is_fifo(u);
    if let Some(c) = u.dispatch().1 {
        let k = choose|k: int|
            #[trigger] live_entry(u, k) && u.ready[k] == c && (forall|j: int|
                0 <= j < k ==> !#[trigger] live_entry(u, j)) && u.dispatch().0.ready
                =~= u.ready.skip(k + 1);
        assert(live_entry(v, k));
        assert forall|j: int| 0 <= j < k && #[trigger] live_entry(v, j) implies v.ready[j]
            == id by {
            assert(!live_entry(u, j));
        }
    } else {
        assert forall|j: int| #[trigger] live_entry(v, j) implies v.ready[j] == id by {
            assert(!live_entry(u, j));
        }
    }
}

/// The queue from which a tick takes the next task: a runner whose turn is over
/// has joined its end.
pub open spec fn tick_queue(v: SchedView) -> Seq<TaskId> {
    match v.running {
        Some(id) => v.ready.push(id),
        None => v.ready,
    }
}

/// Under the round-robin policies a tick that hands out the CPU hands it to
/// the oldest entry of a ready task, where the task whose turn is over has
/// joined the end of the queue; the entries behind it stay in their order.
pub proof fn law_tick_runs_the_oldest(v: SchedView, c: TaskId)
    requires
        v.wf(),
        v.kind != PolicyKind::EarliestDeadlineFirst,
        v.running matches Some(id) ==> !v.rec(id).in_ring && !v.ready.contains(id),
        v.ready.len() < 32,
        v.tick().1 == SchedAction::Preempt(Some(c)),
    ensures
        exists|k: int|
            0 <= k < tick_queue(v).len() && #[trigger] tick_queue(v)[k] == c && (k < v.ready.len()
                ==> live_entry(v, k)) && (forall|j: int|
                0 <= j < k ==> !#[trigger] live_entry(v, j)) && v.tick().0.ready
                =~= tick_queue(v).skip(k + 1),
{
    v.lemma_tick();
    v.lemma_advance();
    lemma_advance_records(v);
    let a = v.advance();
    let q = tick_queue(v);
    let d = match v.running {
        None => a,
        Some(id) => {
            a.lemma_charge(id);
            sched::lemma_known(a.tasks, id);
            sched::lemma_with_rec(a.tasks, id, sched::charged(a.rec(id), a.edf()));
            let u = a.charge(id);
            lemma_turn_out_records(u, id);
            u.lemma_turn_out(id);
            let r = sched::turned_out(u.rec(id), u.edf());
            sched::lemma_known(u.tasks, id);
            sched::lemma_with_rec(u.tasks, id, r);
            assert(u.turn_out(id).ready =~= q);
            u.turn_out(id)
        },
    };
    assert(d.ready =~= q);
    assert forall|j: int| 0 <= j < v.ready.len() implies (#[trigger] live_entry(d, j)
        <==> live_entry(v, j)) by {
        let y = v.ready[j];
        assert(q[j] == y);
        assert(v.ready.contains(y));
        lemma_tick_known(v, y);
    }
    sched::laws::law_dispatch_is_fifo(d);
    let k = choose|k: int|
        #[trigger] live_entry(d, k) && d.ready[k] == c && (forall|j: int|
            0 <= j < k ==> !#[trigger] live_entry(d, j)) && d.dispatch().0.ready =~= d.ready.skip(
            k + 1,
        );
    assert(q[k] == c);
    assert forall|j: int| 0 <= j < k implies !#[trigger] live_entry(v, j) by {
        if j < v.ready.len() {
            assert(!live_entry(d, j));
        }
    }
}

/// Up to the dispatch, a tick adds and removes no task and changes no state
/// but that of the runner.
proof fn lemma_tick_known(v: SchedView, y: TaskId)
    requires
        v.wf(),
        v.running != Some(y),
    ensures
        ({
            let a = v.advance();
            let d = match v.running {
                None => a,
                Some(id) => a.charge(id).turn_out(id),
            };
            &&& d.known(y) <==> v.known(y)
            &&& v.known(y) ==> d.rec(y).state == v.rec(y).state
        }),
{
    v.lemma_advance();
    lemma_advance_records(v);
    let a = v.advance();
    assert(a.known(y) <==> v.known(y));
    if let Some(id) = v.running {
        a.lemma_charge(id);
        sched::lemma_known(a.tasks, id);
        sched::lemma_with_rec(a.tasks, id, sched::charged(a.rec(id), a.edf()));
        let u = a.charge(id);
        assert(u.known(y) <==> a.known(y));
        lemma_turn_out_records(u, id);
        let r = sched::turned_out(u.rec(id), u.edf());
        sched::lemma_known(u.tasks, id);
        sched::lemma_with_rec(u.tasks, id, r);
        let w = SchedView { tasks: sched::with_rec(u.tasks, id, r), running_ticks: 0, ..u };
        u.lemma_turn_out(id);
        assert(w.known(id));
        w.lemma_enqueue(id);
        let e = w.enqueue(id);
        assert(e.known(y) <==> w.known(y));
        if u.kind == PolicyKind::WeightedRoundRobin {
            sched::lemma_map_recs(e.tasks, |r: TaskRec| sched::refilled(r));
        }
        assert(u.turn_out(id).known(y) <==> e.known(y));
    }
}

/// A task that is not queued is not queued by leaving.
pub proof fn law_leaving_does_not_queue(s: SchedView, id: TaskId, state: TaskState)
    requires
        s.wf(),
        state == TaskState::Blocked || state == TaskState::Finished,
        s.running == Some(id),
        !s.rec(id).in_ring,
    ensures
        !s.leave(id, state).0.rec(id).in_ring,
{
    s.lemma_leave(id, state);
    sched::lemma_known(s.tasks, id);
    let r = TaskRec { state, ..s.rec(id) };
    sched::lemma_with_rec(s.tasks, id, r);
    let d = SchedView { running: None, running_ticks: 0, ..s.set(id, r) };
    lemma_dispatch_unmarked(d, id);
}

proof fn lemma_dispatch_unmarked(d: SchedView, id: TaskId)
    requires
        d.idle(),
        d.known(id),
        d.rec(id).state == TaskState::Blocked || d.rec(id).state == TaskState::Finished,
        !d.rec(id).in_ring,
    ensures
        !d.dispatch().0.rec(id).in_ring,
    decreases d.ready.len(),
{
    if d.ready.len() > 0 {
        let head = d.ready[0];
        let rest = d.dequeue();
        d.lemma_dequeue();
        assert(rest.known(id));
        if !rest.known(head) || rest.rec(head).state != TaskState::Ready {
            lemma_dispatch_unmarked(rest, id);
        } else {
            rest.lemma_choice(head);
            let c = rest.choice(head);
            if c == head {
                rest.lemma_run(c);
            } else {
                rest.lemma_enqueue(head);
                assert(rest.enqueue(head).known(id));
                rest.enqueue(head).lemma_run(c);
            }
        }
    }
}

// ---------------------------------------------------------------------------
// EDF over many ticks
// ---------------------------------------------------------------------------

/// How an unfinished EDF task stands after `k` ticks: `q` periods are over and
/// `r` ticks of the present one.
proof fn lemma_periods(v: SchedView, id: TaskId, k: nat) -> (qr: (nat, nat))
    requires
        v.wf(),
        v.kind == PolicyKind::EarliestDeadlineFirst,
        v.known(id),
        v.rec(id).state != TaskState::Finished,
        v.rec(id).deadline matches Some(d) && d.period >= 1 && v.rec(id).next_deadline_ticks
            == v.ticks + d.period && v.ticks + k + d.period < modulus(),
        v.rec(id).stats.deadline_misses + k < modulus(),
    ensures
        ({
            let w = after(v, k);
            let p = v.rec(id).deadline->0.period;
            let (q, r) = qr;
            &&& r < p && k == q * p + r
            &&& q <= k
            &&& w.wf() && w.kind == v.kind && w.known(id)
            &&& w.ticks == v.ticks + k
            &&& w.rec(id).deadline == v.rec(id).deadline
            &&& w.rec(id).state != TaskState::Finished
            &&& w.rec(id).next_deadline_ticks == v.ticks + q * p + p
            &&& w.rec(id).stats.deadline_misses == v.rec(id).stats.deadline_misses + q
        }),
    decreases k,
{
    let p = v.rec(id).deadline->0.period;
    if k == 0 {
        assert(0 * p == 0);
        (0, 0)
    } else {
        let (q, r) = lemma_periods(v, id, (k - 1) as nat);
        let u = after(v, (k - 1) as nat);
        u.lemma_tick();
        law_tick_accounts(u, id);
        assert((q + 1) * p == q * p + p) by (nonlinear_arith);
        assert(q * p >= 0) by (nonlinear_arith);
        if r + 1 < p {
            assert(!falls_due(u, id));
            (q, r + 1)
        } else {
            assert(falls_due(u, id));
            (q + 1, 0)
        }
    }
}

/// An unfinished EDF task misses exactly one deadline per period, as long as
/// nothing but time passes: after `n` periods `n` misses more are counted, and
/// the deadline is `n` periods later.
pub proof fn law_one_miss_per_period(v: SchedView, id: TaskId, n: nat)
    requires
        v.wf(),
        v.kind == PolicyKind::EarliestDeadlineFirst,
        v.known(id),
        v.rec(id).state != TaskState::Finished,
        v.rec(id).deadline matches Some(d) && d.period >= 1 && v.rec(id).next_deadline_ticks
            == v.ticks + d.period && v.ticks + n * d.period + d.period < modulus()
            && v.rec(id).stats.deadline_misses + n * d.period < modulus(),
    ensures
        ({
            let p = v.rec(id).deadline->0.period;
            let w = after(v, (n * p) as nat);
            &&& w.rec(id).stats.deadline_misses == v.rec(id).stats.deadline_misses + n
            &&& w.rec(id).next_deadline_ticks == v.ticks + (n + 1) * p
            &&& w.ticks == v.ticks + n * p
        }),
{
    let p = v.rec(id).deadline->0.period as nat;
    assert(n * p >= 0) by (nonlinear_arith);
    let k = n * p;
    let (q, r) = lemma_periods(v, id, k);
    assert(q == n && r == 0) by (nonlinear_arith)
        requires
            n * p == q * p + r,
            0 <= r < p,
            p >= 1,
    ;
    assert((n + 1) * p == n * p + p) by (nonlinear_arith);
}

/// Under EDF a turn lasts exactly as many ticks as the runner has budget, when
/// no period of it ends meanwhile: `n` ticks into it the budget is `n` less and
/// the task runs on, and the tick that uses up the last of it takes the CPU
/// away.
pub proof fn law_edf_turn_lasts_its_budget(v: SchedView, id: TaskId, n: nat)
    requires
        v.wf(),
        v.kind == PolicyKind::EarliestDeadlineFirst,
        v.running == Some(id),
        n < v.rec(id).budget_remaining_ticks,
        v.rec(id).deadline is Some ==> v.ticks + v.rec(id).budget_remaining_ticks
            < v.rec(id).next_deadline_ticks,
        v.running_ticks + v.rec(id).budget_remaining_ticks < u64::MAX,
        v.ticks + v.rec(id).budget_remaining_ticks < u64::MAX,
    ensures
        after(v, n).running == Some(id),
        after(v, n).rec(id).budget_remaining_ticks == v.rec(id).budget_remaining_ticks - n,
        after(v, n).tick().1 is Continue <==> n + 1 < v.rec(id).budget_remaining_ticks,
{
    lemma_turn(v, id, n);
    let u = after(v, n);
    law_when_a_turn_ends(u);
}

proof fn lemma_turn(v: SchedView, id: TaskId, n: nat)
    requires
        v.wf(),
        v.kind == PolicyKind::EarliestDeadlineFirst,
        v.running == Some(id),
        n < v.rec(id).budget_remaining_ticks,
        v.rec(id).deadline is Some ==> v.ticks + v.rec(id).budget_remaining_ticks
            < v.rec(id).next_deadline_ticks,
        v.running_ticks + v.rec(id).budget_remaining_ticks < u64::MAX,
        v.ticks + v.rec(id).budget_remaining_ticks < u64::MAX,
    ensures
        ({
            let w = after(v, n);
            &&& w.wf() && w.kind == v.kind && w.running == Some(id) && w.known(id)
            &&& w.ticks == v.ticks + n
            &&& w.running_ticks == v.running_ticks + n
            &&& w.rec(id).deadline == v.rec(id).deadline
            &&& w.rec(id).next_deadline_ticks == v.rec(id).next_deadline_ticks
            &&& w.rec(id).budget_remaining_ticks == v.rec(id).budget_remaining_ticks - n
        }),
    decreases n,
{
    assert(v.known(id));
    if n > 0 {
        lemma_turn(v, id, (n - 1) as nat);
        let u = after(v, (n - 1) as nat);
        u.lemma_tick();
        law_when_a_turn_ends(u);
        law_tick_accounts(u, id);
    }
}

/// The list of the tasks has exactly the record of each task, in the order of
/// the slots, and their number is the number of slots that are taken.
pub proof fn law_records_are_the_tasks(tasks: Seq<Option<TaskRec>>)
    ensures
        sched::records(tasks).len() == sched::occupied(tasks),
        forall|i: int|
            0 <= i < tasks.len() && (#[trigger] tasks[i]) is Some ==> sched::records(tasks).contains(
                tasks[i]->0,
            ),
        forall|k: int|
            0 <= k < sched::records(tasks).len() ==> tasks.contains(
                Some(#[trigger] sched::records(tasks)[k]),
            ),
    decreases tasks.len(),
{
    if tasks.len() > 0 {
        let less = tasks.drop_last();
        law_records_are_the_tasks(less);
        let r = sched::records(tasks);
        let q = sched::records(less);
        assert forall|i: int| 0 <= i < tasks.len() && (#[trigger] tasks[i]) is Some implies r.contains(
            tasks[i]->0,
        ) by {
            if i < less.len() {
                assert(less[i] is Some);
                let k = q.index_of(tasks[i]->0);
                assert(q.contains(tasks[i]->0));
                assert(r[k] == q[k]);
            } else {
                assert(r[r.len() - 1] == tasks[i]->0);
            }
        }
        assert forall|k: int| 0 <= k < r.len() implies tasks.contains(Some(#[trigger] r[k])) by {
            if k < q.len() {
                assert(r[k] == q[k]);
                let i = less.index_of(Some(q[k]));
                assert(less.contains(Some(q[k])));
                assert(tasks[i] == Some(r[k]));
            } else {
                assert(tasks[tasks.len() - 1] == Some(r[k]));
            }
        }
    }
}

/// A task that is added in a later slot comes later in the list, after all
/// others, and an empty slot adds none.
pub proof fn law_records_in_slot_order(tasks: Seq<Option<TaskRec>>, r: TaskRec)
    ensures
        sched::records(Seq::empty()).len() == 0,
        sched::records(tasks.push(Some(r))) == sched::records(tasks).push(r),
        sched::records(tasks.push(None)) == sched::records(tasks),
        sched::occupied(tasks.push(Some(r))) == sched::occupied(tasks) + 1,
        sched::occupied(tasks.push(None)) == sched::occupied(tasks),
{
    assert(tasks.push(Some(r)).drop_last() =~= tasks);
    assert(tasks.push(None).drop_last() =~= tasks);
}

/// A new scheduler knows no task, has nobody ready and nobody running, starts its
/// clock at 0, and keeps the policy and the quantum that it was made with; a
/// quantum of 0 counts as 1.
pub proof fn law_new_scheduler(kind: PolicyKind, quantum: u64, x: TaskId)
    ensures
        ({
            let v = sched::empty_sched(kind, quantum);
            &&& !v.known(x)
            &&& v.ready.len() == 0 && v.running is None
            &&& v.ticks == 0 && v.running_ticks == 0
            &&& v.kind == kind
            &&& quantum > 0 ==> v.quantum == quantum
            &&& quantum == 0 ==> v.quantum == 1
            &&& v.tasks.len() == 32
        }),
{
    let v = sched::empty_sched(kind, quantum);
    if v.known(x) {
        assert(sched::holds(v.tasks, sched::slot_of(v.tasks, x), x));
    }
}

/// Each policy of the configuration is the scheduler's policy of that name.
pub proof fn law_policies(p: SchedPolicy)
    ensures
        p == SchedPolicy::RoundRobin <==> sched::policy_of(p) == PolicyKind::RoundRobin,
        p == SchedPolicy::WeightedRoundRobin <==> sched::policy_of(p)
            == PolicyKind::WeightedRoundRobin,
        p == SchedPolicy::EarliestDeadlineFirst <==> sched::policy_of(p)
            == PolicyKind::EarliestDeadlineFirst,
{
}

/// EDF prefers the task `a` to the task `b`, and not the other way round.
pub open spec fn more_urgent(a: TaskRec, b: TaskRec) -> bool {
    may_run_before(a, b) && !may_run_before(b, a)
}

/// Whom EDF picks when `head` is the oldest ready entry: the head itself, unless
/// some ready task is more urgent; then the most urgent one, and of several that
/// are equally urgent the one in the lowest slot.
pub proof fn law_edf_ties(tasks: Seq<Option<TaskRec>>, head: TaskId, k: int) -> (w: int)
    requires
        sched::distinct_ids(tasks),
        sched::known(tasks, head),
        sched::rec(tasks, head).state == TaskState::Ready,
    ensures
        0 <= w < tasks.len() && tasks[w] is Some,
        sched::edf_choice(tasks, head) == tasks[w]->0.id,
        tasks[w]->0.state == TaskState::Ready,
        tasks[w]->0.id != head ==> more_urgent(tasks[w]->0, sched::rec(tasks, head)),
        0 <= k < tasks.len() && tasks[k] is Some && tasks[k]->0.state == TaskState::Ready ==> {
            &&& !more_urgent(tasks[k]->0, tasks[w]->0)
            &&& tasks[w]->0.id != head && tasks[k]->0.id != head && k < w ==> more_urgent(
                tasks[w]->0,
                tasks[k]->0,
            )
        },
{
    let w = sched::lemma_edf_choice(tasks, head);
    sched::lemma_known(tasks, head);
    let h = sched::slot_of(tasks, head);
    if 0 <= k < tasks.len() && tasks[k] is Some && tasks[k]->0.state == TaskState::Ready {
        assert(sched::ready_at(tasks, k));
    }
    if tasks[w]->0.id == head {
        sched::lemma_slot(tasks, w, head);
    }
    w
}

/// A ready task that has used up its credits gets as many as its weight again;
/// nothing else of it changes, and nothing of any other task.
pub proof fn law_refill(r: TaskRec)
    ensures
        r.state == TaskState::Ready && r.credits == 0 ==> sched::refilled(r).credits == r.weight,
        r.state != TaskState::Ready || r.credits > 0 ==> sched::refilled(r) == r,
        sched::refilled(r) == (TaskRec { credits: sched::refilled(r).credits, ..r }),
{
}

/// What the errors say.
pub proof fn law_error_texts(id: TaskId)
    ensures
        sched::SchedError::TableFull.text() == "task table full"@,
        sched::SchedError::UnknownTask(id).text() == "unknown task "@ + crate::text::decimal(
            id as nat,
        ),
        sched::SchedError::AlreadyRegistered(id).text() == "task "@ + crate::text::decimal(id as nat)
            + " already registered"@,
{
}

/// A task that is registered with the period `p` and goes on for `n` periods has
/// missed exactly `n` deadlines then, and its next deadline is one period on.
pub proof fn law_registered_task_misses_once_per_period(
    v: SchedView,
    id: TaskId,
    priority: u8,
    weight: u32,
    d: Deadline,
    n: nat,
)
    requires
        v.wf(),
        v.kind == PolicyKind::EarliestDeadlineFirst,
        !v.known(id),
        !sched::table_full(v.tasks),
        d.period >= 1,
        v.ticks + n * d.period + d.period < modulus(),
    ensures
        ({
            let u = v.register(sched::fresh(id, priority, weight, Some(d), v.ticks));
            let w = after(u, (n * d.period) as nat);
            &&& w.rec(id).stats.deadline_misses == n
            &&& w.rec(id).next_deadline_ticks == v.ticks + (n + 1) * d.period
            &&& w.ticks == v.ticks + n * d.period
        }),
{
    let r = sched::fresh(id, priority, weight, Some(d), v.ticks);
    v.lemma_register(r);
    law_registered_record(v, id, priority, weight, Some(d));
    assert(0 <= n * d.period) by (nonlinear_arith)
        requires
            d.period >= 1,
    ;
    law_one_miss_per_period(v.register(r), id, n);
}

} // verus!
