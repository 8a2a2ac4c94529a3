//! Deterministic scheduling policies.
//!
//! The scheduler core is a *pure event model*: the kernel feeds it ticks and
//! task lifecycle events, it answers with "keep running" or "preempt to X".
//! It never touches hardware.
//!
//! Policies
//! --------
//! * **Round-robin** (`RoundRobin`) -- fixed quantum.
//! * **Weighted round-robin** (`WeightedRoundRobin`) -- a task runs for
//!   `weight` ticks per round.
//! * **EDF** (`EarliestDeadlineFirst`) -- periodic tasks with
//!   (period, budget); executes the ready task whose deadline is soonest and
//!   accounts deadline misses under overload.
//!
//! The clock, the statistics and the deadlines are kept modulo 2^64.

use vstd::prelude::*;
use crate::config::SchedPolicy;
use crate::text;

pub mod effects;
pub mod fairness;
pub mod laws;

verus! {

/// Upper bound on concurrently registered tasks (fixed, no dynamic memory).
pub const MAX_TASKS: usize = 32;

/// Entries that the ready ring can hold: one for every task of a full table.
pub const RING_CAPACITY: usize = MAX_TASKS;

pub type TaskId = u64;

/// State machine a task can be in.
#[derive(Clone, Copy, PartialEq, Eq, Debug, Default, Structural)]
pub enum TaskState {
    #[default]
    Ready,
    Blocked,
    Running,
    Finished,
}

/// Periodic deadline parameters for `EarliestDeadlineFirst`.
#[derive(Clone, Copy, PartialEq, Eq, Debug, Structural)]
pub struct Deadline {
    /// Period in scheduler ticks.
    pub period: u64,
    /// Execution budget per period in scheduler ticks.
    pub budget: u64,
}

/// Deterministic per-task statistics.
#[derive(Clone, Copy, Debug, Default)]
pub struct TaskStats {
    pub runs: u64,
    pub preemptions: u64,
    pub deadline_misses: u64,
    pub budget_exhaustions: u64,
    pub total_ticks: u64,
}

/// Bookkeeping record for one task.
#[derive(Clone, Copy, Debug)]
pub struct TaskRec {
    pub id: TaskId,
    pub priority: u8,
    pub weight: u32,
    pub deadline: Option<Deadline>,
    pub state: TaskState,
    pub stats: TaskStats,
    /// Tick at which the current period ends (EDF).
    pub next_deadline_ticks: u64,
    /// Ticks left in the current period's budget (EDF).
    pub budget_remaining_ticks: u64,
    /// Credit bookkeeping (weighted round-robin).
    pub credits: u32,
    /// Whether the task was given an entry in the ready ring that has not
    /// been taken out yet. A task with the mark is not queued again.
    pub in_ring: bool,
}

/// Which scheduling policy is active.
#[derive(Clone, Copy, PartialEq, Eq, Debug, Structural)]
pub enum PolicyKind {
    RoundRobin,
    WeightedRoundRobin,
    EarliestDeadlineFirst,
}

/// Action a scheduler expects the kernel to take.
#[derive(Clone, Copy, PartialEq, Eq, Debug)]
pub enum SchedAction {
    /// Keep dispatching the current task.
    Continue,
    /// Preempt now; run the given task (or the idle loop when `None`).
    Preempt(Option<TaskId>),
}

#[derive(Clone, Copy, PartialEq, Eq, Debug)]
pub enum SchedError {
    TableFull,
    UnknownTask(TaskId),
    AlreadyRegistered(TaskId),
}

impl SchedError {
    /// What the error says.
    pub open spec fn text(self) -> Seq<char> {
        match self {
            SchedError::TableFull => "task table full"@,
            SchedError::UnknownTask(id) => "unknown task "@ + text::decimal(id as nat),
            SchedError::AlreadyRegistered(id) => "task "@ + text::decimal(id as nat)
                + " already registered"@,
        }
    }

    pub fn to_string(&self) -> (r: String)
        ensures
            r@ == self.text(),
    {
        match self {
            SchedError::TableFull => String::from_str("task table full"),
            SchedError::UnknownTask(id) => {
                let mut s = String::from_str("unknown task ");
                text::push_decimal(&mut s, *id);
                s
            },
            SchedError::AlreadyRegistered(id) => {
                let mut s = String::from_str("task ");
                text::push_decimal(&mut s, *id);
                s.append(" already registered");
                s
            },
        }
    }
}

/// The scheduler. Fixed-capacity, allocation-free, deterministic.
pub struct Scheduler {
    kind: PolicyKind,
    quantum_ticks: u64,
    ticks: u64,
    running: Option<TaskId>,
    tasks: [Option<TaskRec>; MAX_TASKS],
    /// Ready queue: ring buffer of task ids.
    ready: [TaskId; MAX_TASKS],
    ready_head: usize,
    ready_len: usize,
    /// Ticks the current task has consumed since it was dispatched.
    running_ticks: u64,
}

// ---------------------------------------------------------------------------
// Model
// ---------------------------------------------------------------------------

/// What a scheduler is, without its representation.
#[verifier::ext_equal]
pub struct SchedView {
    pub kind: PolicyKind,
    pub quantum: u64,
    pub ticks: u64,
    pub running: Option<TaskId>,
    /// The task table, slot by slot.
    pub tasks: Seq<Option<TaskRec>>,
    /// The ready queue, oldest entry first.
    pub ready: Seq<TaskId>,
    pub running_ticks: u64,
}

/// `n + 1` modulo 2^64.
pub open spec fn next_count(n: u64) -> u64 {
    if n == u64::MAX {
        0
    } else {
        (n + 1) as u64
    }
}

/// `a + b` modulo 2^64.
pub open spec fn sum_mod(a: u64, b: u64) -> u64 {
    if a + b > u64::MAX {
        (a + b - 0x1_0000_0000_0000_0000) as u64
    } else {
        (a + b) as u64
    }
}

/// Slot `i` of the table holds the task `id`.
pub open spec fn holds(tasks: Seq<Option<TaskRec>>, i: int, id: TaskId) -> bool {
    0 <= i < tasks.len() && tasks[i] is Some && tasks[i]->0.id == id
}

/// The task `id` is registered.
pub open spec fn known(tasks: Seq<Option<TaskRec>>, id: TaskId) -> bool {
    exists|i: int| #[trigger] holds(tasks, i, id)
}

/// The slot of a registered task.
pub open spec fn slot_of(tasks: Seq<Option<TaskRec>>, id: TaskId) -> int {
    choose|i: int| #[trigger] holds(tasks, i, id)
}

/// The record of a registered task.
pub open spec fn rec(tasks: Seq<Option<TaskRec>>, id: TaskId) -> TaskRec {
    tasks[slot_of(tasks, id)]->0
}

/// The table with the record of the task `id` replaced by `r`; a table without
/// that task is left as it is.
pub open spec fn with_rec(tasks: Seq<Option<TaskRec>>, id: TaskId, r: TaskRec) -> Seq<
    Option<TaskRec>,
> {
    if known(tasks, id) {
        tasks.update(slot_of(tasks, id), Some(r))
    } else {
        tasks
    }
}

/// No task is registered twice.
pub open spec fn distinct_ids(tasks: Seq<Option<TaskRec>>) -> bool {
    forall|i: int, j: int, id: TaskId| #[trigger]
        holds(tasks, i, id) && #[trigger] holds(tasks, j, id) ==> i == j
}

/// Number of occupied slots.
pub open spec fn occupied(tasks: Seq<Option<TaskRec>>) -> nat
    decreases tasks.len(),
{
    if tasks.len() == 0 {
        0
    } else {
        occupied(tasks.drop_last()) + if tasks.last() is Some {
            1nat
        } else {
            0
        }
    }
}

/// The records of the occupied slots, in slot order.
pub open spec fn records(tasks: Seq<Option<TaskRec>>) -> Seq<TaskRec>
    decreases tasks.len(),
{
    if tasks.len() == 0 {
        Seq::empty()
    } else if tasks.last() is Some {
        records(tasks.drop_last()).push(tasks.last()->0)
    } else {
        records(tasks.drop_last())
    }
}

/// Slot `i` is the lowest free slot.
pub open spec fn first_free(tasks: Seq<Option<TaskRec>>, i: int) -> bool {
    0 <= i < tasks.len() && tasks[i] is None && forall|j: int| 0 <= j < i ==> tasks[j] is Some
}

/// Every slot is taken.
pub open spec fn table_full(tasks: Seq<Option<TaskRec>>) -> bool {
    forall|i: int| 0 <= i < tasks.len() ==> #[trigger] tasks[i] is Some
}

/// The task in slot `i` is ready.
pub open spec fn ready_at(tasks: Seq<Option<TaskRec>>, i: int) -> bool {
    0 <= i < tasks.len() && tasks[i] is Some && tasks[i]->0.state == TaskState::Ready
}

/// The deadline that EDF ranks a task by; a task without one ranks last.
pub open spec fn effective_deadline(r: TaskRec) -> u64 {
    if r.deadline is Some {
        r.next_deadline_ticks
    } else {
        u64::MAX
    }
}

/// EDF prefers `a` to `b`: only `a` has a deadline, or its deadline is earlier,
/// or the deadlines are equal and its priority is higher.
pub open spec fn edf_before(a: TaskRec, b: TaskRec) -> bool {
    ||| a.deadline is Some && b.deadline is None
    ||| (a.deadline is Some <==> b.deadline is Some) && (effective_deadline(a)
        < effective_deadline(b) || (effective_deadline(a) == effective_deadline(b) && a.priority
        > b.priority))
}

/// Among the task in slot `head` and the ready tasks of the first `n` slots,
/// slot `w` is the one EDF picks: nothing is preferred to it, and of equals
/// the head comes first, then the lower slot.
pub open spec fn edf_winner(tasks: Seq<Option<TaskRec>>, head: int, n: int, w: int) -> bool {
    &&& w == head || (w < n && ready_at(tasks, w) && edf_before(tasks[w]->0, tasks[head]->0)
        && forall|k: int|
        0 <= k < w && k != head && #[trigger] ready_at(tasks, k) ==> edf_before(
            tasks[w]->0,
            tasks[k]->0,
        ))
    &&& forall|k: int|
        0 <= k < n && k != head && #[trigger] ready_at(tasks, k) ==> !edf_before(
            tasks[k]->0,
            tasks[w]->0,
        )
}

/// Some ready task has a deadline.
pub open spec fn deadline_task_ready(tasks: Seq<Option<TaskRec>>) -> bool {
    exists|k: int| #[trigger] ready_at(tasks, k) && tasks[k]->0.deadline is Some
}

/// The task that EDF runs when `head` is the oldest ready entry.
pub open spec fn edf_choice(tasks: Seq<Option<TaskRec>>, head: TaskId) -> TaskId {
    tasks[choose|w: int| edf_winner(tasks, slot_of(tasks, head), tasks.len() as int, w)]->0.id
}

/// One EDF period check at tick `now`: a passed deadline is a miss, and a new
/// period with a full budget starts.
pub open spec fn rolled(r: TaskRec, now: u64) -> TaskRec {
    if r.deadline is Some && r.state != TaskState::Finished && now >= r.next_deadline_ticks {
        TaskRec {
            stats: TaskStats {
                deadline_misses: next_count(r.stats.deadline_misses),
                ..r.stats
            },
            next_deadline_ticks: sum_mod(now, r.deadline->0.period),
            budget_remaining_ticks: r.deadline->0.budget,
            ..r
        }
    } else {
        r
    }
}

/// One tick of execution on the task's account.
pub open spec fn charged(r: TaskRec, edf: bool) -> TaskRec {
    TaskRec {
        stats: TaskStats {
            total_ticks: if r.stats.total_ticks == u64::MAX {
                1
            } else {
                (r.stats.total_ticks + 1) as u64
            },
            ..r.stats
        },
        budget_remaining_ticks: if edf && r.budget_remaining_ticks > 0 {
            (r.budget_remaining_ticks - 1) as u64
        } else {
            r.budget_remaining_ticks
        },
        ..r
    }
}

/// The record of a task that loses the CPU at the end of its turn.
pub open spec fn turned_out(r: TaskRec, edf: bool) -> TaskRec {
    TaskRec {
        state: TaskState::Ready,
        stats: if edf {
            TaskStats { budget_exhaustions: next_count(r.stats.budget_exhaustions), ..r.stats }
        } else {
            TaskStats { preemptions: next_count(r.stats.preemptions), ..r.stats }
        },
        ..r
    }
}

/// The record of a task that gets the CPU.
pub open spec fn started(r: TaskRec, edf: bool) -> TaskRec {
    TaskRec {
        state: TaskState::Running,
        stats: TaskStats { runs: next_count(r.stats.runs), ..r.stats },
        budget_remaining_ticks: if edf && r.deadline is Some {
            r.deadline->0.budget
        } else {
            r.budget_remaining_ticks
        },
        ..r
    }
}

/// A ready task without credits gets its weight as credit again.
pub open spec fn refilled(r: TaskRec) -> TaskRec {
    if r.state == TaskState::Ready && r.credits == 0 {
        TaskRec { credits: r.weight, ..r }
    } else {
        r
    }
}

/// The record of a task as it is registered.
pub open spec fn fresh(
    id: TaskId,
    priority: u8,
    weight: u32,
    deadline: Option<Deadline>,
    now: u64,
) -> TaskRec {
    let weight = if weight == 0 {
        1u32
    } else {
        weight
    };
    TaskRec {
        id,
        priority: if priority == 0 {
            1u8
        } else {
            priority
        },
        weight,
        deadline,
        state: TaskState::Ready,
        stats: TaskStats {
            runs: 0,
            preemptions: 0,
            deadline_misses: 0,
            budget_exhaustions: 0,
            total_ticks: 0,
        },
        next_deadline_ticks: if deadline is Some {
            sum_mod(now, deadline->0.period)
        } else {
            0
        },
        budget_remaining_ticks: if deadline is Some {
            deadline->0.budget
        } else {
            0
        },
        credits: weight,
        in_ring: false,
    }
}

/// Applies `f` to the record of every occupied slot.
pub open spec fn map_recs(
    tasks: Seq<Option<TaskRec>>,
    f: spec_fn(TaskRec) -> TaskRec,
) -> Seq<Option<TaskRec>> {
    tasks.map_values(
        |t: Option<TaskRec>|
            match t {
                Some(r) => Some(f(r)),
                None => None,
            },
    )
}

/// The task `id` is registered and marked as queued.
pub open spec fn marked(tasks: Seq<Option<TaskRec>>, id: TaskId) -> bool {
    known(tasks, id) && rec(tasks, id).in_ring
}

/// The entries of `q` that count: for each task that is marked as queued its
/// oldest entry.
pub open spec fn compact(tasks: Seq<Option<TaskRec>>, q: Seq<TaskId>) -> Seq<TaskId>
    decreases q.len(),
{
    if q.len() == 0 {
        Seq::empty()
    } else {
        let before = compact(tasks, q.drop_last());
        if marked(tasks, q.last()) && !before.contains(q.last()) {
            before.push(q.last())
        } else {
            before
        }
    }
}

/// The entries of `q`, where a new one is to follow: of a full ring only those
/// that count.
pub open spec fn with_room(tasks: Seq<Option<TaskRec>>, q: Seq<TaskId>) -> Seq<TaskId> {
    if q.len() < RING_CAPACITY {
        q
    } else {
        compact(tasks, q)
    }
}

/// A scheduler without tasks; a quantum has at least one tick.
pub open spec fn empty_sched(kind: PolicyKind, quantum_ticks: u64) -> SchedView {
    SchedView {
        kind,
        quantum: if quantum_ticks == 0 {
            1
        } else {
            quantum_ticks
        },
        ticks: 0,
        running: None,
        tasks: Seq::new(MAX_TASKS as nat, |i: int| None),
        ready: Seq::empty(),
        running_ticks: 0,
    }
}

impl SchedView {
    /// The policy is EDF.
    pub open spec fn edf(self) -> bool {
        self.kind == PolicyKind::EarliestDeadlineFirst
    }

    pub open spec fn known(self, id: TaskId) -> bool {
        known(self.tasks, id)
    }

    pub open spec fn rec(self, id: TaskId) -> TaskRec {
        rec(self.tasks, id)
    }

    /// The state with the record of the task `id` replaced.
    pub open spec fn set(self, id: TaskId, r: TaskRec) -> SchedView {
        SchedView { tasks: with_rec(self.tasks, id, r), ..self }
    }

    /// What holds of every scheduler: the table has its fixed size and no id
    /// twice, the ring is within its capacity, a turn has at least one tick,
    /// the runner is registered and neither blocked nor finished, and no other
    /// task is in the running state.
    pub open spec fn wf(self) -> bool {
        &&& self.tasks.len() == MAX_TASKS
        &&& distinct_ids(self.tasks)
        &&& self.ready.len() <= RING_CAPACITY
        &&& self.quantum >= 1
        &&& self.running matches Some(id) ==> self.known(id) && (self.rec(id).state
            == TaskState::Running || self.rec(id).state == TaskState::Ready)
        &&& forall|i: int|
            0 <= i < self.tasks.len() && (#[trigger] self.tasks[i]) is Some
                && self.tasks[i]->0.state == TaskState::Running ==> self.running == Some(
                self.tasks[i]->0.id,
            )
    }

    /// Puts the registered task `id` at the end of the ready queue, unless it
    /// has finished or is marked as queued. Where the ring is full of entries
    /// that earlier tasks left behind, those go first.
    pub open spec fn enqueue(self, id: TaskId) -> SchedView {
        if self.known(id) && (self.rec(id).state == TaskState::Finished || self.rec(id).in_ring) {
            self
        } else {
            SchedView {
                tasks: with_rec(
                    self.tasks,
                    id,
                    TaskRec { state: TaskState::Ready, in_ring: true, ..self.rec(id) },
                ),
                ready: with_room(self.tasks, self.ready).push(id),
                ..self
            }
        }
    }

    /// Takes the oldest entry out of the ready queue.
    pub open spec fn dequeue(self) -> SchedView {
        let id = self.ready[0];
        SchedView {
            tasks: with_rec(self.tasks, id, TaskRec { in_ring: false, ..self.rec(id) }),
            ready: self.ready.drop_first(),
            ..self
        }
    }

    /// Gives the CPU to the task `id`.
    pub open spec fn run(self, id: TaskId) -> SchedView {
        SchedView {
            tasks: with_rec(self.tasks, id, started(self.rec(id), self.edf())),
            running: Some(id),
            running_ticks: 0,
            ..self
        }
    }

    /// The task to run when `head` is the oldest ready entry.
    pub open spec fn choice(self, head: TaskId) -> TaskId {
        if self.edf() {
            edf_choice(self.tasks, head)
        } else {
            head
        }
    }

    /// Runs the next task, if there is one: entries of tasks that are gone or
    /// not ready are dropped, and a ready head that is not chosen goes back to
    /// the end of the queue.
    pub open spec fn dispatch(self) -> (SchedView, Option<TaskId>)
        decreases self.ready.len(),
    {
        if self.ready.len() == 0 {
            (self, None)
        } else {
            let head = self.ready[0];
            let rest = self.dequeue();
            if !rest.known(head) || rest.rec(head).state != TaskState::Ready {
                rest.dispatch()
            } else {
                let c = rest.choice(head);
                if c == head {
                    (rest.run(c), Some(c))
                } else {
                    (rest.enqueue(head).run(c), Some(c))
                }
            }
        }
    }

    /// Takes the CPU from the task `id`, which is then in the state `state`.
    pub open spec fn leave(self, id: TaskId, state: TaskState) -> (SchedView, Option<TaskId>) {
        let v = self.set(id, TaskRec { state, ..self.rec(id) });
        if self.running == Some(id) {
            (SchedView { running: None, running_ticks: 0, ..v }).dispatch()
        } else {
            (v, None)
        }
    }

    /// Wakes the task `id` if it is blocked.
    pub open spec fn wake(self, id: TaskId) -> SchedView {
        if self.known(id) && self.rec(id).state == TaskState::Blocked {
            self.set(id, TaskRec { state: TaskState::Ready, ..self.rec(id) }).enqueue(id)
        } else {
            self
        }
    }

    /// Registers a task in the lowest free slot and queues it.
    pub open spec fn register(self, r: TaskRec) -> SchedView {
        let slot = choose|i: int| first_free(self.tasks, i);
        (SchedView { tasks: self.tasks.update(slot, Some(r)), ..self }).enqueue(r.id)
    }

    /// Takes a registered task out of the table; an entry that it has in the
    /// ready queue stays there.
    pub open spec fn unregister(self, id: TaskId) -> SchedView {
        SchedView {
            tasks: self.tasks.update(slot_of(self.tasks, id), None),
            running: if self.running == Some(id) {
                None
            } else {
                self.running
            },
            ..self
        }
    }

    /// The clock one tick later, with the EDF periods that end rolled over.
    pub open spec fn advance(self) -> SchedView {
        let now = next_count(self.ticks);
        SchedView {
            ticks: now,
            tasks: if self.edf() {
                map_recs(self.tasks, |r: TaskRec| rolled(r, now))
            } else {
                self.tasks
            },
            ..self
        }
    }

    /// One tick of execution on the account of the runner `id`.
    pub open spec fn charge(self, id: TaskId) -> SchedView {
        SchedView {
            tasks: with_rec(self.tasks, id, charged(self.rec(id), self.edf())),
            running_ticks: next_count(self.running_ticks),
            ..self
        }
    }

    /// The turn of the runner `id` is over: its quantum is used up, or its
    /// weight, or its budget.
    pub open spec fn turn_over(self, id: TaskId) -> bool {
        match self.kind {
            PolicyKind::RoundRobin => self.running_ticks >= self.quantum,
            PolicyKind::WeightedRoundRobin => self.running_ticks >= self.rec(id).weight,
            PolicyKind::EarliestDeadlineFirst => self.rec(id).budget_remaining_ticks == 0,
        }
    }

    /// Puts the runner `id` back into the ready queue at the end of its turn.
    pub open spec fn turn_out(self, id: TaskId) -> SchedView {
        let v = (SchedView {
            tasks: with_rec(self.tasks, id, turned_out(self.rec(id), self.edf())),
            running_ticks: 0,
            ..self
        }).enqueue(id);
        if self.kind == PolicyKind::WeightedRoundRobin {
            SchedView { tasks: map_recs(v.tasks, |r: TaskRec| refilled(r)), ..v }
        } else {
            v
        }
    }

    /// One timer tick, and the action it asks for.
    pub open spec fn tick(self) -> (SchedView, SchedAction) {
        let v = self.advance();
        match self.running {
            None => {
                let (w, next) = v.dispatch();
                (w, SchedAction::Preempt(next))
            },
            Some(id) => {
                let u = v.charge(id);
                if u.turn_over(id) {
                    let (w, next) = u.turn_out(id).dispatch();
                    (w, SchedAction::Preempt(next))
                } else {
                    (u, SchedAction::Continue)
                }
            },
        }
    }
}


// ---------------------------------------------------------------------------
// Table lemmas
// ---------------------------------------------------------------------------

/// The slot that holds an id is its slot.
proof fn lemma_slot(tasks: Seq<Option<TaskRec>>, i: int, id: TaskId)
    requires
        distinct_ids(tasks),
        holds(tasks, i, id),
    ensures
        known(tasks, id),
        slot_of(tasks, id) == i,
        rec(tasks, id) == tasks[i]->0,
{
}

/// A registered task is in its slot.
proof fn lemma_known(tasks: Seq<Option<TaskRec>>, id: TaskId)
    requires
        known(tasks, id),
    ensures
        holds(tasks, slot_of(tasks, id), id),
        rec(tasks, id).id == id,
{
}

/// Replacing the record of one task keeps the ids, that record apart the
/// records, and the size of the table.
proof fn lemma_with_rec(tasks: Seq<Option<TaskRec>>, id: TaskId, r: TaskRec)
    requires
        distinct_ids(tasks),
        r.id == id || !known(tasks, id),
    ensures
        with_rec(tasks, id, r).len() == tasks.len(),
        distinct_ids(with_rec(tasks, id, r)),
        forall|x: TaskId| #[trigger] known(with_rec(tasks, id, r), x) <==> known(tasks, x),
        known(tasks, id) ==> rec(with_rec(tasks, id, r), id) == r,
        forall|x: TaskId|
            x != id && known(tasks, x) ==> #[trigger] rec(with_rec(tasks, id, r), x) == rec(
                tasks,
                x,
            ),
{
    let new = with_rec(tasks, id, r);
    if known(tasks, id) {
        let s = slot_of(tasks, id);
        lemma_known(tasks, id);
        assert forall|i: int, x: TaskId| #[trigger] holds(new, i, x) == holds(tasks, i, x) by {}
        assert(distinct_ids(new));
        assert forall|x: TaskId| #[trigger] known(new, x) <==> known(tasks, x) by {
            if known(tasks, x) {
                assert(holds(new, slot_of(tasks, x), x));
            }
            if known(new, x) {
                assert(holds(tasks, slot_of(new, x), x));
            }
        }
        assert(holds(new, s, id));
        assert forall|x: TaskId| x != id && known(tasks, x) implies #[trigger] rec(new, x) == rec(
            tasks,
            x,
        ) by {
            assert(holds(new, slot_of(tasks, x), x));
        }
    }
}

/// A change to every record that keeps the ids keeps the table's shape.
proof fn lemma_map_recs(tasks: Seq<Option<TaskRec>>, f: spec_fn(TaskRec) -> TaskRec)
    requires
        distinct_ids(tasks),
        forall|r: TaskRec| (#[trigger] f(r)).id == r.id,
    ensures
        map_recs(tasks, f).len() == tasks.len(),
        distinct_ids(map_recs(tasks, f)),
        forall|x: TaskId| #[trigger] known(map_recs(tasks, f), x) <==> known(tasks, x),
        forall|x: TaskId|
            known(tasks, x) ==> #[trigger] rec(map_recs(tasks, f), x) == f(rec(tasks, x)),
        forall|i: int|
            0 <= i < tasks.len() ==> #[trigger] map_recs(tasks, f)[i] == (match tasks[i] {
                Some(r) => Some(f(r)),
                None => None,
            }),
{
    let new = map_recs(tasks, f);
    assert forall|i: int, x: TaskId| #[trigger] holds(new, i, x) == holds(tasks, i, x) by {
        if 0 <= i < tasks.len() {
            assert(new[i] == (match tasks[i] {
                Some(r) => Some(f(r)),
                None => None,
            }));
        }
    }
    assert forall|x: TaskId| #[trigger] known(new, x) <==> known(tasks, x) by {
        if known(tasks, x) {
            assert(holds(new, slot_of(tasks, x), x));
        }
        if known(new, x) {
            assert(holds(tasks, slot_of(new, x), x));
        }
    }
    assert forall|x: TaskId| known(tasks, x) implies #[trigger] rec(new, x) == f(rec(tasks, x)) by {
        assert(holds(new, slot_of(tasks, x), x));
    }
}

/// Different registered tasks have different slots.
proof fn lemma_distinct_known_bound(tasks: Seq<Option<TaskRec>>, ids: Seq<TaskId>)
    requires
        ids.no_duplicates(),
        forall|k: int| 0 <= k < ids.len() ==> known(tasks, #[trigger] ids[k]),
    ensures
        ids.len() <= occupied(tasks),
    decreases tasks.len(),
{
    if tasks.len() == 0 {
        if ids.len() > 0 {
            assert(known(tasks, ids[0]));
        }
    } else {
        let short = tasks.drop_last();
        let last = tasks.last();
        assert forall|x: TaskId|
            known(tasks, x) && (last is None || last->0.id != x) implies known(
            short,
            x,
        ) by {
            let i = slot_of(tasks, x);
            assert(holds(tasks, i, x));
            assert(holds(short, i, x));
        }
        if last is Some && ids.contains(last->0.id) {
            let p = ids.index_of(last->0.id);
            let less = ids.remove(p);
            assert(less.len() == ids.len() - 1);
            assert forall|a: int, b: int|
                0 <= a < less.len() && 0 <= b < less.len() && a != b implies less[a]
                != less[b] by {
                let a0 = if a < p {
                    a
                } else {
                    a + 1
                };
                let b0 = if b < p {
                    b
                } else {
                    b + 1
                };
                assert(less[a] == ids[a0]);
                assert(less[b] == ids[b0]);
            }
            assert forall|k: int| 0 <= k < less.len() implies known(
                short,
                #[trigger] less[k],
            ) by {
                let k0 = if k < p {
                    k
                } else {
                    k + 1
                };
                assert(less[k] == ids[k0]);
                assert(ids[k0] != ids[p]);
            }
            lemma_distinct_known_bound(short, less);
        } else {
            assert forall|k: int| 0 <= k < ids.len() implies known(
                short,
                #[trigger] ids[k],
            ) by {
                assert(ids.contains(ids[k]));
            }
            lemma_distinct_known_bound(short, ids);
        }
    }
}

/// No more slots are occupied than there are.
proof fn lemma_occupied_bound(tasks: Seq<Option<TaskRec>>)
    ensures
        occupied(tasks) <= tasks.len(),
    decreases tasks.len(),
{
    if tasks.len() > 0 {
        lemma_occupied_bound(tasks.drop_last());
    }
}

/// What the entries that count are: each task that is marked and has an entry,
/// once.
proof fn lemma_compact(tasks: Seq<Option<TaskRec>>, q: Seq<TaskId>)
    ensures
        compact(tasks, q).no_duplicates(),
        compact(tasks, q).len() <= q.len(),
        forall|x: TaskId| #[trigger]
            compact(tasks, q).contains(x) <==> q.contains(x) && marked(tasks, x),
    decreases q.len(),
{
    if q.len() > 0 {
        let less = q.drop_last();
        let x = q.last();
        lemma_compact(tasks, less);
        let before = compact(tasks, less);
        let all = compact(tasks, q);
        assert forall|y: TaskId| #[trigger] all.contains(y) <==> q.contains(y) && marked(
            tasks,
            y,
        ) by {
            if less.contains(y) {
                assert(q[less.index_of(y)] == y);
            }
            if q.contains(y) && y != x {
                assert(less[q.index_of(y)] == y);
            }
            assert(q[q.len() - 1] == x);
            if before.contains(y) {
                assert(all[before.index_of(y)] == y);
            }
            if marked(tasks, x) && !before.contains(x) {
                assert(all[before.len() as int] == x);
                if all.contains(y) && y != x {
                    assert(before[all.index_of(y)] == y);
                }
            }
        }
        if marked(tasks, x) && !before.contains(x) {
            assert forall|a: int, b: int|
                0 <= a < all.len() && 0 <= b < all.len() && a != b implies all[a] != all[b] by {
                if a < before.len() {
                    assert(before.contains(before[a]));
                }
                if b < before.len() {
                    assert(before.contains(before[b]));
                }
            }
        }
    } else {
        assert forall|x: TaskId| !#[trigger] compact(tasks, q).contains(x) by {}
    }
}

/// There is room for the entry of a registered task that is not marked, and
/// every entry that counts is kept.
proof fn lemma_with_room(tasks: Seq<Option<TaskRec>>, q: Seq<TaskId>, id: TaskId)
    requires
        tasks.len() == MAX_TASKS,
        known(tasks, id),
        !rec(tasks, id).in_ring,
    ensures
        with_room(tasks, q).len() < RING_CAPACITY,
        forall|x: TaskId| #[trigger]
            q.contains(x) && marked(tasks, x) ==> with_room(tasks, q).contains(x),
{
    lemma_compact(tasks, q);
    lemma_occupied_bound(tasks);
    let kept = compact(tasks, q);
    assert(!kept.contains(id));
    let more = kept.push(id);
    assert forall|a: int, b: int|
        0 <= a < more.len() && 0 <= b < more.len() && a != b implies more[a] != more[b] by {
        if a < kept.len() {
            assert(kept.contains(kept[a]));
        }
        if b < kept.len() {
            assert(kept.contains(kept[b]));
        }
    }
    assert forall|k: int| 0 <= k < more.len() implies known(tasks, #[trigger] more[k]) by {
        if k < kept.len() {
            assert(kept.contains(kept[k]));
        }
    }
    lemma_distinct_known_bound(tasks, more);
}

/// EDF picks one slot.
proof fn lemma_edf_winner_unique(tasks: Seq<Option<TaskRec>>, head: int, n: int, a: int, b: int)
    requires
        0 <= n <= tasks.len(),
        edf_winner(tasks, head, n, a),
        edf_winner(tasks, head, n, b),
    ensures
        a == b,
{
    if a != b {
        if a != head && b != head {
            if a < b {
                assert(ready_at(tasks, a));
                assert(edf_before(tasks[b]->0, tasks[a]->0));
                assert(ready_at(tasks, b));
            } else {
                assert(ready_at(tasks, b));
                assert(edf_before(tasks[a]->0, tasks[b]->0));
                assert(ready_at(tasks, a));
            }
        } else if a == head {
            assert(ready_at(tasks, b));
        } else {
            assert(ready_at(tasks, a));
        }
    }
}

/// EDF always has a pick.
proof fn lemma_edf_winner_exists(tasks: Seq<Option<TaskRec>>, head: int, n: int) -> (w: int)
    requires
        0 <= n <= tasks.len(),
        ready_at(tasks, head),
    ensures
        edf_winner(tasks, head, n, w),
        ready_at(tasks, w),
    decreases n,
{
    if n == 0 {
        head
    } else {
        let v = lemma_edf_winner_exists(tasks, head, n - 1);
        let k = n - 1;
        if k != head && ready_at(tasks, k) && edf_before(tasks[k]->0, tasks[v]->0) {
            k
        } else {
            v
        }
    }
}

/// What EDF chooses is a ready task.
proof fn lemma_edf_choice(tasks: Seq<Option<TaskRec>>, head: TaskId) -> (w: int)
    requires
        distinct_ids(tasks),
        known(tasks, head),
        rec(tasks, head).state == TaskState::Ready,
    ensures
        edf_winner(tasks, slot_of(tasks, head), tasks.len() as int, w),
        ready_at(tasks, w),
        holds(tasks, w, tasks[w]->0.id),
        edf_choice(tasks, head) == tasks[w]->0.id,
{
    let h = slot_of(tasks, head);
    lemma_known(tasks, head);
    let n = tasks.len() as int;
    let w = lemma_edf_winner_exists(tasks, h, n);
    let c = choose|c: int| edf_winner(tasks, h, n, c);
    lemma_edf_winner_unique(tasks, h, n, w, c);
    w
}

impl SchedView {
    /// Valid, and no task is in the running state.
    pub open spec fn idle(self) -> bool {
        &&& self.wf()
        &&& forall|i: int|
            0 <= i < self.tasks.len() && (#[trigger] self.tasks[i]) is Some
                ==> self.tasks[i]->0.state != TaskState::Running
    }

    proof fn lemma_enqueue(self, id: TaskId)
        requires
            self.wf(),
            self.known(id),
        ensures
            self.enqueue(id).wf(),
            self.idle() ==> self.enqueue(id).idle(),
            forall|x: TaskId| #[trigger] self.enqueue(id).known(x) <==> self.known(x),
            forall|x: TaskId|
                x != id && self.known(x) ==> #[trigger] self.enqueue(id).rec(x) == self.rec(x),
    {
        let r = TaskRec { state: TaskState::Ready, in_ring: true, ..self.rec(id) };
        lemma_known(self.tasks, id);
        lemma_with_rec(self.tasks, id, r);
        if !self.rec(id).in_ring {
            lemma_with_room(self.tasks, self.ready, id);
        }
    }

    proof fn lemma_dequeue(self)
        requires
            self.wf(),
            self.ready.len() > 0,
        ensures
            self.dequeue().wf(),
            self.idle() ==> self.dequeue().idle(),
            forall|x: TaskId| #[trigger] self.dequeue().known(x) <==> self.known(x),
            forall|x: TaskId|
                self.known(x) && x != self.ready[0] ==> #[trigger] self.dequeue().rec(x)
                    == self.rec(x),
            self.known(self.ready[0]) ==> self.dequeue().rec(self.ready[0]) == (TaskRec {
                in_ring: false,
                ..self.rec(self.ready[0])
            }),
    {
        let id = self.ready[0];
        let r = TaskRec { in_ring: false, ..self.rec(id) };
        if self.known(id) {
            lemma_known(self.tasks, id);
        }
        lemma_with_rec(self.tasks, id, r);
    }

    proof fn lemma_run(self, id: TaskId)
        requires
            self.idle(),
            self.known(id),
        ensures
            self.run(id).wf(),
            self.run(id).rec(id) == started(self.rec(id), self.edf()),
            forall|x: TaskId| #[trigger] self.run(id).known(x) <==> self.known(x),
            forall|x: TaskId|
                x != id && self.known(x) ==> #[trigger] self.run(id).rec(x) == self.rec(x),
    {
        lemma_known(self.tasks, id);
        lemma_with_rec(self.tasks, id, started(self.rec(id), self.edf()));
    }

    /// The chosen task is registered and ready.
    proof fn lemma_choice(self, head: TaskId)
        requires
            self.wf(),
            self.known(head),
            self.rec(head).state == TaskState::Ready,
        ensures
            self.known(self.choice(head)),
            self.rec(self.choice(head)).state == TaskState::Ready,
    {
        if self.edf() {
            let w = lemma_edf_choice(self.tasks, head);
            lemma_slot(self.tasks, w, self.tasks[w]->0.id);
        }
    }

    /// Dispatching from an idle state keeps the state valid; the task that is
    /// handed out is the runner, and with none to hand out the queue is empty.
    pub proof fn lemma_dispatch(self)
        requires
            self.idle(),
        ensures
            self.dispatch().0.wf(),
            self.dispatch().1 matches Some(c) ==> self.dispatch().0.running == Some(c)
                && self.dispatch().0.rec(c).state == TaskState::Running && self.known(c),
            self.dispatch().1 is None ==> self.dispatch().0.idle() && self.dispatch().0.running
                == self.running && self.dispatch().0.ready.len() == 0,
            self.dispatch().0.ticks == self.ticks,
            self.dispatch().0.kind == self.kind,
            self.dispatch().0.quantum == self.quantum,
            forall|x: TaskId| #[trigger] self.dispatch().0.known(x) <==> self.known(x),
        decreases self.ready.len(),
    {
        if self.ready.len() > 0 {
            let head = self.ready[0];
            let rest = self.dequeue();
            self.lemma_dequeue();
            if !rest.known(head) || rest.rec(head).state != TaskState::Ready {
                rest.lemma_dispatch();
            } else {
                rest.lemma_choice(head);
                let c = rest.choice(head);
                if c == head {
                    rest.lemma_run(c);
                } else {
                    rest.lemma_enqueue(head);
                    rest.enqueue(head).lemma_run(c);
                }
            }
        }
    }
}

impl SchedView {
    /// Blocking or finishing a task keeps the state valid.
    pub proof fn lemma_leave(self, id: TaskId, state: TaskState)
        requires
            self.wf(),
            state == TaskState::Blocked || state == TaskState::Finished,
        ensures
            self.leave(id, state).0.wf(),
            self.running == Some(id) ==> (SchedView {
                running: None,
                running_ticks: 0,
                ..self.set(id, TaskRec { state, ..self.rec(id) })
            }).idle(),
    {
        if self.known(id) {
            lemma_known(self.tasks, id);
        }
        lemma_with_rec(self.tasks, id, TaskRec { state, ..self.rec(id) });
        if self.running == Some(id) {
            let v = SchedView {
                running: None,
                running_ticks: 0,
                ..self.set(id, TaskRec { state, ..self.rec(id) })
            };
            let s = slot_of(self.tasks, id);
            assert forall|i: int| 0 <= i < v.tasks.len() && (#[trigger] v.tasks[i]) is Some implies
                v.tasks[i]->0.state != TaskState::Running by {
                if i != s {
                    assert(v.tasks[i] == self.tasks[i]);
                    assert(holds(self.tasks, i, self.tasks[i]->0.id));
                }
            }
            v.lemma_dispatch();
        }
    }

    /// Waking a task keeps the state valid.
    pub proof fn lemma_wake(self, id: TaskId)
        requires
            self.wf(),
        ensures
            self.wake(id).wf(),
    {
        if self.known(id) && self.rec(id).state == TaskState::Blocked {
            lemma_known(self.tasks, id);
            let r = TaskRec { state: TaskState::Ready, ..self.rec(id) };
            lemma_with_rec(self.tasks, id, r);
            self.set(id, r).lemma_enqueue(id);
        }
    }

    /// Advancing the clock keeps the state valid.
    proof fn lemma_advance(self)
        requires
            self.wf(),
        ensures
            self.advance().wf(),
            self.running is None ==> self.advance().idle(),
            forall|x: TaskId| #[trigger] self.advance().known(x) <==> self.known(x),
    {
        if self.edf() {
            lemma_map_recs(self.tasks, |r: TaskRec| rolled(r, next_count(self.ticks)));
        }
    }

    /// Charging the runner keeps the state valid.
    proof fn lemma_charge(self, id: TaskId)
        requires
            self.wf(),
            self.running == Some(id),
        ensures
            self.charge(id).wf(),
            self.charge(id).known(id),
            self.charge(id).rec(id) == charged(self.rec(id), self.edf()),
    {
        lemma_known(self.tasks, id);
        lemma_with_rec(self.tasks, id, charged(self.rec(id), self.edf()));
    }

    /// Ending the runner's turn leaves nobody in the running state.
    proof fn lemma_turn_out(self, id: TaskId)
        requires
            self.wf(),
            self.running == Some(id),
        ensures
            self.turn_out(id).idle(),
            (SchedView {
                tasks: with_rec(self.tasks, id, turned_out(self.rec(id), self.edf())),
                running_ticks: 0,
                ..self
            }).idle(),
    {
        lemma_known(self.tasks, id);
        let r = turned_out(self.rec(id), self.edf());
        lemma_with_rec(self.tasks, id, r);
        let v = SchedView { tasks: with_rec(self.tasks, id, r), running_ticks: 0, ..self };
        let s = slot_of(self.tasks, id);
        assert forall|i: int| 0 <= i < v.tasks.len() && (#[trigger] v.tasks[i]) is Some implies
            v.tasks[i]->0.state != TaskState::Running by {
            if i != s {
                assert(v.tasks[i] == self.tasks[i]);
                assert(holds(self.tasks, i, self.tasks[i]->0.id));
            }
        }
        v.lemma_enqueue(id);
        if self.kind == PolicyKind::WeightedRoundRobin {
            lemma_map_recs(v.enqueue(id).tasks, |r: TaskRec| refilled(r));
        }
    }

    /// A tick keeps the state valid.
    pub proof fn lemma_tick(self)
        requires
            self.wf(),
        ensures
            self.tick().0.wf(),
    {
        let v = self.advance();
        self.lemma_advance();
        match self.running {
            None => {
                v.lemma_dispatch();
            },
            Some(id) => {
                let u = v.charge(id);
                v.lemma_charge(id);
                if u.turn_over(id) {
                    u.lemma_turn_out(id);
                    u.turn_out(id).lemma_dispatch();
                }
            },
        }
    }

    /// Registering a task keeps the state valid.
    pub proof fn lemma_register(self, r: TaskRec)
        requires
            self.wf(),
            !self.known(r.id),
            !table_full(self.tasks),
            r.state == TaskState::Ready,
        ensures
            self.register(r).wf(),
            exists|i: int| first_free(self.tasks, i),
            forall|i: int| first_free(self.tasks, i) ==> (SchedView {
                tasks: #[trigger] self.tasks.update(i, Some(r)),
                ..self
            }).wf(),
    {
        lemma_first_free_exists(self.tasks, self.tasks.len() as int);
        let slot = choose|i: int| first_free(self.tasks, i);
        assert forall|i: int| first_free(self.tasks, i) implies (SchedView {
            tasks: #[trigger] self.tasks.update(i, Some(r)),
            ..self
        }).wf() by {
            self.lemma_register_at(r, i);
        }
        let new = self.tasks.update(slot, Some(r));
        assert(holds(new, slot, r.id));
        (SchedView { tasks: new, ..self }).lemma_enqueue(r.id);
    }

    proof fn lemma_register_at(self, r: TaskRec, i: int)
        requires
            self.wf(),
            !self.known(r.id),
            r.state == TaskState::Ready,
            first_free(self.tasks, i),
        ensures
            (SchedView { tasks: self.tasks.update(i, Some(r)), ..self }).wf(),
    {
        let new = self.tasks.update(i, Some(r));
        assert forall|a: int, b: int, id: TaskId| #[trigger]
            holds(new, a, id) && #[trigger] holds(new, b, id) implies a == b by {
            if a != i {
                assert(holds(self.tasks, a, id));
            }
            if b != i {
                assert(holds(self.tasks, b, id));
            }
        }
        if let Some(x) = self.running {
            lemma_known(self.tasks, x);
            assert(holds(new, slot_of(self.tasks, x), x));
            lemma_slot(new, slot_of(self.tasks, x), x);
        }
    }

    /// Unregistering a task keeps the state valid.
    pub proof fn lemma_unregister(self, id: TaskId)
        requires
            self.wf(),
            self.known(id),
        ensures
            self.unregister(id).wf(),
            !self.unregister(id).known(id),
    {
        let s = slot_of(self.tasks, id);
        lemma_known(self.tasks, id);
        let new = self.unregister(id).tasks;
        assert forall|a: int, x: TaskId| #[trigger] holds(new, a, x) implies holds(
            self.tasks,
            a,
            x,
        ) && x != id by {
            assert(holds(self.tasks, a, x));
            assert(holds(self.tasks, s, id));
        }
        assert forall|i: int|
            0 <= i < new.len() && (#[trigger] new[i]) is Some && new[i]->0.state
                == TaskState::Running implies self.unregister(id).running == Some(
            new[i]->0.id,
        ) by {
            assert(holds(new, i, new[i]->0.id));
            assert(self.tasks[i] == new[i]);
        }
        if let Some(x) = self.unregister(id).running {
            lemma_known(self.tasks, x);
            assert(holds(new, slot_of(self.tasks, x), x));
            lemma_slot(new, slot_of(self.tasks, x), x);
        }
    }
}

/// A table with a free slot has a lowest one.
proof fn lemma_first_free_exists(tasks: Seq<Option<TaskRec>>, n: int)
    requires
        0 <= n <= tasks.len(),
        exists|i: int| 0 <= i < n && (#[trigger] tasks[i]) is None,
    ensures
        exists|i: int| first_free(tasks, i),
    decreases n,
{
    if exists|i: int| 0 <= i < n - 1 && (#[trigger] tasks[i]) is None {
        lemma_first_free_exists(tasks, n - 1);
    } else {
        assert(first_free(tasks, n - 1));
    }
}

// ---------------------------------------------------------------------------
// Operations
// ---------------------------------------------------------------------------

impl TaskRec {
    /// The record of a new task that is ready and not queued.
    fn new(id: TaskId, priority: u8, weight: u32, deadline: Option<Deadline>) -> (r: Self)
        requires
            priority >= 1,
            weight >= 1,
        ensures
            r == (TaskRec { next_deadline_ticks: 0, ..fresh(id, priority, weight, deadline, 0) }),
    {
        Self {
            id,
            priority,
            weight,
            deadline,
            state: TaskState::Ready,
            stats: TaskStats {
                runs: 0,
                preemptions: 0,
                deadline_misses: 0,
                budget_exhaustions: 0,
                total_ticks: 0,
            },
            next_deadline_ticks: 0,
            budget_remaining_ticks: match deadline {
                Some(d) => d.budget,
                None => 0,
            },
            credits: weight,
            in_ring: false,
        }
    }
}

impl PolicyKind {
    /// Name of the policy.
    pub fn name(self) -> (s: &'static str)
        ensures
            s@ == match self {
                PolicyKind::RoundRobin => "round-robin"@,
                PolicyKind::WeightedRoundRobin => "weighted-round-robin"@,
                PolicyKind::EarliestDeadlineFirst => "edf"@,
            },
    {
        match self {
            PolicyKind::RoundRobin => "round-robin",
            PolicyKind::WeightedRoundRobin => "weighted-round-robin",
            PolicyKind::EarliestDeadlineFirst => "edf",
        }
    }
}

/// The scheduler policy of a configured one.
pub open spec fn policy_of(p: SchedPolicy) -> PolicyKind {
    match p {
        SchedPolicy::RoundRobin => PolicyKind::RoundRobin,
        SchedPolicy::WeightedRoundRobin => PolicyKind::WeightedRoundRobin,
        SchedPolicy::EarliestDeadlineFirst => PolicyKind::EarliestDeadlineFirst,
    }
}

impl From<SchedPolicy> for PolicyKind {
    fn from(p: SchedPolicy) -> (k: Self) {
        match p {
            SchedPolicy::RoundRobin => PolicyKind::RoundRobin,
            SchedPolicy::WeightedRoundRobin => PolicyKind::WeightedRoundRobin,
            SchedPolicy::EarliestDeadlineFirst => PolicyKind::EarliestDeadlineFirst,
        }
    }
}

impl vstd::std_specs::convert::FromSpecImpl<SchedPolicy> for PolicyKind {
    open spec fn obeys_from_spec() -> bool {
        true
    }

    open spec fn from_spec(p: SchedPolicy) -> Self {
        policy_of(p)
    }
}

impl Clone for Scheduler {
    fn clone(&self) -> (r: Self)
        ensures
            r@ == self@,
            r.wf() == self.wf(),
    {
        Scheduler {
            kind: self.kind,
            quantum_ticks: self.quantum_ticks,
            ticks: self.ticks,
            running: self.running,
            tasks: self.tasks,
            ready: self.ready,
            ready_head: self.ready_head,
            ready_len: self.ready_len,
            running_ticks: self.running_ticks,
        }
    }
}

impl Scheduler {
    /// What the scheduler holds.
    pub closed spec fn view(&self) -> SchedView {
        SchedView {
            kind: self.kind,
            quantum: self.quantum_ticks,
            ticks: self.ticks,
            running: self.running,
            tasks: self.tasks@,
            ready: Seq::new(
                self.ready_len as nat,
                |i: int| self.ready@[(self.ready_head + i) % 32],
            ),
            running_ticks: self.running_ticks,
        }
    }

    /// The ring indices are in bounds and no id stands twice in the table.
    closed spec fn rep(&self) -> bool {
        self.ready_head < MAX_TASKS && self.ready_len <= RING_CAPACITY && distinct_ids(self.tasks@)
    }

    /// Validity of a scheduler: its state is valid, every ready task is in the
    /// ready queue, and the runner is in the running state.
    pub closed spec fn wf(&self) -> bool {
        self.rep() && laws::nobody_lost(self@)
    }

    /// What every valid scheduler keeps.
    pub proof fn lemma_wf(&self)
        requires
            self.wf(),
        ensures
            self@.wf(),
            laws::nobody_lost(self@),
    {
    }

    fn slot_of(&self, id: TaskId) -> (r: Option<usize>)
        requires
            self.rep(),
        ensures
            match r {
                Some(i) => holds(self@.tasks, i as int, id) && self@.known(id) && slot_of(
                    self@.tasks,
                    id,
                ) == i,
                None => !self@.known(id),
            },
    {
        for i in 0..MAX_TASKS
            invariant
                self.rep(),
                forall|j: int| 0 <= j < i ==> !holds(self@.tasks, j, id),
        {
            if let Some(r) = &self.tasks[i] {
                if r.id == id {
                    proof {
                        assert(holds(self@.tasks, i as int, id));
                        lemma_slot(self@.tasks, i as int, id);
                    }
                    return Some(i);
                }
            }
        }
        None
    }

    fn task_mut(&mut self, id: TaskId) -> (r: Option<&mut TaskRec>)
        requires
            old(self).rep(),
        ensures
            match r {
                Some(t) => old(self)@.known(id) && *t == old(self)@.rec(id) && final(self)@
                    =~= old(self)@.set(id, *final(t)) && (final(t).id == id ==> final(self).rep()),
                None => !old(self)@.known(id) && *final(self) == *old(self),
            },
    {
        match self.slot_of(id) {
            None => None,
            Some(i) => {
                proof {
                    assert forall|r: TaskRec| r.id == id implies distinct_ids(
                        #[trigger] with_rec(self@.tasks, id, r),
                    ) by {
                        lemma_with_rec(self@.tasks, id, r);
                    }
                    assert(forall|r: TaskRec| #[trigger] with_rec(self@.tasks, id, r) == self@.tasks.update(i as int, Some(r)));
                }
                self.tasks[i].as_mut()
            },
        }
    }

    /// The record of a task.
    fn rec_of(&self, id: TaskId) -> (r: Option<&TaskRec>)
        requires
            self.rep(),
        ensures
            match r {
                Some(t) => self@.known(id) && *t == self@.rec(id),
                None => !self@.known(id),
            },
    {
        match self.slot_of(id) {
            Some(i) => self.tasks[i].as_ref(),
            None => None,
        }
    }

    /// Whether `id` is among the first `n` cells.
    fn among(cells: &[TaskId; MAX_TASKS], n: usize, id: TaskId) -> (r: bool)
        requires
            n <= MAX_TASKS,
        ensures
            r == cells@.take(n as int).contains(id),
    {
        for i in 0..n
            invariant
                n <= MAX_TASKS,
                forall|j: int| 0 <= j < i ==> cells@[j] != id,
        {
            if cells[i] == id {
                proof {
                    assert(cells@.take(n as int)[i as int] == id);
                }
                return true;
            }
        }
        false
    }

    /// Drops the ring entries that do not count.
    fn drop_stale(&mut self)
        requires
            old(self).rep(),
        ensures
            final(self).rep(),
            final(self)@ =~= (SchedView {
                ready: compact(old(self)@.tasks, old(self)@.ready),
                ..old(self)@
            }),
    {
        let ghost q = self@.ready;
        let mut kept: [TaskId; MAX_TASKS] = [u64::MAX; MAX_TASKS];
        let mut n: usize = 0;
        proof {
            assert(kept@.take(0) =~= compact(self@.tasks, q.take(0)));
        }
        for i in 0..self.ready_len
            invariant
                self.rep(),
                *self == *old(self),
                q == self@.ready,
                n <= i,
                kept@.take(n as int) == compact(self@.tasks, q.take(i as int)),
        {
            let id = self.ready[(self.ready_head + i) % MAX_TASKS];
            proof {
                assert(q[i as int] == id);
                assert(q.take(i + 1).drop_last() =~= q.take(i as int));
                assert(q.take(i + 1).last() == id);
            }
            let is_marked = match self.rec_of(id) {
                Some(r) => r.in_ring,
                None => false,
            };
            if is_marked && !Self::among(&kept, n, id) {
                let ghost before = kept@.take(n as int);
                kept[n] = id;
                n += 1;
                proof {
                    assert(kept@.take(n as int) =~= before.push(id));
                }
            }
        }
        proof {
            assert(q.take(q.len() as int) =~= q);
        }
        self.ready = kept;
        self.ready_head = 0;
        self.ready_len = n;
        proof {
            assert(self@.ready =~= kept@.take(n as int));
        }
    }

    fn enqueue_ready(&mut self, id: TaskId)
        requires
            old(self).rep(),
            old(self)@.known(id),
        ensures
            final(self).rep(),
            final(self)@ =~= old(self)@.enqueue(id),
    {
        let ghost before = self@;
        if let Some(r) = self.rec_of(id) {
            if r.state == TaskState::Finished || r.in_ring {
                return;
            }
        }
        proof {
            lemma_with_room(before.tasks, before.ready, id);
        }
        if self.ready_len == RING_CAPACITY {
            // The table is capped: some of the entries are stale.
            self.drop_stale();
        }
        let ghost kept = self@;
        if let Some(r) = self.task_mut(id) {
            r.state = TaskState::Ready;
            r.in_ring = true;
        }
        let ghost mid = self@;
        let tail = (self.ready_head + self.ready_len) % MAX_TASKS;
        self.ready[tail] = id;
        self.ready_len += 1;
        proof {
            assert(mid.ready == kept.ready);
            assert(self@.ready =~= mid.ready.push(id));
        }
    }

    fn dequeue_ready(&mut self) -> (r: Option<TaskId>)
        requires
            old(self).rep(),
        ensures
            final(self).rep(),
            match r {
                Some(id) => old(self)@.ready.len() > 0 && id == old(self)@.ready[0] && final(self)@
                    =~= old(self)@.dequeue(),
                None => old(self)@.ready.len() == 0 && *final(self) == *old(self),
            },
    {
        if self.ready_len == 0 {
            return None;
        }
        let ghost before = self@;
        let id = self.ready[self.ready_head];
        self.ready_head = (self.ready_head + 1) % MAX_TASKS;
        self.ready_len -= 1;
        proof {
            assert(self@.ready =~= before.ready.drop_first());
        }
        if let Some(r) = self.task_mut(id) {
            r.in_ring = false;
        }
        Some(id)
    }

    /// Among the ready tasks, the one with the earliest deadline; of equal
    /// deadlines the higher priority, then `first`, then the lower slot. Tasks
    /// without a deadline run only when no task with one is ready.
    fn choose_edf(&self, first: TaskId) -> (r: TaskId)
        requires
            self.rep(),
            self@.known(first),
            self@.rec(first).state == TaskState::Ready,
        ensures
            r == edf_choice(self@.tasks, first),
    {
        let head: usize = match self.slot_of(first) {
            Some(i) => i,
            None => 0,
        };
        let mut best: usize = head;
        let mut best_rec: TaskRec = match self.tasks[head] {
            Some(r) => r,
            None => TaskRec::new(first, 1, 1, None),
        };
        for i in 0..MAX_TASKS
            invariant
                self.rep(),
                holds(self@.tasks, head as int, first),
                ready_at(self@.tasks, head as int),
                ready_at(self@.tasks, best as int),
                best_rec == self@.tasks[best as int]->0,
                edf_winner(self@.tasks, head as int, i as int, best as int),
        {
            if let Some(rec) = &self.tasks[i] {
                proof {
                    assert(holds(self@.tasks, i as int, rec.id));
                }
                if rec.state == TaskState::Ready && rec.id != first {
                    proof {
                        assert(ready_at(self@.tasks, i as int));
                    }
                    let better = match (rec.deadline, best_rec.deadline) {
                        (Some(_), None) => true,
                        (None, Some(_)) => false,
                        (Some(_), Some(_)) => rec.next_deadline_ticks
                            < best_rec.next_deadline_ticks || (rec.next_deadline_ticks
                            == best_rec.next_deadline_ticks && rec.priority > best_rec.priority),
                        (None, None) => rec.priority > best_rec.priority,
                    };
                    if better {
                        best = i;
                        best_rec = *rec;
                    }
                }
            }
        }
        proof {
            let w = lemma_edf_choice(self@.tasks, first);
            lemma_edf_winner_unique(self@.tasks, head as int, 32, w, best as int);
        }
        best_rec.id
    }

    /// Select the next task to dispatch. Never blocks.
    fn dispatch(&mut self) -> (r: Option<TaskId>)
        requires
            old(self).rep(),
            old(self)@.idle(),
        ensures
            final(self).rep(),
            final(self)@ =~= old(self)@.dispatch().0,
            r == old(self)@.dispatch().1,
    {
        proof {
            self@.lemma_dispatch();
        }
        let ghost goal = self@.dispatch();
        loop
            invariant
                self.rep(),
                self@.idle(),
                self@.dispatch() == goal,
                goal == old(self)@.dispatch(),
                goal.0.wf(),
            decreases self@.ready.len(),
        {
            let ghost before = self@;
            proof {
                if before.ready.len() > 0 {
                    before.lemma_dequeue();
                }
            }
            let id = match self.dequeue_ready() {
                Some(id) => id,
                None => {
                    return None;
                },
            };
            let is_ready = match self.rec_of(id) {
                Some(r) => r.state == TaskState::Ready,
                None => false,
            };
            // An entry can be stale: only ready tasks run.
            if !is_ready {
                continue;
            }
            proof {
                self@.lemma_choice(id);
            }
            let is_edf = self.kind == PolicyKind::EarliestDeadlineFirst;
            let c = if is_edf {
                self.choose_edf(id)
            } else {
                id
            };
            if c != id {
                // Give the head back its place in the ring.
                proof {
                    self@.lemma_enqueue(id);
                }
                self.enqueue_ready(id);
            }
            proof {
                self@.lemma_run(c);
            }
            let ghost mid = self@;
            if let Some(r) = self.task_mut(c) {
                r.state = TaskState::Running;
                r.stats.runs = r.stats.runs.wrapping_add(1);
                if is_edf {
                    if let Some(d) = r.deadline {
                        r.budget_remaining_ticks = d.budget;
                    }
                }
            }
            self.running = Some(c);
            self.running_ticks = 0;
            proof {
                assert(self@ =~= mid.run(c));
            }
            return Some(c);
        }
    }

    /// The record of a task.
    pub fn task(&self, id: TaskId) -> (r: Option<&TaskRec>)
        requires
            self.wf(),
        ensures
            match r {
                Some(t) => self@.known(id) && *t == self@.rec(id),
                None => !self@.known(id),
            },
    {
        self.rec_of(id)
    }

    /// A scheduler with no tasks. `quantum_ticks` is the length of one
    /// scheduling quantum in timer ticks, at least one.
    pub fn new(kind: PolicyKind, quantum_ticks: u64) -> (s: Self)
        ensures
            s.wf(),
            s@ == empty_sched(kind, quantum_ticks),
    {
        let s = Self {
            kind,
            quantum_ticks: if quantum_ticks == 0 {
                1
            } else {
                quantum_ticks
            },
            ticks: 0,
            running: None,
            tasks: [None; MAX_TASKS],
            ready: [u64::MAX; MAX_TASKS],
            ready_head: 0,
            ready_len: 0,
            running_ticks: 0,
        };
        proof {
            assert(s@.tasks =~= Seq::new(MAX_TASKS as nat, |i: int| None));
            assert(s@.ready =~= Seq::<TaskId>::empty());
            laws::law_new_loses_nobody(s@);
        }
        s
    }

    /// The active policy.
    pub fn kind(&self) -> (k: PolicyKind)
        ensures
            k == self@.kind,
    {
        self.kind
    }

    /// Ticks since the start.
    pub fn ticks(&self) -> (t: u64)
        ensures
            t == self@.ticks,
    {
        self.ticks
    }

    /// The task that holds the CPU.
    pub fn running(&self) -> (r: Option<TaskId>)
        ensures
            r == self@.running,
    {
        self.running
    }

    /// Number of entries in the ready queue.
    pub fn ready_count(&self) -> (n: usize)
        requires
            self.wf(),
        ensures
            n == self@.ready.len(),
    {
        self.ready_len
    }

    /// Total number of tasks in the table (any state).
    pub fn task_count(&self) -> (n: usize)
        requires
            self.wf(),
        ensures
            n == occupied(self@.tasks),
    {
        let mut n: usize = 0;
        for i in 0..MAX_TASKS
            invariant
                n <= i,
                self@.tasks.len() == MAX_TASKS,
                n == occupied(self@.tasks.take(i as int)),
        {
            proof {
                assert(self@.tasks.take(i + 1).drop_last() =~= self@.tasks.take(i as int));
            }
            if self.tasks[i].is_some() {
                n += 1;
            }
        }
        proof {
            assert(self@.tasks.take(32) =~= self@.tasks);
        }
        n
    }

    /// The records of all tasks, in slot order.
    pub fn iter(&self) -> (v: Vec<&TaskRec>)
        requires
            self.wf(),
        ensures
            v@.len() == records(self@.tasks).len(),
            forall|k: int| 0 <= k < v@.len() ==> *(#[trigger] v@[k]) == records(self@.tasks)[k],
    {
        let mut v: Vec<&TaskRec> = Vec::new();
        for i in 0..MAX_TASKS
            invariant
                self@.tasks.len() == MAX_TASKS,
                v@.len() == records(self@.tasks.take(i as int)).len(),
                forall|k: int|
                    0 <= k < v@.len() ==> *(#[trigger] v@[k]) == records(
                        self@.tasks.take(i as int),
                    )[k],
        {
            proof {
                assert(self@.tasks.take(i + 1).drop_last() =~= self@.tasks.take(i as int));
            }
            if let Some(r) = &self.tasks[i] {
                v.push(r);
            }
        }
        proof {
            assert(self@.tasks.take(32) =~= self@.tasks);
        }
        v
    }

    /// Register a new task in the Ready state.
    pub fn register(
        &mut self,
        id: TaskId,
        priority: u8,
        weight: u32,
        deadline: Option<Deadline>,
    ) -> (r: Result<(), SchedError>)
        requires
            old(self).wf(),
        ensures
            final(self).wf(),
            match r {
                Ok(()) => !old(self)@.known(id) && !table_full(old(self)@.tasks) && final(self)@
                    == old(self)@.register(fresh(id, priority, weight, deadline, old(self)@.ticks)),
                Err(SchedError::AlreadyRegistered(x)) => x == id && old(self)@.known(id)
                    && final(self)@ == old(self)@,
                Err(SchedError::TableFull) => !old(self)@.known(id) && table_full(
                    old(self)@.tasks,
                ) && final(self)@ == old(self)@,
                Err(SchedError::UnknownTask(_)) => false,
            },
    {
        if self.slot_of(id).is_some() {
            return Err(SchedError::AlreadyRegistered(id));
        }
        let mut slot: usize = 0;
        while slot < MAX_TASKS && self.tasks[slot].is_some()
            invariant
                slot <= MAX_TASKS,
                self@.tasks.len() == MAX_TASKS,
                forall|j: int| 0 <= j < slot ==> (#[trigger] self@.tasks[j]) is Some,
            decreases MAX_TASKS - slot,
        {
            slot += 1;
        }
        if slot == MAX_TASKS {
            return Err(SchedError::TableFull);
        }
        let priority: u8 = if priority == 0 {
            1
        } else {
            priority
        };
        let weight: u32 = if weight == 0 {
            1
        } else {
            weight
        };
        let mut rec = TaskRec::new(id, priority, weight, deadline);
        if let Some(d) = deadline {
            rec.next_deadline_ticks = self.ticks.wrapping_add(d.period);
        }
        let ghost before = self@;
        proof {
            assert(self@.tasks[slot as int] is None);
            self@.lemma_register(rec);
            laws::law_register_loses_nobody(self@, rec);
            assert(first_free(before.tasks, slot as int));
            assert forall|i: int| first_free(before.tasks, i) implies i == slot by {}
        }
        self.tasks[slot] = Some(rec);
        proof {
            assert(self@ =~= SchedView {
                tasks: before.tasks.update(slot as int, Some(rec)),
                ..before
            });
            assert(holds(self@.tasks, slot as int, id));
        }
        self.enqueue_ready(id);
        Ok(())
    }

    /// Remove a finished task entirely.
    pub fn unregister(&mut self, id: TaskId) -> (r: Result<(), SchedError>)
        requires
            old(self).wf(),
        ensures
            final(self).wf(),
            match r {
                Ok(()) => old(self)@.known(id) && final(self)@ == old(self)@.unregister(id),
                Err(e) => e == SchedError::UnknownTask(id) && !old(self)@.known(id) && final(self)@
                    == old(self)@,
            },
    {
        let slot = match self.slot_of(id) {
            Some(i) => i,
            None => {
                return Err(SchedError::UnknownTask(id));
            },
        };
        proof {
            self@.lemma_unregister(id);
            laws::law_unregister_loses_nobody(self@, id);
        }
        if self.running == Some(id) {
            self.running = None;
        }
        self.tasks[slot] = None;
        proof {
            assert(self@ =~= old(self)@.unregister(id));
        }
        Ok(())
    }

    /// Mark a task blocked (waiting for IPC etc.). If it was running,
    /// returns the next task to dispatch (possibly `None`, idle).
    pub fn block(&mut self, id: TaskId) -> (r: Option<TaskId>)
        requires
            old(self).wf(),
        ensures
            final(self).wf(),
            final(self)@ == old(self)@.leave(id, TaskState::Blocked).0,
            r == old(self)@.leave(id, TaskState::Blocked).1,
    {
        proof {
            self@.lemma_leave(id, TaskState::Blocked);
            laws::law_leave_loses_nobody(self@, id, TaskState::Blocked);
        }
        if let Some(r) = self.task_mut(id) {
            r.state = TaskState::Blocked;
        }
        proof {
            assert(self@ =~= old(self)@.set(
                id,
                TaskRec { state: TaskState::Blocked, ..old(self)@.rec(id) },
            ));
        }
        if self.running == Some(id) {
            self.running = None;
            self.running_ticks = 0;
            proof {
                assert(self@ =~= SchedView {
                    running: None,
                    running_ticks: 0,
                    ..old(self)@.set(
                        id,
                        TaskRec { state: TaskState::Blocked, ..old(self)@.rec(id) },
                    )
                });
            }
            return self.dispatch();
        }
        None
    }

    /// A task finished (exited). If it was running, dispatch the next one.
    pub fn finish(&mut self, id: TaskId) -> (r: Option<TaskId>)
        requires
            old(self).wf(),
        ensures
            final(self).wf(),
            final(self)@ == old(self)@.leave(id, TaskState::Finished).0,
            r == old(self)@.leave(id, TaskState::Finished).1,
    {
        proof {
            self@.lemma_leave(id, TaskState::Finished);
            laws::law_leave_loses_nobody(self@, id, TaskState::Finished);
        }
        if let Some(r) = self.task_mut(id) {
            r.state = TaskState::Finished;
        }
        proof {
            assert(self@ =~= old(self)@.set(
                id,
                TaskRec { state: TaskState::Finished, ..old(self)@.rec(id) },
            ));
        }
        if self.running == Some(id) {
            self.running = None;
            self.running_ticks = 0;
            proof {
                assert(self@ =~= SchedView {
                    running: None,
                    running_ticks: 0,
                    ..old(self)@.set(
                        id,
                        TaskRec { state: TaskState::Finished, ..old(self)@.rec(id) },
                    )
                });
            }
            return self.dispatch();
        }
        None
    }

    /// Wake a blocked task.
    pub fn wake(&mut self, id: TaskId)
        requires
            old(self).wf(),
        ensures
            final(self).wf(),
            final(self)@ == old(self)@.wake(id),
    {
        proof {
            self@.lemma_wake(id);
            laws::law_wake_loses_nobody(self@, id);
        }
        let mut blocked: bool = false;
        if let Some(r) = self.task_mut(id) {
            if r.state == TaskState::Blocked {
                r.state = TaskState::Ready;
                blocked = true;
            }
        }
        if blocked {
            proof {
                assert(self@ =~= old(self)@.set(
                    id,
                    TaskRec { state: TaskState::Ready, ..old(self)@.rec(id) },
                ));
                lemma_known(old(self)@.tasks, id);
                lemma_with_rec(
                    old(self)@.tasks,
                    id,
                    TaskRec { state: TaskState::Ready, ..old(self)@.rec(id) },
                );
            }
            self.enqueue_ready(id);
        } else {
            proof {
                assert(self@ =~= old(self)@);
            }
        }
    }

    /// Advance the system clock by one tick. Returns the scheduler action.
    pub fn on_tick(&mut self) -> (a: SchedAction)
        requires
            old(self).wf(),
        ensures
            final(self).wf(),
            final(self)@ == old(self)@.tick().0,
            a == old(self)@.tick().1,
    {
        let ghost before = self@;
        proof {
            before.lemma_tick();
            laws::law_tick_loses_nobody(before);
            before.lemma_advance();
        }
        self.ticks = self.ticks.wrapping_add(1);
        let now = self.ticks;
        let is_edf = self.kind == PolicyKind::EarliestDeadlineFirst;

        // EDF bookkeeping: deadlines roll over, misses are counted.
        if is_edf {
            let ghost f = |r: TaskRec| rolled(r, now);
            for i in 0..MAX_TASKS
                invariant
                    self@ == (SchedView { tasks: self@.tasks, ticks: now, ..before }),
                    self.ready_head < MAX_TASKS,
                    self.ready_len <= RING_CAPACITY,
                    before.tasks.len() == MAX_TASKS,
                    self@.tasks.len() == MAX_TASKS,
                    forall|j: int|
                        0 <= j < i ==> #[trigger] self@.tasks[j] == map_recs(
                            before.tasks,
                            |r: TaskRec| rolled(r, now),
                        )[j],
                    forall|j: int| i <= j < MAX_TASKS ==> #[trigger] self@.tasks[j] == before.tasks[j],
            {
                let ghost mid = self@;
                if let Some(t) = &mut self.tasks[i] {
                    if let Some(d) = t.deadline {
                        if t.state != TaskState::Finished && now >= t.next_deadline_ticks {
                            t.stats.deadline_misses = t.stats.deadline_misses.wrapping_add(1);
                            t.next_deadline_ticks = now.wrapping_add(d.period);
                            t.budget_remaining_ticks = d.budget;
                        }
                    }
                }
                proof {
                    assert(self@.ready =~= mid.ready);
                    assert(self@ =~= (SchedView { tasks: self@.tasks, ..mid }));
                }
            }
            proof {
                assert(self@.tasks =~= map_recs(before.tasks, |r: TaskRec| rolled(r, now)));
            }
        }
        proof {
            assert(self@ =~= before.advance());
        }
        let rid = match self.running {
            Some(rid) => rid,
            None => {
                // Nothing running: dispatch immediately.
                return SchedAction::Preempt(self.dispatch());
            },
        };
        let ghost v = self@;
        proof {
            v.lemma_charge(rid);
        }

        // Account execution time for the running task.
        if let Some(r) = self.task_mut(rid) {
            r.stats.total_ticks = r.stats.total_ticks.wrapping_add(1);
            if r.stats.total_ticks == 0 {
                r.stats.total_ticks = 1;
            }
            if is_edf && r.budget_remaining_ticks > 0 {
                r.budget_remaining_ticks -= 1;
            }
        }
        self.running_ticks = self.running_ticks.wrapping_add(1);
        let ghost u = self@;
        proof {
            assert(u =~= v.charge(rid));
        }

        let over = match self.kind {
            PolicyKind::RoundRobin => self.running_ticks >= self.quantum_ticks,
            PolicyKind::WeightedRoundRobin => {
                let weight: u32 = match self.rec_of(rid) {
                    Some(r) => r.weight,
                    None => 1,
                };
                self.running_ticks >= weight as u64
            },
            PolicyKind::EarliestDeadlineFirst => match self.rec_of(rid) {
                Some(r) => r.budget_remaining_ticks == 0,
                None => false,
            },
        };
        if !over {
            return SchedAction::Continue;
        }
        proof {
            u.lemma_turn_out(rid);
        }
        // Rotate: put the current task back, dispatch the next one.
        self.running_ticks = 0;
        if let Some(r) = self.task_mut(rid) {
            r.state = TaskState::Ready;
            if is_edf {
                r.stats.budget_exhaustions = r.stats.budget_exhaustions.wrapping_add(1);
            } else {
                r.stats.preemptions = r.stats.preemptions.wrapping_add(1);
            }
        }
        proof {
            assert(self@ =~= SchedView {
                tasks: with_rec(u.tasks, rid, turned_out(u.rec(rid), u.edf())),
                running_ticks: 0,
                ..u
            });
        }
        self.enqueue_ready(rid);
        if self.kind == PolicyKind::WeightedRoundRobin {
            self.refill_credits();
        }
        SchedAction::Preempt(self.dispatch())
    }

    /// Refill the credits of ready tasks that have none left.
    fn refill_credits(&mut self)
        requires
            old(self).rep(),
        ensures
            final(self).rep(),
            final(self)@ =~= (SchedView {
                tasks: map_recs(old(self)@.tasks, |r: TaskRec| refilled(r)),
                ..old(self)@
            }),
    {
        let ghost before = self@;
        proof {
            lemma_map_recs(before.tasks, |r: TaskRec| refilled(r));
        }
        for i in 0..MAX_TASKS
            invariant
                self@ == (SchedView { tasks: self@.tasks, ..before }),
                self.ready_head < MAX_TASKS,
                self.ready_len <= RING_CAPACITY,
                before.tasks.len() == MAX_TASKS,
                self@.tasks.len() == MAX_TASKS,
                forall|j: int|
                    0 <= j < i ==> #[trigger] self@.tasks[j] == map_recs(
                        before.tasks,
                        |r: TaskRec| refilled(r),
                    )[j],
                forall|j: int| i <= j < MAX_TASKS ==> #[trigger] self@.tasks[j] == before.tasks[j],
        {
            let ghost mid = self@;
            if let Some(t) = &mut self.tasks[i] {
                if t.state == TaskState::Ready && t.credits == 0 {
                    t.credits = t.weight;
                }
            }
            proof {
                assert(self@.ready =~= mid.ready);
                assert(self@ =~= (SchedView { tasks: self@.tasks, ..mid }));
            }
        }
        proof {
            assert(self@.tasks =~= map_recs(before.tasks, |r: TaskRec| refilled(r)));
        }
    }
}

} // verus!
