//! Task management: preemptive, deterministic scheduling.
//!
//! A *task* is the unit of scheduling. Each task has
//! * a kernel stack,
//! * a **save area**: the place of the [`CpuFrame`] that holds its registers
//!   whenever it is not running, either the frame built at spawn or the frame
//!   that an interrupt or a syscall stored,
//! * a capability space.
//!
//! Preemption: the timer interrupt runs the policy ([`crate::sched`]), and if
//! the policy says "switch", a *different frame is restored*. That is the
//! context switch. Blocking (sleep, IPC, yield) from user mode reuses the same
//! mechanism.
//!
//! Frames are known here by their addresses; 0 stands for none.

use vstd::prelude::*;
use crate::caps::{CNode, Capability};
use crate::config::{QUANTUM_MS, REALTIME_DEMO, SCHED_POLICY};
use crate::kernel::gdt;
use crate::kernel::interrupts;
use crate::kernel::interrupts::{CpuFrame, CpuState, GsArea, FRAME_SIZE};
use crate::kernel::serial;
use crate::kernel::serial::Console;
use crate::sched;
use crate::sched::{
    Deadline, PolicyKind, SchedAction, SchedView, Scheduler, TaskId, TaskRec, TaskState, MAX_TASKS,
};
use crate::text;

pub mod effects;
pub mod laws;

verus! {

/// Per-task record in the kernel task table.
pub struct TaskEntry {
    pub id: TaskId,
    pub name: &'static str,
    /// Top of the kernel stack (virtual).
    pub kstack_top: u64,
    /// Where the task's registers live while it is not running.
    pub save_area: u64,
    /// Whether the task executes in ring 3.
    pub is_user: bool,
    /// Capability space of the task.
    pub cspace: CNode,
    pub priority: u8,
    pub weight: u32,
    pub deadline: Option<Deadline>,
    /// User program name (user tasks only).
    pub prog: Option<&'static str>,
}

/// Bytes of a kernel stack.
pub const KSTACK_SIZE: usize = 64 * 1024;

/// The flags that a task starts with: interrupts on, and the bit that is
/// always set.
pub const INITIAL_RFLAGS: u64 = 0x202;

/// The tasks, the scheduler, and who sleeps until when.
pub struct TaskTable {
    tasks: Vec<TaskEntry>,
    sched: Option<Scheduler>,
    /// Sleeping tasks: (task id, wake-up tick).
    sleeping: Vec<(TaskId, u64)>,
    /// Exited tasks, whose kernel stacks must stay alive (a stack cannot be
    /// freed while it is in use).
    graveyard: Vec<TaskEntry>,
    next_id: TaskId,
    /// A kernel task asked to be moved to the back of the queue.
    yielding: bool,
    /// While set, the timer does not dispatch, so that the entry into the
    /// first task cannot be disturbed.
    paused: bool,
    cpu: CpuState,
}

// ---------------------------------------------------------------------------
// Model
// ---------------------------------------------------------------------------

/// What an entry holds.
#[verifier::ext_equal]
pub struct EntryView {
    pub id: TaskId,
    pub name: Seq<char>,
    pub kstack_top: u64,
    pub save_area: u64,
    pub is_user: bool,
    pub cspace: Seq<Option<Capability>>,
    pub priority: u8,
    pub weight: u32,
    pub deadline: Option<Deadline>,
    pub prog: Option<Seq<char>>,
}

/// What the table holds.
#[verifier::ext_equal]
pub struct TasksView {
    pub sched: Option<SchedView>,
    pub entries: Seq<EntryView>,
    pub sleeping: Seq<(TaskId, u64)>,
    pub graveyard: Seq<EntryView>,
    pub next_id: TaskId,
    pub yielding: bool,
    pub paused: bool,
    pub cpu: CpuState,
}

impl TaskEntry {
    pub open spec fn view(&self) -> EntryView {
        EntryView {
            id: self.id,
            name: self.name@,
            kstack_top: self.kstack_top,
            save_area: self.save_area,
            is_user: self.is_user,
            cspace: self.cspace@,
            priority: self.priority,
            weight: self.weight,
            deadline: self.deadline,
            prog: match self.prog {
                Some(p) => Some(p@),
                None => None,
            },
        }
    }
}

/// What a list of entries holds.
pub open spec fn entry_views(s: Seq<TaskEntry>) -> Seq<EntryView> {
    s.map_values(|e: TaskEntry| e@)
}

/// Entry `i` is that of the task `id`.
pub open spec fn entry_is(entries: Seq<EntryView>, i: int, id: TaskId) -> bool {
    0 <= i < entries.len() && entries[i].id == id
}

/// The task `id` has an entry.
pub open spec fn listed(entries: Seq<EntryView>, id: TaskId) -> bool {
    exists|i: int| #[trigger] entry_is(entries, i, id)
}

/// The place of the entry of the task `id`.
pub open spec fn place(entries: Seq<EntryView>, id: TaskId) -> int {
    choose|i: int| #[trigger] entry_is(entries, i, id)
}

/// The list without its element `i`, whose place the last one takes.
pub open spec fn swap_removed<T>(s: Seq<T>, i: int) -> Seq<T> {
    s.update(i, s.last()).drop_last()
}

/// Wakes the sleepers from place `i` on whose tick has come by `now`, and
/// takes them out of the list.
pub open spec fn wake_due(
    s: SchedView,
    sleeping: Seq<(TaskId, u64)>,
    i: int,
    now: u64,
) -> (SchedView, Seq<(TaskId, u64)>)
    decreases sleeping.len() - i,
{
    if i < 0 || i >= sleeping.len() {
        (s, sleeping)
    } else if sleeping[i].1 <= now {
        wake_due(s.wake(sleeping[i].0), swap_removed(sleeping, i), i, now)
    } else {
        wake_due(s, sleeping, i + 1, now)
    }
}

/// Where the first frame of a task lies: below the top of its stack, aligned
/// to sixteen bytes.
pub open spec fn first_frame(kstack_top: u64) -> u64 {
    (kstack_top - FRAME_SIZE - (kstack_top - FRAME_SIZE) % 16) as u64
}

/// How a task gives up the CPU.
#[derive(Clone, Copy, PartialEq, Eq, Debug, Structural)]
pub enum ParkKind {
    /// Block until explicitly woken (IPC waiter).
    Block,
    /// Rotate to the back of the ready queue (yield).
    Yield,
    /// Block until `ms` ticks have passed.
    Sleep(u64),
}

impl TasksView {
    /// What holds of every table: no task has two entries, ids are given out
    /// in order, there are no tasks before there is a scheduler, and every
    /// task that has not finished has an entry.
    pub open spec fn wf(self) -> bool {
        &&& self.sched is None ==> self.entries.len() == 0
        &&& forall|i: int, j: int|
            0 <= i < j < self.entries.len() ==> (#[trigger] self.entries[i]).id != (
            #[trigger] self.entries[j]).id
        &&& forall|i: int|
            0 <= i < self.entries.len() ==> (#[trigger] self.entries[i]).id < self.next_id
        &&& self.sched matches Some(s) ==> {
            &&& s.wf()
            &&& forall|x: TaskId| #[trigger] s.known(x) ==> x < self.next_id
            &&& forall|x: TaskId| #[trigger]
                s.known(x) && !sched::laws::done(s, x) ==> listed(self.entries, x)
        }
    }

    pub open spec fn has(self, id: TaskId) -> bool {
        listed(self.entries, id)
    }

    /// The entry of a task that has one.
    pub open spec fn entry(self, id: TaskId) -> EntryView {
        self.entries[place(self.entries, id)]
    }

    /// The state with the entry of the task `id` replaced; without one, as it
    /// is.
    pub open spec fn with_entry(self, id: TaskId, e: EntryView) -> TasksView {
        if self.has(id) {
            TasksView { entries: self.entries.update(place(self.entries, id), e), ..self }
        } else {
            self
        }
    }

    /// The state with the save area of the task `id` at `frame`.
    pub open spec fn saved(self, id: TaskId, frame: u64) -> TasksView {
        self.with_entry(id, EntryView { save_area: frame, ..self.entry(id) })
    }

    /// The state with the capability space of the task `id` replaced.
    pub open spec fn with_space(self, id: TaskId, cspace: Seq<Option<Capability>>) -> TasksView {
        self.with_entry(id, EntryView { cspace, ..self.entry(id) })
    }

    pub open spec fn name(self, id: TaskId) -> Seq<char> {
        if self.has(id) {
            self.entry(id).name
        } else {
            "?"@
        }
    }

    pub open spec fn top(self, id: TaskId) -> u64 {
        if self.has(id) {
            self.entry(id).kstack_top
        } else {
            0
        }
    }

    pub open spec fn user(self, id: TaskId) -> bool {
        self.has(id) && self.entry(id).is_user
    }

    pub open spec fn area(self, id: TaskId) -> u64 {
        if self.has(id) {
            self.entry(id).save_area
        } else {
            0
        }
    }

    /// The task had the CPU before.
    pub open spec fn has_run(self, id: TaskId) -> bool {
        self.sched matches Some(s) && s.known(id) && s.rec(id).stats.runs > 0
    }

    /// The task that has the CPU.
    pub open spec fn running(self) -> Option<TaskId> {
        match self.sched {
            Some(s) => s.running,
            None => None,
        }
    }

    /// The clock.
    pub open spec fn now(self) -> u64 {
        match self.sched {
            Some(s) => s.ticks,
            None => 0,
        }
    }

    /// The return flag is that of the task `id`.
    pub open spec fn restoring(self, id: Option<TaskId>) -> TasksView {
        TasksView {
            cpu: self.cpu.returning(
                match id {
                    Some(x) => self.user(x),
                    None => false,
                },
            ),
            ..self
        }
    }

    /// Points the hardware at the task `next` and says which frame is to be
    /// restored. Without a next task nothing is, and the flag is that of
    /// `current`.
    pub open spec fn switch_to(self, next: Option<TaskId>, current: Option<TaskId>) -> (
        TasksView,
        u64,
    ) {
        match next {
            Some(id) => (
                TasksView {
                    cpu: self.cpu.stacked(self.top(id)).returning(self.user(id)),
                    ..self
                },
                self.area(id),
            ),
            None => (self.restoring(current), 0),
        }
    }

    /// The sleepers whose tick has come are woken.
    pub open spec fn woken(self) -> TasksView {
        let w = wake_due(self.sched->0, self.sleeping, 0, self.now());
        TasksView { sched: Some(w.0), sleeping: w.1, ..self }
    }

    /// A task that asked for it goes to the back of the queue; the clock
    /// stands.
    pub open spec fn yielded(self, cur: Option<TaskId>) -> TasksView {
        let s = self.sched->0;
        TasksView {
            sched: Some(
                match cur {
                    Some(id) => s.leave(id, TaskState::Blocked).0.wake(id),
                    None => s,
                },
            ),
            yielding: false,
            ..self
        }
    }

    /// The scheduler sees one tick.
    pub open spec fn ticked(self) -> TasksView {
        TasksView { sched: Some(self.sched->0.tick().0), ..self }
    }

    /// The first task is dispatched; and the frame to enter, if there is one.
    pub open spec fn bootstrapped(self) -> (TasksView, Option<u64>) {
        match self.sched->0.tick().1 {
            SchedAction::Preempt(Some(id)) => (
                TasksView { cpu: self.cpu.returning(false), ..self.ticked() },
                Some(self.area(id)),
            ),
            _ => (self.ticked(), None),
        }
    }

    /// Leaves the frame `frame` of the task that was interrupted for that of
    /// the task that has the CPU now, if it is another.
    pub open spec fn resumed(self, interrupted: Option<TaskId>, frame: u64) -> (TasksView, u64) {
        if self.running() == interrupted {
            (self.restoring(interrupted), frame)
        } else {
            let v = match interrupted {
                Some(id) => self.saved(id, frame),
                None => self,
            };
            v.switch_to(self.running(), interrupted)
        }
    }

    /// One timer interrupt, with the frame of what it interrupted; and the
    /// frame to restore.
    pub open spec fn interrupt(self, frame: u64) -> (TasksView, u64) {
        if self.sched is None || self.paused {
            (self, frame)
        } else {
            let cur = self.running();
            let v = self.woken();
            if v.yielding {
                v.yielded(cur).resumed(cur, frame)
            } else if v.sched->0.tick().1 == SchedAction::Continue {
                (v.ticked().restoring(cur), frame)
            } else {
                v.ticked().resumed(cur, frame)
            }
        }
    }

    /// The scheduler after the running task gave up the CPU.
    pub open spec fn parked_sched(self, how: ParkKind) -> SchedView {
        let s = self.sched->0;
        let id = s.running->0;
        match how {
            ParkKind::Yield => s.leave(id, TaskState::Blocked).0.wake(id),
            _ => s.leave(id, TaskState::Blocked).0,
        }
    }

    /// The running task, whose frame is `frame`, gives up the CPU; and the
    /// frame to restore.
    pub open spec fn park(self, frame: u64, how: ParkKind) -> (TasksView, u64) {
        let id = self.running()->0;
        let v = self.saved(id, frame);
        let w = TasksView {
            sched: Some(self.parked_sched(how)),
            sleeping: match how {
                ParkKind::Sleep(ms) => self.sleeping.push((id, (self.now() + ms) as u64)),
                _ => self.sleeping,
            },
            ..v
        };
        w.switch_to(w.running(), Some(id))
    }

    /// There is a running task, and another one to run when it leaves.
    pub open spec fn can_park(self) -> bool {
        self.running() matches Some(id) && self.sched->0.leave(id, TaskState::Blocked).1 is Some
    }

    /// The running task ends; its entry goes to the graveyard.
    pub open spec fn exit(self) -> (TasksView, u64) {
        let id = self.running()->0;
        let s = self.sched->0.leave(id, TaskState::Finished).0;
        let v = if self.has(id) {
            TasksView {
                sched: Some(s),
                entries: self.entries.remove(place(self.entries, id)),
                graveyard: self.graveyard.push(self.entry(id)),
                ..self
            }
        } else {
            TasksView { sched: Some(s), ..self }
        };
        v.switch_to(s.running, Some(id))
    }

    /// A task that waits is woken.
    pub open spec fn wake(self, id: TaskId) -> TasksView {
        TasksView { sched: Some(self.sched->0.wake(id)), ..self }
    }

    /// The frame that has to be rewound so that the task `id` tries its
    /// operation again.
    pub open spec fn retry_frame(self, id: TaskId) -> Option<u64> {
        if self.has(id) && self.entry(id).is_user && self.entry(id).save_area != 0 {
            Some(self.entry(id).save_area)
        } else {
            None
        }
    }

    /// A task can be added: the scheduler is there and has room, and an id is
    /// left.
    pub open spec fn has_room(self) -> bool {
        &&& self.sched matches Some(s) && !sched::table_full(s.tasks)
        &&& self.next_id < u64::MAX
    }

    /// The state with a task added.
    pub open spec fn added(self, e: EntryView) -> TasksView {
        let s = self.sched->0;
        TasksView {
            sched: Some(
                s.register(sched::fresh(e.id, e.priority, e.weight, e.deadline, s.ticks)),
            ),
            entries: self.entries.push(e),
            next_id: (self.next_id + 1) as u64,
            ..self
        }
    }

    /// The entry of the next task that is added.
    pub open spec fn new_entry(
        self,
        name: Seq<char>,
        kstack_top: u64,
        is_user: bool,
        priority: u8,
        weight: u32,
        deadline: Option<Deadline>,
        prog: Option<Seq<char>>,
    ) -> EntryView {
        EntryView {
            id: self.next_id,
            name,
            kstack_top,
            save_area: first_frame(kstack_top),
            is_user,
            cspace: Seq::new(64, |i: int| None),
            priority,
            weight,
            deadline,
            prog,
        }
    }
}

// ---------------------------------------------------------------------------
// Lemmas
// ---------------------------------------------------------------------------

/// The entry with an id is the only one.
pub proof fn lemma_place(entries: Seq<EntryView>, i: int, id: TaskId)
    requires
        forall|i: int, j: int|
            0 <= i < j < entries.len() ==> (#[trigger] entries[i]).id != (#[trigger] entries[j]).id,
        entry_is(entries, i, id),
    ensures
        listed(entries, id),
        place(entries, id) == i,
{
    let j = place(entries, id);
    assert(entry_is(entries, j, id));
}

proof fn lemma_views_update(s: Seq<TaskEntry>, i: int, e: TaskEntry)
    requires
        0 <= i < s.len(),
    ensures
        entry_views(s.update(i, e)) == entry_views(s).update(i, e@),
{
    assert(entry_views(s.update(i, e)) =~= entry_views(s).update(i, e@));
}

/// Replacing an entry by one with the same id keeps the table valid.
pub proof fn lemma_with_entry(v: TasksView, id: TaskId, e: EntryView)
    requires
        v.wf(),
        e.id == id,
    ensures
        v.with_entry(id, e).wf(),
        forall|x: TaskId| #[trigger] v.with_entry(id, e).has(x) <==> v.has(x),
        v.has(id) ==> v.with_entry(id, e).entry(id) == e,
        forall|x: TaskId|
            x != id && v.has(x) ==> #[trigger] v.with_entry(id, e).entry(x) == v.entry(x),
        v.with_entry(id, e).sched == v.sched,
{
    let w = v.with_entry(id, e);
    if v.has(id) {
        let p = place(v.entries, id);
        assert(entry_is(v.entries, p, id));
        assert forall|i: int, x: TaskId| #[trigger]
            entry_is(w.entries, i, x) == entry_is(v.entries, i, x) by {}
        assert forall|x: TaskId| #[trigger] w.has(x) <==> v.has(x) by {
            if v.has(x) {
                assert(entry_is(w.entries, place(v.entries, x), x));
            }
            if w.has(x) {
                assert(entry_is(v.entries, place(w.entries, x), x));
            }
        }
        assert(entry_is(w.entries, p, id));
        lemma_place(w.entries, p, id);
        assert forall|x: TaskId| x != id && v.has(x) implies #[trigger] w.entry(x) == v.entry(
            x,
        ) by {
            let q = place(v.entries, x);
            assert(entry_is(v.entries, q, x));
            assert(entry_is(w.entries, q, x));
            lemma_place(w.entries, q, x);
        }
        assert forall|x: TaskId|
            v.sched is Some && #[trigger] v.sched->0.known(x) && !sched::laws::done(
                v.sched->0,
                x,
            ) implies listed(w.entries, x) by {
            assert(v.has(x));
            assert(w.has(x));
        }
    }
}

/// Adding a task keeps the table valid.
pub proof fn lemma_added(v: TasksView, e: EntryView)
    requires
        v.wf(),
        v.has_room(),
        e.id == v.next_id,
    ensures
        v.added(e).wf(),
{
    let s0 = v.sched->0;
    let rec = sched::fresh(e.id, e.priority, e.weight, e.deadline, s0.ticks);
    assert(!s0.known(e.id));
    sched::laws::law_register_adds_one(s0, rec);
    sched::laws::law_register_keeps_records(s0, rec);
    s0.lemma_register(rec);
    let w = v.added(e);
    let s1 = w.sched->0;
    assert forall|x: TaskId| #[trigger] s1.known(x) && !sched::laws::done(s1, x) implies listed(
        w.entries,
        x,
    ) by {
        if x == e.id {
            assert(entry_is(w.entries, v.entries.len() as int, x));
        } else {
            assert(s0.known(x));
            assert(!sched::laws::done(s0, x));
            assert(entry_is(v.entries, place(v.entries, x), x));
            assert(entry_is(w.entries, place(v.entries, x), x));
        }
    }
}

/// Giving a task the capability space that it has changes nothing.
pub proof fn lemma_same_space(v: TasksView, id: TaskId)
    ensures
        v.with_space(id, v.entry(id).cspace) == v,
{
    if v.has(id) {
        let p = place(v.entries, id);
        assert(entry_is(v.entries, p, id));
        assert(v.entries.update(p, v.entry(id)) =~= v.entries);
        assert(v.with_space(id, v.entry(id).cspace) =~= v);
    }
}

/// A scheduler that keeps its tasks and revives none keeps the table valid.
proof fn lemma_with_sched(v: TasksView, w: TasksView, s: SchedView)
    requires
        v.wf(),
        v.sched is Some,
        w.sched == Some(s),
        w.entries == v.entries,
        w.next_id == v.next_id,
        s.wf(),
        forall|x: TaskId| #[trigger] s.known(x) <==> v.sched->0.known(x),
        forall|x: TaskId| #[trigger]
            sched::laws::done(v.sched->0, x) ==> sched::laws::done(s, x) || listed(v.entries, x),
    ensures
        w.wf(),
{
    assert forall|x: TaskId| #[trigger] s.known(x) && !sched::laws::done(s, x) implies listed(
        w.entries,
        x,
    ) by {
        assert(v.sched->0.known(x));
        if sched::laws::done(v.sched->0, x) {
        }
    }
}

/// Waking sleepers keeps the scheduler's tasks and revives none.
proof fn lemma_wake_due(s: SchedView, sleeping: Seq<(TaskId, u64)>, i: int, now: u64)
    requires
        s.wf(),
    ensures
        wake_due(s, sleeping, i, now).0.wf(),
        forall|x: TaskId| #[trigger] wake_due(s, sleeping, i, now).0.known(x) <==> s.known(x),
        forall|x: TaskId| #[trigger]
            sched::laws::done(s, x) ==> sched::laws::done(wake_due(s, sleeping, i, now).0, x),
        wake_due(s, sleeping, i, now).0.ticks == s.ticks,
        wake_due(s, sleeping, i, now).0.running == s.running,
    decreases sleeping.len() - i,
{
    if i < 0 || i >= sleeping.len() {
    } else if sleeping[i].1 <= now {
        let id = sleeping[i].0;
        s.lemma_wake(id);
        sched::laws::law_wake_keeps_tasks(s, id);
        sched::laws::law_wake_keeps_finished(s, id);
        let w = s.wake(id);
        lemma_wake_due(w, swap_removed(sleeping, i), i, now);
        assert forall|x: TaskId| #[trigger]
            wake_due(w, swap_removed(sleeping, i), i, now).0.known(x) <==> s.known(x) by {
            assert(w.known(x) <==> s.known(x));
        }
        assert forall|x: TaskId| #[trigger] sched::laws::done(s, x) implies sched::laws::done(
            wake_due(w, swap_removed(sleeping, i), i, now).0,
            x,
        ) by {
            assert(sched::laws::done(w, x));
        }
    } else {
        lemma_wake_due(s, sleeping, i + 1, now);
    }
}

/// A task that leaves and is woken again keeps the table valid.
proof fn lemma_leave_wake(s: SchedView, id: TaskId)
    requires
        s.wf(),
        s.running == Some(id),
    ensures
        ({
            let w = s.leave(id, TaskState::Blocked).0;
            &&& w.wf()
            &&& w.wake(id).wf()
            &&& forall|x: TaskId| #[trigger] w.known(x) <==> s.known(x)
            &&& forall|x: TaskId| #[trigger] w.wake(id).known(x) <==> s.known(x)
            &&& forall|x: TaskId| #[trigger] sched::laws::done(s, x) ==> sched::laws::done(w, x)
            &&& forall|x: TaskId| #[trigger]
                sched::laws::done(s, x) ==> sched::laws::done(w.wake(id), x)
            &&& w.wake(id).running == w.running
            &&& w.running == s.leave(id, TaskState::Blocked).1
        }),
{
    let w = s.leave(id, TaskState::Blocked).0;
    s.lemma_leave(id, TaskState::Blocked);
    sched::laws::law_leave_keeps_tasks(s, id, TaskState::Blocked);
    sched::laws::law_leave_keeps_finished(s, id, TaskState::Blocked);
    w.lemma_wake(id);
    sched::laws::law_wake_keeps_tasks(w, id);
    sched::laws::law_wake_keeps_finished(w, id);
    assert(!sched::laws::done(s, id));
    assert forall|x: TaskId| #[trigger] w.wake(id).known(x) <==> s.known(x) by {
        assert(w.known(x) <==> s.known(x));
    }
    assert forall|x: TaskId| #[trigger] sched::laws::done(s, x) implies sched::laws::done(
        w.wake(id),
        x,
    ) by {
        assert(sched::laws::done(w, x));
    }
}

// ---------------------------------------------------------------------------
// Code
// ---------------------------------------------------------------------------

/// A task that was spawned, and the frame that has to be written at
/// `frame_at` before it can run.
#[derive(Clone, Copy, PartialEq, Eq, Debug, Structural)]
pub struct Spawn {
    pub id: TaskId,
    pub frame_at: u64,
    pub frame: CpuFrame,
}

/// A user program that was loaded.
#[derive(Clone, Copy, Debug)]
pub struct Loaded {
    /// Canonical name.
    pub name: &'static str,
    /// Entry point.
    pub entry: u64,
    /// Top of the user stack.
    pub stack_top: u64,
}

/// The first frame of a kernel task.
pub open spec fn kernel_frame(entry: u64, arg: u64, kstack_top: u64) -> CpuFrame {
    CpuFrame {
        rip: entry,
        cs: 0x08,
        rflags: INITIAL_RFLAGS,
        rdi: arg,
        user_rsp: kstack_top,
        user_ss: 0x10,
        ..CpuFrame::blank()
    }
}

/// The first frame of a user task.
pub open spec fn user_frame(entry: u64, arg: u64, stack_top: u64) -> CpuFrame {
    CpuFrame {
        rip: entry,
        cs: 0x23,
        rflags: INITIAL_RFLAGS,
        rdi: arg,
        user_rsp: stack_top,
        user_ss: 0x1B,
        ..CpuFrame::blank()
    }
}

/// The first frame of a task, at the top of its kernel stack, and where it
/// lies; this becomes the task's first save area.
pub fn build_initial_frame(kstack_top: u64) -> (r: (u64, CpuFrame))
    requires
        kstack_top >= FRAME_SIZE,
    ensures
        r.0 == first_frame(kstack_top),
        r.1 == CpuFrame::blank(),
{
    let below = kstack_top - FRAME_SIZE as u64;
    (below - below % 16, CpuFrame::zeroed())
}

impl TaskTable {
    pub closed spec fn view(&self) -> TasksView {
        TasksView {
            sched: match self.sched {
                Some(s) => Some(s@),
                None => None,
            },
            entries: entry_views(self.tasks@),
            sleeping: self.sleeping@,
            graveyard: entry_views(self.graveyard@),
            next_id: self.next_id,
            yielding: self.yielding,
            paused: self.paused,
            cpu: self.cpu,
        }
    }

    closed spec fn valid(&self) -> bool {
        self.sched matches Some(s) ==> s.wf()
    }

    /// Validity of a table.
    pub closed spec fn wf(&self) -> bool {
        self.valid() && self@.wf()
    }

    /// What every valid table keeps.
    pub proof fn lemma_wf(&self)
        requires
            self.wf(),
        ensures
            self@.wf(),
            self@.sched matches Some(s) ==> sched::laws::nobody_lost(s),
    {
        if let Some(s) = self.sched {
            s.lemma_wf();
        }
    }

    /// No tasks and no scheduler yet.
    pub fn new() -> (r: TaskTable)
        ensures
            r.wf(),
            r@ == (TasksView {
                sched: None,
                entries: Seq::empty(),
                sleeping: Seq::empty(),
                graveyard: Seq::empty(),
                next_id: 1,
                yielding: false,
                paused: false,
                cpu: CpuState {
                    rsp0: 0,
                    user_ret: false,
                    gs: GsArea { kstack: 0, scratch1: 0, scratch2: 0 },
                },
            }),
    {
        let r = TaskTable {
            tasks: Vec::new(),
            sched: None,
            sleeping: Vec::new(),
            graveyard: Vec::new(),
            next_id: 1,
            yielding: false,
            paused: false,
            cpu: CpuState::new(),
        };
        proof {
            assert(r@.entries =~= Seq::<EntryView>::empty());
            assert(r@.graveyard =~= Seq::<EntryView>::empty());
            assert(r@.sleeping =~= Seq::<(TaskId, u64)>::empty());
        }
        r
    }

    /// What the hardware and the stubs are to use.
    pub fn cpu(&self) -> (r: CpuState)
        ensures
            r == self@.cpu,
    {
        self.cpu
    }

    /// The place of the entry of the task `id`.
    fn find(&self, id: TaskId) -> (r: Option<usize>)
        requires
            self@.wf(),
        ensures
            match r {
                Some(i) => i < self.tasks@.len() && entry_is(self@.entries, i as int, id)
                    && self@.has(id) && place(self@.entries, id) == i,
                None => !self@.has(id),
            },
    {
        for i in 0..self.tasks.len()
            invariant
                self@.wf(),
                self@.entries.len() == self.tasks@.len(),
                forall|j: int| 0 <= j < i ==> !#[trigger] entry_is(self@.entries, j, id),
        {
            if self.tasks[i].id == id {
                proof {
                    assert(entry_is(self@.entries, i as int, id));
                    lemma_place(self@.entries, i as int, id);
                }
                return Some(i);
            }
        }
        None
    }

    /// Stores where the registers of the task `id` live.
    fn save(&mut self, id: TaskId, frame: u64)
        requires
            old(self).wf(),
        ensures
            final(self).wf(),
            final(self)@ == old(self)@.saved(id, frame),
            final(self).sched == old(self).sched,
    {
        proof {
            if self@.has(id) {
                assert(entry_is(self@.entries, place(self@.entries, id), id));
            }
            lemma_with_entry(
                self@,
                id,
                EntryView { id, save_area: frame, ..self@.entry(id) },
            );
        }
        if let Some(i) = self.find(id) {
            let ghost before = self.tasks@;
            self.tasks[i].save_area = frame;
            proof {
                lemma_views_update(before, i as int, self.tasks@[i as int]);
                assert(self.tasks@ =~= before.update(i as int, self.tasks@[i as int]));
                assert(self@ =~= old(self)@.saved(id, frame));
            }
        }
    }

    /// The return flag for the task `id`.
    fn set_restore_flag(&mut self, id: Option<TaskId>)
        requires
            old(self).wf(),
        ensures
            final(self).wf(),
            final(self)@ == old(self)@.restoring(id),
            final(self).sched == old(self).sched,
    {
        let user = match id {
            Some(x) => is_user_task(self, x),
            None => false,
        };
        interrupts::set_user_ret_flag(&mut self.cpu, user);
        proof {
            assert(self@ =~= old(self)@.restoring(id));
        }
    }

    /// Points the hardware at the task `next`: the kernel stack for interrupts
    /// from ring 3, the kernel stack for the `syscall` instruction, and
    /// whether the stub must `swapgs` back. Returns the frame to restore.
    fn switch_to(&mut self, next: Option<TaskId>, current: Option<TaskId>) -> (r: u64)
        requires
            old(self).wf(),
        ensures
            final(self).wf(),
            final(self)@ == old(self)@.switch_to(next, current).0,
            r == old(self)@.switch_to(next, current).1,
            final(self).sched == old(self).sched,
    {
        match next {
            Some(id) => {
                let top = e_kstack_top(self, id);
                let user = is_user_task(self, id);
                let area = match self.find(id) {
                    Some(i) => self.tasks[i].save_area,
                    None => 0,
                };
                self.cpu.rsp0 = top;
                self.cpu.gs.kstack = top;
                interrupts::set_user_ret_flag(&mut self.cpu, user);
                proof {
                    assert(self@ =~= old(self)@.switch_to(next, current).0);
                }
                area
            },
            None => {
                self.set_restore_flag(current);
                0
            },
        }
    }

    /// Adds a task in the ready state.
    fn new_task(
        &mut self,
        name: &'static str,
        priority: u8,
        weight: u32,
        deadline: Option<Deadline>,
        is_user: bool,
        kstack_top: u64,
        prog: Option<&'static str>,
    ) -> (id: TaskId)
        requires
            old(self).wf(),
            old(self)@.has_room(),
            kstack_top >= FRAME_SIZE,
        ensures
            final(self).wf(),
            id == old(self)@.next_id,
            final(self)@ == old(self)@.added(
                old(self)@.new_entry(
                    name@,
                    kstack_top,
                    is_user,
                    priority,
                    weight,
                    deadline,
                    match prog {
                        Some(p) => Some(p@),
                        None => None,
                    },
                ),
            ),
    {
        let id = self.next_id;
        let entry = TaskEntry {
            id,
            name,
            kstack_top,
            save_area: build_initial_frame(kstack_top).0,
            is_user,
            cspace: CNode::new(),
            priority,
            weight,
            deadline,
            prog,
        };
        proof {
            assert(!self@.sched->0.known(id));
        }
        if let Some(s) = &mut self.sched {
            let _ = s.register(id, priority, weight, deadline);
        }
        self.next_id = id + 1;
        let ghost before = self.tasks@;
        self.tasks.push(entry);
        proof {
            let v = old(self)@;
            let e = entry@;
            assert(e == v.new_entry(
                name@,
                kstack_top,
                is_user,
                priority,
                weight,
                deadline,
                match prog {
                    Some(p) => Some(p@),
                    None => None,
                },
            ));
            assert(entry_views(self.tasks@) =~= v.entries.push(e));
            assert(self@ =~= v.added(e));
            lemma_added(v, e);
            assert(self@.wf());
        }
        id
    }
}

/// The name of a task, `?` if it has no entry.
pub fn name_of(tasks: &TaskTable, id: TaskId) -> (r: &'static str)
    requires
        tasks.wf(),
    ensures
        r@ == tasks@.name(id),
{
    match tasks.find(id) {
        Some(i) => tasks.tasks[i].name,
        None => "?",
    }
}

/// Initialises the scheduler from the compile-time configuration.
pub fn init(tasks: &mut TaskTable)
    requires
        old(tasks).wf(),
    ensures
        final(tasks).wf(),
        final(tasks)@ == (TasksView {
            sched: Some(sched::empty_sched(sched::policy_of(SCHED_POLICY), QUANTUM_MS)),
            ..old(tasks)@
        }),
{
    let s = Scheduler::new(PolicyKind::from(SCHED_POLICY), QUANTUM_MS);
    proof {
        s.lemma_wf();
        assert forall|x: TaskId| !#[trigger] s@.known(x) by {
            if s@.known(x) {
                assert(sched::holds(s@.tasks, sched::slot_of(s@.tasks, x), x));
            }
        }
    }
    tasks.sched = Some(s);
}

/// Whether a task can be spawned.
pub fn has_room(tasks: &TaskTable) -> (r: bool)
    requires
        tasks.wf(),
    ensures
        r == tasks@.has_room(),
{
    match &tasks.sched {
        Some(s) => {
            proof {
                s.lemma_wf();
                sched::laws::law_full_table_is_all_occupied(s@.tasks);
            }
            s.task_count() < MAX_TASKS && tasks.next_id < u64::MAX
        },
        None => false,
    }
}

/// How many tasks can be added before the scheduler's table is full.
pub fn free_slots(tasks: &TaskTable) -> (r: usize)
    requires
        tasks.wf(),
    ensures
        r == (match tasks@.sched {
            Some(s) => MAX_TASKS - sched::occupied(s.tasks),
            None => 0,
        }),
{
    match &tasks.sched {
        Some(s) => {
            proof {
                s.lemma_wf();
                sched::laws::law_full_table_is_all_occupied(s@.tasks);
            }
            MAX_TASKS - s.task_count()
        },
        None => 0,
    }
}

/// Spawns a kernel-mode task that runs the function at `entry` in ring 0.
pub fn spawn_kernel(
    tasks: &mut TaskTable,
    name: &'static str,
    priority: u8,
    weight: u32,
    entry: u64,
    arg: u64,
    kstack_top: u64,
) -> (r: Spawn)
    requires
        old(tasks).wf(),
        old(tasks)@.has_room(),
        kstack_top >= FRAME_SIZE,
    ensures
        final(tasks).wf(),
        final(tasks)@ == old(tasks)@.added(
            old(tasks)@.new_entry(name@, kstack_top, false, priority, weight, None, None),
        ),
        r == (Spawn {
            id: old(tasks)@.next_id,
            frame_at: first_frame(kstack_top),
            frame: kernel_frame(entry, arg, kstack_top),
        }),
{
    let id = tasks.new_task(name, priority, weight, None, false, kstack_top, None);
    let (frame_at, mut frame) = build_initial_frame(kstack_top);
    frame.rip = entry;
    frame.cs = gdt::kernel_code() as u64;
    frame.rflags = INITIAL_RFLAGS;
    frame.rdi = arg;
    // Some CPUs reload the stack even for a return within ring 0, so it must
    // be the task's own kernel stack.
    frame.user_rsp = kstack_top;
    frame.user_ss = gdt::kernel_data() as u64;
    Spawn { id, frame_at, frame }
}

/// The state and the result of a user spawn, for what the loader returned.
pub open spec fn user_spawned(
    v: TasksView,
    image: Result<Loaded, ()>,
    priority: u8,
    weight: u32,
    deadline: Option<Deadline>,
    arg: u64,
    kstack_top: u64,
) -> (TasksView, Result<Spawn, ()>) {
    match image {
        Ok(l) => (
            v.added(
                v.new_entry(l.name@, kstack_top, true, priority, weight, deadline, Some(l.name@)),
            ),
            Ok(
                Spawn {
                    id: v.next_id,
                    frame_at: first_frame(kstack_top),
                    frame: user_frame(l.entry, arg, l.stack_top),
                },
            ),
        ),
        Err(e) => (v, Err(e)),
    }
}

/// Spawns a user-mode task from what the loader returned.
pub fn spawn_user(
    tasks: &mut TaskTable,
    image: Result<Loaded, ()>,
    priority: u8,
    weight: u32,
    kstack_top: u64,
) -> (r: Result<Spawn, ()>)
    requires
        old(tasks).wf(),
        image is Ok ==> old(tasks)@.has_room() && kstack_top >= FRAME_SIZE,
    ensures
        final(tasks).wf(),
        final(tasks)@ == user_spawned(
            old(tasks)@,
            image,
            priority,
            weight,
            None,
            0,
            kstack_top,
        ).0,
        r == user_spawned(old(tasks)@, image, priority, weight, None, 0, kstack_top).1,
{
    spawn_user_arg(tasks, image, priority, weight, 0, kstack_top)
}

/// Spawns a user-mode task with an initial argument (delivered in `rdi`).
pub fn spawn_user_arg(
    tasks: &mut TaskTable,
    image: Result<Loaded, ()>,
    priority: u8,
    weight: u32,
    arg: u64,
    kstack_top: u64,
) -> (r: Result<Spawn, ()>)
    requires
        old(tasks).wf(),
        image is Ok ==> old(tasks)@.has_room() && kstack_top >= FRAME_SIZE,
    ensures
        final(tasks).wf(),
        final(tasks)@ == user_spawned(
            old(tasks)@,
            image,
            priority,
            weight,
            None,
            arg,
            kstack_top,
        ).0,
        r == user_spawned(old(tasks)@, image, priority, weight, None, arg, kstack_top).1,
{
    spawn_user_full(tasks, image, priority, weight, None, arg, kstack_top)
}

/// Spawns a user-mode task, optionally with a realtime deadline.
pub fn spawn_user_rt(
    tasks: &mut TaskTable,
    image: Result<Loaded, ()>,
    priority: u8,
    weight: u32,
    deadline: Option<Deadline>,
    kstack_top: u64,
) -> (r: Result<Spawn, ()>)
    requires
        old(tasks).wf(),
        image is Ok ==> old(tasks)@.has_room() && kstack_top >= FRAME_SIZE,
    ensures
        final(tasks).wf(),
        final(tasks)@ == user_spawned(
            old(tasks)@,
            image,
            priority,
            weight,
            deadline,
            0,
            kstack_top,
        ).0,
        r == user_spawned(old(tasks)@, image, priority, weight, deadline, 0, kstack_top).1,
{
    spawn_user_full(tasks, image, priority, weight, deadline, 0, kstack_top)
}

fn spawn_user_full(
    tasks: &mut TaskTable,
    image: Result<Loaded, ()>,
    priority: u8,
    weight: u32,
    deadline: Option<Deadline>,
    arg: u64,
    kstack_top: u64,
) -> (r: Result<Spawn, ()>)
    requires
        old(tasks).wf(),
        image is Ok ==> old(tasks)@.has_room() && kstack_top >= FRAME_SIZE,
    ensures
        final(tasks).wf(),
        final(tasks)@ == user_spawned(
            old(tasks)@,
            image,
            priority,
            weight,
            deadline,
            arg,
            kstack_top,
        ).0,
        r == user_spawned(old(tasks)@, image, priority, weight, deadline, arg, kstack_top).1,
{
    match image {
        Ok(l) => {
            let id = tasks.new_task(
                l.name,
                priority,
                weight,
                deadline,
                true,
                kstack_top,
                Some(l.name),
            );
            let (frame_at, mut frame) = build_initial_frame(kstack_top);
            frame.rip = l.entry;
            frame.cs = gdt::user_code() as u64;
            frame.user_ss = gdt::user_data() as u64;
            frame.rflags = INITIAL_RFLAGS;
            frame.user_rsp = l.stack_top;
            frame.rdi = arg;
            Ok(Spawn { id, frame_at, frame })
        },
        Err(e) => Err(e),
    }
}

/// Top of the kernel stack of a task, 0 if it has no entry.
pub fn e_kstack_top(tasks: &TaskTable, id: TaskId) -> (r: u64)
    requires
        tasks.wf(),
    ensures
        r == tasks@.top(id),
{
    match tasks.find(id) {
        Some(i) => tasks.tasks[i].kstack_top,
        None => 0,
    }
}

/// The frame whose `rdi` has to be overwritten to hand an argument to a task
/// that has not run yet; `None` if it ran already, or has no frame.
pub fn set_user_arg(tasks: &TaskTable, id: TaskId) -> (r: Option<u64>)
    requires
        tasks.wf(),
    ensures
        r == (if tasks@.has(id) && tasks@.entry(id).save_area != 0 && !tasks@.has_run(id) {
            Some(tasks@.entry(id).save_area)
        } else {
            None
        }),
{
    let ran = match &tasks.sched {
        Some(s) => match s.task(id) {
            Some(t) => t.stats.runs > 0,
            None => false,
        },
        None => false,
    };
    match tasks.find(id) {
        Some(i) => if tasks.tasks[i].save_area != 0 && !ran {
            Some(tasks.tasks[i].save_area)
        } else {
            None
        },
        None => None,
    }
}

/// Whether a task runs in ring 3.
pub fn is_user_task(tasks: &TaskTable, id: TaskId) -> (r: bool)
    requires
        tasks.wf(),
    ensures
        r == tasks@.user(id),
{
    match tasks.find(id) {
        Some(i) => tasks.tasks[i].is_user,
        None => false,
    }
}

/// Capability space of a task.
pub fn with_cspace(tasks: &mut TaskTable, id: TaskId) -> (r: Option<&mut CNode>)
    requires
        old(tasks).wf(),
    ensures
        final(tasks).wf(),
        match r {
            Some(c) => old(tasks)@.has(id) && c@ == old(tasks)@.entry(id).cspace && final(tasks)@
                =~= old(tasks)@.with_space(id, final(c)@),
            None => !old(tasks)@.has(id) && final(tasks)@ =~= old(tasks)@,
        },
{
    proof {
        if tasks@.has(id) {
            assert(entry_is(tasks@.entries, place(tasks@.entries, id), id));
        }
        assert forall|c: Seq<Option<Capability>>| #[trigger]
            tasks@.with_space(id, c).wf() by {
            lemma_with_entry(tasks@, id, EntryView { id, cspace: c, ..tasks@.entry(id) });
            if tasks@.has(id) {
                assert(tasks@.with_space(id, c) == tasks@.with_entry(
                    id,
                    EntryView { id, cspace: c, ..tasks@.entry(id) },
                ));
            }
        }
    }
    match tasks.find(id) {
        Some(i) => {
            proof {
                let before = tasks.tasks@;
                assert forall|e: TaskEntry| #[trigger]
                    entry_views(before.update(i as int, e)) == entry_views(before).update(
                        i as int,
                        e@,
                    ) by {
                    lemma_views_update(before, i as int, e);
                }
            }
            Some(&mut tasks.tasks[i].cspace)
        },
        None => None,
    }
}

/// Capability space of a task, to read.
pub fn cspace_of(tasks: &TaskTable, id: TaskId) -> (r: Option<&CNode>)
    requires
        tasks.wf(),
    ensures
        match r {
            Some(c) => tasks@.has(id) && c@ == tasks@.entry(id).cspace,
            None => !tasks@.has(id),
        },
{
    match tasks.find(id) {
        Some(i) => Some(&tasks.tasks[i].cspace),
        None => None,
    }
}

// ---------------------------------------------------------------------------
// Preemption & switching
// ---------------------------------------------------------------------------

impl TaskTable {
    /// Wakes the tasks whose sleep has expired.
    fn wake_sleepers(&mut self)
        requires
            old(self).wf(),
            old(self)@.sched is Some,
        ensures
            final(self).wf(),
            final(self)@ == old(self)@.woken(),
    {
        let now = tick_count(self);
        let mut i: usize = 0;
        let ghost goal = wake_due(self@.sched->0, self@.sleeping, 0, now);
        while i < self.sleeping.len()
            invariant
                i <= self.sleeping@.len(),
                self.valid(),
                self@.sched is Some,
                self@.sched->0.wf(),
                wake_due(self@.sched->0, self@.sleeping, i as int, now) == goal,
                self@ == (TasksView {
                    sched: self@.sched,
                    sleeping: self@.sleeping,
                    ..old(self)@
                }),
            decreases self.sleeping@.len() - i,
        {
            let ghost s = self@.sched->0;
            let ghost sleeping = self@.sleeping;
            if self.sleeping[i].1 <= now {
                let id = self.sleeping[i].0;
                let _ = self.sleeping.swap_remove(i);
                proof {
                    s.lemma_wake(id);
                }
                if let Some(sched) = &mut self.sched {
                    sched.wake(id);
                }
                proof {
                    assert(self@.sleeping == swap_removed(sleeping, i as int));
                    assert(self@.sched == Some(s.wake(id)));
                }
            } else {
                i += 1;
            }
        }
        proof {
            assert(wake_due(self@.sched->0, self@.sleeping, i as int, now) == (
                self@.sched->0,
                self@.sleeping,
            ));
            lemma_wake_due(old(self)@.sched->0, old(self)@.sleeping, 0, now);
            assert(self@ =~= old(self)@.woken());
            lemma_with_sched(old(self)@, self@, self@.sched->0);
        }
    }
}

/// Called from the timer interrupt handler (interrupts off), with the frame of
/// what was interrupted. Returns the frame to restore.
pub fn on_irq_after_eoi(tasks: &mut TaskTable, frame: u64) -> (r: u64)
    requires
        old(tasks).wf(),
    ensures
        final(tasks).wf(),
        final(tasks)@ == old(tasks)@.interrupt(frame).0,
        r == old(tasks)@.interrupt(frame).1,
{
    // Before the scheduler exists, and while the timer is paused, keep
    // executing.
    if tasks.sched.is_none() || tasks.paused {
        return frame;
    }
    let interrupted = running_id(tasks);
    tasks.wake_sleepers();
    let ghost v = tasks@;
    let ghost s = v.sched->0;
    proof {
        lemma_wake_due(old(tasks)@.sched->0, old(tasks)@.sleeping, 0, old(tasks)@.now());
    }
    let mut preempt: bool = true;
    if tasks.yielding {
        tasks.yielding = false;
        if let Some(cur) = interrupted {
            proof {
                lemma_leave_wake(s, cur);
            }
            if let Some(sched) = &mut tasks.sched {
                let _ = sched.block(cur);
                sched.wake(cur);
            }
        }
        proof {
            assert(tasks@ =~= v.yielded(interrupted));
            lemma_with_sched(v, tasks@, tasks@.sched->0);
        }
    } else {
        proof {
            s.lemma_tick();
            sched::laws::law_tick_keeps_tasks(s);
            sched::laws::law_tick_keeps_finished(s);
        }
        if let Some(sched) = &mut tasks.sched {
            preempt = match sched.on_tick() {
                SchedAction::Continue => false,
                SchedAction::Preempt(_) => true,
            };
        }
        proof {
            assert(tasks@ =~= v.ticked());
            lemma_with_sched(v, tasks@, tasks@.sched->0);
        }
    }
    if !preempt {
        tasks.set_restore_flag(interrupted);
        return frame;
    }
    let next = running_id(tasks);
    if same_task(next, interrupted) {
        tasks.set_restore_flag(interrupted);
        return frame;
    }
    if let Some(id) = interrupted {
        tasks.save(id, frame);
    }
    tasks.switch_to(next, interrupted)
}

fn same_task(a: Option<TaskId>, b: Option<TaskId>) -> (r: bool)
    ensures
        r == (a == b),
{
    match (a, b) {
        (Some(x), Some(y)) => x == y,
        (None, None) => true,
        _ => false,
    }
}

/// Whether the running task can give up the CPU: there is one, and another
/// one to run.
pub fn can_park(tasks: &TaskTable) -> (r: bool)
    requires
        tasks.wf(),
    ensures
        r == tasks@.can_park(),
{
    match &tasks.sched {
        Some(s) => match s.running() {
            Some(id) => {
                let mut copy = s.clone();
                copy.block(id).is_some()
            },
            None => false,
        },
        None => false,
    }
}

/// Called from the syscall path: the running task, whose frame is
/// `current_frame`, gives up the CPU. Returns the frame to restore.
pub fn syscall_park(tasks: &mut TaskTable, current_frame: u64, how: ParkKind) -> (r: u64)
    requires
        old(tasks).wf(),
        old(tasks)@.can_park(),
        how matches ParkKind::Sleep(ms) ==> old(tasks)@.now() + ms <= u64::MAX,
    ensures
        final(tasks).wf(),
        final(tasks)@ == old(tasks)@.park(current_frame, how).0,
        r == old(tasks)@.park(current_frame, how).1,
{
    let now = tick_count(tasks);
    let current = match running_id(tasks) {
        Some(id) => id,
        None => 0,
    };
    let ghost v = tasks@;
    let ghost s = v.sched->0;
    proof {
        lemma_leave_wake(s, current);
    }
    tasks.save(current, current_frame);
    let ghost w = tasks@;
    match how {
        ParkKind::Sleep(ms) => {
            tasks.sleeping.push((current, now + ms));
            if let Some(sched) = &mut tasks.sched {
                let _ = sched.block(current);
            }
        },
        ParkKind::Block => {
            if let Some(sched) = &mut tasks.sched {
                let _ = sched.block(current);
            }
        },
        ParkKind::Yield => {
            if let Some(sched) = &mut tasks.sched {
                let _ = sched.block(current);
                sched.wake(current);
            }
        },
    }
    proof {
        assert(tasks@ =~= TasksView {
            sched: Some(v.parked_sched(how)),
            sleeping: match how {
                ParkKind::Sleep(ms) => v.sleeping.push((current, (now + ms) as u64)),
                _ => v.sleeping,
            },
            ..v.saved(current, current_frame)
        });
        lemma_with_sched(w, tasks@, tasks@.sched->0);
    }
    let next = running_id(tasks);
    tasks.switch_to(next, Some(current))
}

/// A kernel task asks to be moved to the back of the ready queue: the next
/// timer interrupt honours it.
pub fn kernel_yield(tasks: &mut TaskTable)
    requires
        old(tasks).wf(),
    ensures
        final(tasks).wf(),
        final(tasks)@ == (TasksView { yielding: true, ..old(tasks)@ }),
{
    tasks.yielding = true;
}

/// Whether a kernel task still waits to be moved to the back of the queue.
pub fn yield_pending(tasks: &TaskTable) -> (r: bool)
    ensures
        r == tasks@.yielding,
{
    tasks.yielding
}

/// Wakes a task parked by IPC. Its frame, which is returned, has to be rewound
/// with [`CpuFrame::rewind`], so that the *same* operation is tried again when
/// the task runs: otherwise it would resume after its syscall, and the message
/// would be lost.
pub fn wake_parked(tasks: &mut TaskTable, id: TaskId) -> (r: Option<u64>)
    requires
        old(tasks).wf(),
        old(tasks)@.sched is Some,
    ensures
        final(tasks).wf(),
        final(tasks)@ == old(tasks)@.wake(id),
        r == old(tasks)@.retry_frame(id),
{
    let ghost v = tasks@;
    let ghost s = v.sched->0;
    proof {
        s.lemma_wake(id);
        sched::laws::law_wake_keeps_tasks(s, id);
        sched::laws::law_wake_keeps_finished(s, id);
    }
    if let Some(sched) = &mut tasks.sched {
        sched.wake(id);
    }
    proof {
        assert(tasks@ =~= v.wake(id));
        lemma_with_sched(v, tasks@, tasks@.sched->0);
    }
    match tasks.find(id) {
        Some(i) => if tasks.tasks[i].is_user && tasks.tasks[i].save_area != 0 {
            Some(tasks.tasks[i].save_area)
        } else {
            None
        },
        None => None,
    }
}

/// The task currently holding the CPU (from the scheduler's view).
pub fn running_id(tasks: &TaskTable) -> (r: Option<TaskId>)
    ensures
        r == tasks@.running(),
{
    match &tasks.sched {
        Some(s) => s.running(),
        None => None,
    }
}

/// Called from the syscall path for a plain yield.
pub fn syscall_yield(tasks: &mut TaskTable, current_frame: u64) -> (r: u64)
    requires
        old(tasks).wf(),
        old(tasks)@.can_park(),
    ensures
        final(tasks).wf(),
        final(tasks)@ == old(tasks)@.park(current_frame, ParkKind::Yield).0,
        r == old(tasks)@.park(current_frame, ParkKind::Yield).1,
{
    syscall_park(tasks, current_frame, ParkKind::Yield)
}

/// Called from the syscall path: the running task terminates. Its kernel stack
/// must stay alive (it is in use right now), so the entry is moved to the
/// graveyard.
pub fn syscall_exit(tasks: &mut TaskTable) -> (r: u64)
    requires
        old(tasks).wf(),
        old(tasks)@.running() is Some,
    ensures
        final(tasks).wf(),
        final(tasks)@ == old(tasks)@.exit().0,
        r == old(tasks)@.exit().1,
{
    let current = match running_id(tasks) {
        Some(id) => id,
        None => 0,
    };
    let ghost v = tasks@;
    let ghost s = v.sched->0;
    proof {
        s.lemma_leave(current, TaskState::Finished);
        sched::laws::law_leave_keeps_tasks(s, current, TaskState::Finished);
        sched::laws::law_leave_keeps_finished(s, current, TaskState::Finished);
    }
    if let Some(sched) = &mut tasks.sched {
        let _ = sched.finish(current);
    }
    let ghost s1 = tasks@.sched->0;
    proof {
        lemma_with_sched(v, tasks@, s1);
    }
    if let Some(i) = tasks.find(current) {
        let ghost before = tasks.tasks@;
        let ghost dead = tasks.graveyard@;
        let entry = tasks.tasks.remove(i);
        tasks.graveyard.push(entry);
        proof {
            assert(entry_views(tasks.tasks@) =~= v.entries.remove(i as int));
            assert(entry_views(tasks.graveyard@) =~= v.graveyard.push(v.entries[i as int]));
            let w = tasks@;
            assert forall|x: TaskId| #[trigger] s1.known(x) && !sched::laws::done(
                s1,
                x,
            ) implies listed(w.entries, x) by {
                assert(x != current);
                let p = place(v.entries, x);
                assert(listed(v.entries, x));
                assert(entry_is(v.entries, p, x));
                if p < i {
                    assert(entry_is(w.entries, p, x));
                } else {
                    assert(entry_is(w.entries, p - 1, x));
                }
            }
            assert(w.wf());
        }
    }
    let next = running_id(tasks);
    tasks.switch_to(next, Some(current))
}

fn tick_count(tasks: &TaskTable) -> (r: u64)
    ensures
        r == tasks@.now(),
{
    match &tasks.sched {
        Some(s) => s.ticks(),
        None => 0,
    }
}

/// The running task sleeps for `ms` milliseconds.
pub fn syscall_sleep(tasks: &mut TaskTable, current_frame: u64, ms: u64) -> (r: u64)
    requires
        old(tasks).wf(),
        old(tasks)@.can_park(),
        old(tasks)@.now() + ms <= u64::MAX,
    ensures
        final(tasks).wf(),
        final(tasks)@ == old(tasks)@.park(current_frame, ParkKind::Sleep(ms)).0,
        r == old(tasks)@.park(current_frame, ParkKind::Sleep(ms)).1,
{
    syscall_park(tasks, current_frame, ParkKind::Sleep(ms))
}

// ---------------------------------------------------------------------------
// Boot
// ---------------------------------------------------------------------------

/// The state with the idle task added.
pub open spec fn idle_added(v: TasksView, kstack_top: u64) -> TasksView {
    v.added(v.new_entry("idle"@, kstack_top, false, 0, 1, None, None))
}

/// Spawns the idle task: always runnable, lowest priority. The second value
/// says whether the realtime demo is to be spawned too.
pub fn boot_tasks(tasks: &mut TaskTable, idle_entry: u64, kstack_top: u64) -> (r: (Spawn, bool))
    requires
        old(tasks).wf(),
        old(tasks)@.has_room(),
        kstack_top >= FRAME_SIZE,
    ensures
        final(tasks).wf(),
        final(tasks)@ == idle_added(old(tasks)@, kstack_top),
        r.0 == (Spawn {
            id: old(tasks)@.next_id,
            frame_at: first_frame(kstack_top),
            frame: kernel_frame(idle_entry, 0, kstack_top),
        }),
        r.1 == REALTIME_DEMO,
{
    (spawn_kernel(tasks, "idle", 0, 1, idle_entry, 0, kstack_top), REALTIME_DEMO)
}

/// Sets or clears the timer pause flag.
pub fn set_timer_paused(tasks: &mut TaskTable, p: bool)
    requires
        old(tasks).wf(),
    ensures
        final(tasks).wf(),
        final(tasks)@ == (TasksView { paused: p, ..old(tasks)@ }),
{
    tasks.paused = p;
}

/// Hands execution to the scheduler's first dispatch: one tick with nothing
/// running. Returns the frame to enter, `None` if there is no runnable task.
pub fn bootstrap_first_task(tasks: &mut TaskTable) -> (r: Option<u64>)
    requires
        old(tasks).wf(),
        old(tasks)@.sched is Some,
    ensures
        final(tasks).wf(),
        final(tasks)@ == old(tasks)@.bootstrapped().0,
        r == old(tasks)@.bootstrapped().1,
{
    let ghost v = tasks@;
    let ghost s = v.sched->0;
    proof {
        s.lemma_tick();
        sched::laws::law_tick_keeps_tasks(s);
        sched::laws::law_tick_keeps_finished(s);
    }
    let mut first: Option<TaskId> = None;
    if let Some(sched) = &mut tasks.sched {
        first = match sched.on_tick() {
            SchedAction::Preempt(next) => next,
            SchedAction::Continue => None,
        };
    }
    proof {
        assert(tasks@ =~= v.ticked());
        lemma_with_sched(v, tasks@, tasks@.sched->0);
    }
    match first {
        Some(id) => {
            let area = match tasks.find(id) {
                Some(i) => tasks.tasks[i].save_area,
                None => 0,
            };
            interrupts::set_user_ret_flag(&mut tasks.cpu, false);
            Some(area)
        },
        None => None,
    }
}

/// The clock: kernel uptime in ticks.
pub fn tick_now(tasks: &TaskTable) -> (r: u64)
    ensures
        r == tasks@.now(),
{
    tick_count(tasks)
}

// ---------------------------------------------------------------------------
// ps-style dump
// ---------------------------------------------------------------------------

/// The line of one task in the task list.
pub open spec fn row(v: TasksView, t: TaskRec) -> Seq<char> {
    "  "@ + text::right(text::decimal(t.id as nat), 3) + "  "@ + text::left(v.name(t.id), 20)
        + "  "@ + text::left(
        if v.user(t.id) {
            "user"@
        } else {
            "kern"@
        },
        4,
    ) + "  "@ + text::right(text::decimal(t.priority as nat), 3) + "  "@ + text::right(
        text::decimal(t.weight as nat),
        3,
    ) + "  "@ + text::right(text::decimal(t.stats.runs as nat), 5) + " "@ + text::right(
        text::decimal(t.stats.preemptions as nat),
        4,
    ) + "  "@ + text::right(text::decimal(t.stats.deadline_misses as nat), 4) + "  "@
        + text::right(text::decimal(t.stats.total_ticks as nat), 5)
}

/// The lines of the tasks that have not finished.
pub open spec fn rows(v: TasksView, recs: Seq<TaskRec>) -> Seq<Seq<char>>
    decreases recs.len(),
{
    if recs.len() == 0 {
        Seq::empty()
    } else if recs.last().state == TaskState::Finished {
        rows(v, recs.drop_last())
    } else {
        rows(v, recs.drop_last()).push(row(v, recs.last()))
    }
}

/// The head line of the task list.
pub open spec fn row_head() -> Seq<char> {
    "  ID  NAME                  MODE   PRI  WGT  RUNS  PRE  MISS  TICKS"@
}

fn row_text(tasks: &TaskTable, t: &TaskRec) -> (r: String)
    requires
        tasks.wf(),
    ensures
        r@ == row(tasks@, *t),
{
    let mut s = String::from_str("  ");
    text::push_number(&mut s, t.id, 3);
    s.append("  ");
    text::push_left(&mut s, name_of(tasks, t.id), 20);
    s.append("  ");
    text::push_left(
        &mut s,
        if is_user_task(tasks, t.id) {
            "user"
        } else {
            "kern"
        },
        4,
    );
    s.append("  ");
    text::push_number(&mut s, t.priority as u64, 3);
    s.append("  ");
    text::push_number(&mut s, t.weight as u64, 3);
    s.append("  ");
    text::push_number(&mut s, t.stats.runs, 5);
    s.append(" ");
    text::push_number(&mut s, t.stats.preemptions, 4);
    s.append("  ");
    text::push_number(&mut s, t.stats.deadline_misses, 4);
    s.append("  ");
    text::push_number(&mut s, t.stats.total_ticks, 5);
    s
}

/// The task list.
pub open spec fn listing(v: TasksView) -> Seq<Seq<char>> {
    seq![row_head()] + (match v.sched {
        Some(s) => rows(v, sched::records(s.tasks)),
        None => Seq::empty(),
    })
}

/// The task list with its scheduling statistics. Exited tasks are not shown.
pub fn dump_tasks(tasks: &TaskTable) -> (out: Vec<String>)
    requires
        tasks.wf(),
    ensures
        text::views(out@) == listing(tasks@),
{
    let mut out = text::no_lines();
    text::push_line(
        &mut out,
        String::from_str("  ID  NAME                  MODE   PRI  WGT  RUNS  PRE  MISS  TICKS"),
    );
    proof {
        assert(text::views(out@) =~= seq![row_head()] + Seq::<Seq<char>>::empty());
    }
    if let Some(s) = &tasks.sched {
        let list = s.iter();
        let ghost recs = sched::records(s@.tasks);
        for i in 0..list.len()
            invariant
                tasks.wf(),
                list@.len() == recs.len(),
                forall|k: int| 0 <= k < list@.len() ==> *(#[trigger] list@[k]) == recs[k],
                text::views(out@) == seq![row_head()] + rows(tasks@, recs.take(i as int)),
        {
            let t = list[i];
            proof {
                assert(recs.take(i + 1).drop_last() =~= recs.take(i as int));
                assert(recs.take(i + 1).last() == *t);
            }
            if t.state != TaskState::Finished {
                text::push_line(&mut out, row_text(tasks, t));
                proof {
                    assert(text::views(out@) =~= seq![row_head()] + rows(tasks@, recs.take(i + 1)));
                }
            }
        }
        proof {
            assert(recs.take(recs.len() as int) =~= recs);
        }
    }
    out
}

/// Kernel self-test for the task layer: a scheduler with the compiled policy
/// accepts tasks, the first tick dispatches, and when the runner blocks the
/// other task takes over. Reports on the console.
pub fn run_tests(console: &mut Console) -> (r: bool)
    ensures
        r,
        final(console)@ == old(console)@.sent(
            vstd::utf8::encode_utf8("task:self-test:ok"@) + serial::line_end(),
        ),
{
    let mut s = Scheduler::new(PolicyKind::from(SCHED_POLICY), 10);
    let ghost v0 = s@;
    let ghost r1 = sched::fresh(1, 1, 1, None, 0);
    let ghost r2 = sched::fresh(2, 1, 1, None, 0);
    proof {
        s.lemma_wf();
        assert forall|x: TaskId| !#[trigger] v0.known(x) by {
            if v0.known(x) {
                assert(sched::holds(v0.tasks, sched::slot_of(v0.tasks, x), x));
            }
        }
        assert(v0.tasks[0] is None);
        assert(sched::first_free(v0.tasks, 0));
        sched::laws::law_register_effect(v0, r1, 0);
        sched::laws::law_register_adds_one(v0, r1);
    }
    let first = s.register(1, 1, 1, None).is_ok();
    let ghost v1 = s@;
    proof {
        s.lemma_wf();
        assert(v1.tasks[1] is None);
        assert(sched::first_free(v1.tasks, 1));
        assert(!v1.known(2));
        sched::laws::law_register_effect(v1, r2, 1);
        sched::laws::law_register_adds_one(v1, r2);
        sched::laws::law_register_keeps_records(v1, r2);
    }
    let second = s.register(2, 1, 1, None).is_ok();
    proof {
        s.lemma_wf();
        let v2 = s@;
        assert(sched::holds(v2.tasks, 0, 1));
        assert(sched::holds(v2.tasks, 1, 2));
        assert(v2.known(1) && v2.known(2));
        assert(v2.ready =~= seq![1u64, 2u64]);
        sched::laws::law_block_runs_the_next(v2, 1, 2);
    }
    let ticked = matches!(s.on_tick(), SchedAction::Preempt(Some(_)));
    let _ = s.block(1);
    let other = matches!(s.running(), Some(2));
    serial::write_line(console, "task:self-test:ok");
    first && second && ticked && other
}

} // verus!
