//! What switching, parking, sleeping and spawning come to.

use vstd::prelude::*;
use crate::kernel::interrupts::CpuFrame;
use crate::kernel::task;
use crate::kernel::task::{EntryView, Loaded, ParkKind, TasksView};
use crate::sched;
use crate::sched::effects::{law_leave_effect, law_tick_accounts, law_wake_effect, modulus};
use crate::sched::laws::runnable;
use crate::sched::{Deadline, SchedAction, SchedView, TaskId, TaskRec, TaskState};
use crate::text;

verus! {

// ---------------------------------------------------------------------------
// Sleeping
// ---------------------------------------------------------------------------

/// The task is blocked and listed to be woken at the tick `t`, and at no other.
pub open spec fn sleeps_until(v: TasksView, x: TaskId, t: int) -> bool {
    &&& v.sched is Some
    &&& v.sched->0.known(x)
    &&& v.sched->0.rec(x).state == TaskState::Blocked
    &&& exists|k: int| 0 <= k < v.sleeping.len() && (#[trigger] v.sleeping[k]).0 == x
    &&& forall|k: int|
        0 <= k < v.sleeping.len() && (#[trigger] v.sleeping[k]).0 == x ==> v.sleeping[k].1 == t
}

/// A scheduler that is there and valid.
pub open spec fn up(v: TasksView) -> bool {
    v.sched matches Some(s) && s.wf()
}

/// A task that no due entry names is not touched when sleepers are woken.
proof fn lemma_not_due(s: SchedView, sleeping: Seq<(TaskId, u64)>, i: int, now: u64, x: TaskId)
    requires
        s.wf(),
        0 <= i,
        s.known(x),
        forall|k: int|
            i <= k < sleeping.len() && (#[trigger] sleeping[k]).0 == x ==> sleeping[k].1 > now,
    ensures
        task::wake_due(s, sleeping, i, now).0.known(x),
        task::wake_due(s, sleeping, i, now).0.rec(x) == s.rec(x),
    decreases sleeping.len() - i,
{
    if i < sleeping.len() {
        if sleeping[i].1 <= now {
            let id = sleeping[i].0;
            let less = task::swap_removed(sleeping, i);
            s.lemma_wake(id);
            law_wake_effect(s, id, x);
            assert forall|k: int| i <= k < less.len() && (#[trigger] less[k]).0 == x implies less[k].1
                > now by {
                if k == i {
                    assert(less[k] == sleeping[sleeping.len() - 1]);
                } else {
                    assert(less[k] == sleeping[k]);
                }
            }
            lemma_not_due(s.wake(id), less, i, now, x);
        } else {
            lemma_not_due(s, sleeping, i + 1, now, x);
        }
    }
}

/// A blocked task that a due entry names can run when sleepers were woken.
proof fn lemma_due(s: SchedView, sleeping: Seq<(TaskId, u64)>, i: int, now: u64, x: TaskId)
    requires
        s.wf(),
        0 <= i,
        s.known(x),
        s.rec(x).state == TaskState::Blocked || runnable(s, x),
        runnable(s, x) || exists|k: int|
            i <= k < sleeping.len() && (#[trigger] sleeping[k]).0 == x && sleeping[k].1 <= now,
    ensures
        runnable(task::wake_due(s, sleeping, i, now).0, x),
    decreases sleeping.len() - i,
{
    if i < sleeping.len() {
        if sleeping[i].1 <= now {
            let id = sleeping[i].0;
            let less = task::swap_removed(sleeping, i);
            s.lemma_wake(id);
            law_wake_effect(s, id, x);
            if !runnable(s, x) && id != x {
                let k = choose|k: int|
                    i <= k < sleeping.len() && (#[trigger] sleeping[k]).0 == x && sleeping[k].1
                        <= now;
                if k == sleeping.len() - 1 {
                    assert(less[i] == sleeping[k]);
                } else {
                    assert(less[k] == sleeping[k]);
                }
            }
            lemma_due(s.wake(id), less, i, now, x);
        } else {
            lemma_due(s, sleeping, i + 1, now, x);
        }
    }
}

proof fn lemma_wake_due_keeps(s: SchedView, sleeping: Seq<(TaskId, u64)>, i: int, now: u64)
    requires
        s.wf(),
    ensures
        task::wake_due(s, sleeping, i, now).0.wf(),
        task::wake_due(s, sleeping, i, now).0.ticks == s.ticks,
        task::wake_due(s, sleeping, i, now).0.running == s.running,
{
    task::lemma_wake_due(s, sleeping, i, now);
}

/// What a timer interrupt makes of a sleeper: before its tick it stays blocked
/// and listed; once the clock has reached its tick it can run and is off the
/// list.
pub proof fn law_interrupt_and_sleepers(v: TasksView, frame: u64, x: TaskId, t: int)
    requires
        up(v),
        !v.paused,
        sleeps_until(v, x, t),
    ensures
        ({
            let w = v.interrupt(frame).0;
            &&& up(w)
            &&& v.sched->0.ticks < t ==> sleeps_until(w, x, t)
            &&& v.sched->0.ticks >= t ==> runnable(w.sched->0, x) && forall|k: int|
                0 <= k < w.sleeping.len() ==> (#[trigger] w.sleeping[k]).0 != x
        }),
{
    let s = v.sched->0;
    let now = s.ticks;
    let cur = s.running;
    let u = v.woken();
    let s1 = u.sched->0;
    lemma_wake_due_keeps(s, v.sleeping, 0, now);
    task::laws::law_sleepers_wake_on_time(s, v.sleeping, now);
    assert forall|k: int| 0 <= k < u.sleeping.len() && (#[trigger] u.sleeping[k]).0
        == x implies u.sleeping[k].1 == t by {
        let j = v.sleeping.index_of(u.sleeping[k]);
        assert(v.sleeping.contains(u.sleeping[k]));
        assert(v.sleeping[j].0 == x);
    }
    if now < t {
        assert forall|k: int|
            0 <= k < v.sleeping.len() && (#[trigger] v.sleeping[k]).0 == x implies v.sleeping[k].1
            > now by {}
        lemma_not_due(s, v.sleeping, 0, now, x);
        let k = choose|k: int| 0 <= k < v.sleeping.len() && (#[trigger] v.sleeping[k]).0 == x;
        assert(u.sleeping.contains(v.sleeping[k]));
        let j = u.sleeping.index_of(v.sleeping[k]);
        assert(u.sleeping[j].0 == x);
        assert(sleeps_until(u, x, t));
    } else {
        let k = choose|k: int| 0 <= k < v.sleeping.len() && (#[trigger] v.sleeping[k]).0 == x;
        assert(v.sleeping[k].1 <= now);
        lemma_due(s, v.sleeping, 0, now, x);
        assert forall|k: int| 0 <= k < u.sleeping.len() implies (#[trigger] u.sleeping[k]).0
            != x by {
            assert(u.sleeping[k].1 > now);
        }
    }
    assert(cur != Some(x));
    if u.yielding {
        if let Some(id) = cur {
            task::lemma_leave_wake(s1, id);
            let l = s1.leave(id, TaskState::Blocked).0;
            law_leave_effect(s1, id, TaskState::Blocked, x);
            sched::laws::law_leave_keeps_runnable(s1, id, TaskState::Blocked);
            if s1.leave(id, TaskState::Blocked).1 == Some(x) {
                sched::effects::law_leave_picks_only_ready(s1, id, TaskState::Blocked, x);
            }
            law_wake_effect(l, id, x);
        }
    } else {
        s1.lemma_tick();
        law_tick_accounts(s1, x);
        sched::laws::law_tick_keeps_runnable(s1);
        if s1.tick().1 == SchedAction::Preempt(Some(x)) {
            sched::effects::law_tick_picks_only_ready(s1, x);
        }
    }
}

/// The clock and the switches under a timer interrupt: the clock moves by one,
/// but for an interrupt that serves a yield, and stands while the timer is
/// paused.
pub proof fn law_interrupt_moves_the_clock(v: TasksView, frame: u64)
    requires
        up(v),
    ensures
        ({
            let w = v.interrupt(frame).0;
            &&& v.paused ==> w == v && v.interrupt(frame).1 == frame
            &&& !v.paused && v.yielding ==> w.sched->0.ticks == v.sched->0.ticks && !w.yielding
            &&& !v.paused && !v.yielding ==> w.sched->0.ticks == (v.sched->0.ticks + 1) % modulus()
                && !w.yielding
            &&& w.paused == v.paused
            &&& w.next_id == v.next_id
            &&& w.graveyard == v.graveyard
        }),
{
    let s = v.sched->0;
    lemma_wake_due_keeps(s, v.sleeping, 0, s.ticks);
    let s1 = v.woken().sched->0;
    if !v.paused {
        if v.yielding {
            if let Some(id) = s.running {
                task::lemma_leave_wake(s1, id);
                sched::laws::law_leave_keeps_tasks(s1, id, TaskState::Blocked);
                sched::laws::law_wake_keeps_tasks(s1.leave(id, TaskState::Blocked).0, id);
            }
        } else {
            sched::laws::law_tick_keeps_tasks(s1);
        }
    }
}

/// The state after `n` timer interrupts and nothing else.
pub open spec fn interrupts(v: TasksView, frame: u64, n: nat) -> TasksView
    decreases n,
{
    if n == 0 {
        v
    } else {
        interrupts(v, frame, (n - 1) as nat).interrupt(frame).0
    }
}

/// What parking does to the scheduler: the runner waits, in the way it asked
/// for, and the clock stands.
pub proof fn law_park_effect(v: TasksView, frame: u64, how: ParkKind)
    requires
        v.wf(),
        v.can_park(),
    ensures
        ({
            let id = v.sched->0.running->0;
            let w = v.park(frame, how).0;
            let s = w.sched->0;
            &&& w.sched is Some && s.wf()
            &&& s.ticks == v.sched->0.ticks
            &&& s.known(id)
            &&& s.rec(id).state == (if how is Yield {
                TaskState::Ready
            } else {
                TaskState::Blocked
            })
            &&& how is Yield && !v.sched->0.rec(id).in_ring ==> s.ready.len() > 0 && s.ready.last()
                == id
            &&& !(how is Sleep) ==> w.sleeping == v.sleeping
            &&& how matches ParkKind::Sleep(ms) ==> v.sched->0.ticks + ms <= u64::MAX ==> {
                &&& w.sleeping.len() == v.sleeping.len() + 1
                &&& w.sleeping.take(v.sleeping.len() as int) == v.sleeping
                &&& w.sleeping.last().0 == id
                &&& w.sleeping.last().1 == v.sched->0.ticks + ms
            }
            &&& w.paused == v.paused && w.yielding == v.yielding
        }),
{
    let s = v.sched->0;
    let id = s.running->0;
    assert(s.known(id));
    task::lemma_leave_wake(s, id);
    let l = s.leave(id, TaskState::Blocked).0;
    law_leave_effect(s, id, TaskState::Blocked, id);
    law_wake_effect(l, id, id);
    sched::laws::law_wake_requeues(l, id);
    if !s.rec(id).in_ring {
        sched::effects::law_leaving_does_not_queue(s, id, TaskState::Blocked);
    }
    if let ParkKind::Sleep(ms) = how {
        let w = v.park(frame, how).0;
        assert(w.sleeping.take(v.sleeping.len() as int) =~= v.sleeping);
    }
}

/// A task that goes to sleep for `ms` ticks at the tick `now` stays blocked
/// through every timer interrupt that comes while the clock is below
/// `now + ms`, and can run after the first one that comes when the clock has
/// reached it. (The interrupt number `n + 1` comes at the tick `now + n`.)
pub proof fn law_sleep_lasts_as_asked(v: TasksView, frame: u64, ms: u64, n: nat)
    requires
        v.wf(),
        v.can_park(),
        !v.paused,
        !v.yielding,
        forall|k: int|
            0 <= k < v.sleeping.len() ==> Some((#[trigger] v.sleeping[k]).0) != v.sched->0.running,
        v.sched->0.ticks + ms + 1 <= u64::MAX,
        n <= ms + 1,
    ensures
        ({
            let id = v.sched->0.running->0;
            let w = interrupts(v.park(frame, ParkKind::Sleep(ms)).0, frame, n);
            &&& w.sched->0.ticks == v.sched->0.ticks + n
            &&& n <= ms ==> w.sched->0.rec(id).state == TaskState::Blocked
            &&& n == ms + 1 ==> runnable(w.sched->0, id)
        }),
{
    lemma_asleep(v, frame, ms, n);
}

proof fn lemma_asleep(v: TasksView, frame: u64, ms: u64, n: nat)
    requires
        v.wf(),
        v.can_park(),
        !v.paused,
        !v.yielding,
        forall|k: int|
            0 <= k < v.sleeping.len() ==> Some((#[trigger] v.sleeping[k]).0) != v.sched->0.running,
        v.sched->0.ticks + ms + 1 <= u64::MAX,
        n <= ms + 1,
    ensures
        ({
            let id = v.sched->0.running->0;
            let w = interrupts(v.park(frame, ParkKind::Sleep(ms)).0, frame, n);
            &&& up(w) && !w.paused && !w.yielding
            &&& w.sched->0.ticks == v.sched->0.ticks + n
            &&& n <= ms ==> sleeps_until(w, id, v.sched->0.ticks + ms)
            &&& n == ms + 1 ==> runnable(w.sched->0, id)
        }),
    decreases n,
{
    let id = v.sched->0.running->0;
    let p = v.park(frame, ParkKind::Sleep(ms)).0;
    if n == 0 {
        law_park_effect(v, frame, ParkKind::Sleep(ms));
        let last = p.sleeping.len() - 1;
        assert(p.sleeping[last].0 == id);
        assert forall|k: int| 0 <= k < p.sleeping.len() && (#[trigger] p.sleeping[k]).0
            == id implies p.sleeping[k].1 == v.sched->0.ticks + ms by {
            if k < last {
                assert(p.sleeping.take(last)[k] == v.sleeping[k]);
                assert(p.sleeping[k] == v.sleeping[k]);
            }
        }
    } else {
        lemma_asleep(v, frame, ms, (n - 1) as nat);
        let u = interrupts(p, frame, (n - 1) as nat);
        law_interrupt_moves_the_clock(u, frame);
        law_interrupt_and_sleepers(u, frame, id, v.sched->0.ticks + ms);
    }
}

// ---------------------------------------------------------------------------
// Switching
// ---------------------------------------------------------------------------

/// Which frame a timer interrupt restores: that of the task that has the CPU
/// afterwards. If that is the one that was interrupted, it is the frame that
/// came in; if it is another, the frame that came in is kept for the one that
/// was interrupted, and the stack and the ring are those of the other. No other
/// entry changes.
pub proof fn law_interrupt_switches(v: TasksView, frame: u64)
    requires
        v.wf(),
        up(v),
        !v.paused,
        v.sched->0.running is Some,
    ensures
        ({
            let a = v.sched->0.running->0;
            let (w, f) = v.interrupt(frame);
            &&& w.sched->0.running == Some(a) ==> f == frame && w.entries == v.entries
                && w.cpu.user_ret == v.entry(a).is_user
            &&& w.sched->0.running matches Some(b) ==> b != a ==> {
                &&& v.has(b)
                &&& f == v.entry(b).save_area
                &&& w.has(a) && w.entry(a).save_area == frame
                &&& w.cpu.rsp0 == v.entry(b).kstack_top
                &&& w.cpu.gs.kstack == v.entry(b).kstack_top
                &&& w.cpu.user_ret == v.entry(b).is_user
                &&& w.cpu.gs.scratch1 == (if v.entry(b).is_user {
                    1u64
                } else {
                    0
                })
            }
            &&& forall|x: TaskId| #[trigger]
                v.has(x) && x != a ==> w.has(x) && w.entry(x) == v.entry(x)
            &&& w.has(a) && w.entry(a) == (EntryView {
                save_area: w.entry(a).save_area,
                ..v.entry(a)
            })
        }),
{
    let s = v.sched->0;
    let a = s.running->0;
    task::laws::law_runner_has_an_entry(v);
    task::lemma_wake_due(s, v.sleeping, 0, s.ticks);
    let u = v.woken();
    let s1 = u.sched->0;
    let t = if u.yielding {
        u.yielded(Some(a))
    } else {
        u.ticked()
    };
    let s2 = t.sched->0;
    if u.yielding {
        task::lemma_leave_wake(s1, a);
        assert forall|x: TaskId| #[trigger] s2.known(x) <==> s.known(x) by {
            assert(s1.known(x) <==> s.known(x));
        }
        assert forall|x: TaskId| #[trigger] sched::laws::done(s, x) implies sched::laws::done(
            s2,
            x,
        ) by {
            assert(sched::laws::done(s1, x));
        }
    } else {
        s1.lemma_tick();
        sched::laws::law_tick_keeps_tasks(s1);
        sched::laws::law_tick_keeps_finished(s1);
        assert forall|x: TaskId| #[trigger] s2.known(x) <==> s.known(x) by {
            assert(s1.known(x) <==> s.known(x));
        }
        assert forall|x: TaskId| #[trigger] sched::laws::done(s, x) implies sched::laws::done(
            s2,
            x,
        ) by {
            assert(sched::laws::done(s1, x));
        }
    }
    task::lemma_with_sched(v, t, s2);
    task::laws::law_runner_has_an_entry(t);
    assert(t.has(a) && t.entry(a) == v.entry(a));
    let p = task::place(v.entries, a);
    assert(task::entry_is(v.entries, p, a));
    task::lemma_with_entry(t, a, EntryView { save_area: frame, ..t.entry(a) });
    if let Some(b) = s2.running {
        if b != a {
            assert(v.has(b));
        }
    }
    let w = v.interrupt(frame).0;
    let z = t.saved(a, frame);
    assert(w.entries == v.entries || w.entries == z.entries);
    assert forall|x: TaskId| #[trigger] v.has(x) && x != a implies w.has(x) && w.entry(x)
        == v.entry(x) by {
        assert(t.has(x));
        assert(z.has(x) && z.entry(x) == t.entry(x));
    }
    assert(z.has(a) && z.entry(a).save_area == frame);
    if s2.running == Some(a) {
        assert(w.entries == v.entries);
    } else {
        assert(w.entries == z.entries);
        if let Some(b) = s2.running {
            assert(z.has(b) && z.entry(b) == v.entry(b));
        }
    }
}

/// The first task that is dispatched at boot gets the CPU, and its frame is
/// entered from ring 0.
pub proof fn law_bootstrap_enters_the_runner(v: TasksView)
    requires
        up(v),
        v.sched->0.running is None,
        v.sched->0.running_ticks < u64::MAX,
    ensures
        ({
            let (w, f) = v.bootstrapped();
            &&& f is Some <==> w.sched->0.running is Some
            &&& w.sched->0.running matches Some(id) ==> f == Some(v.area(id)) && !w.cpu.user_ret
            &&& w.entries == v.entries
            &&& w.sched->0.ticks == (v.sched->0.ticks + 1) % modulus()
        }),
{
    let s = v.sched->0;
    s.lemma_tick();
    sched::laws::law_tick_keeps_tasks(s);
    sched::effects::law_when_a_turn_ends(s);
}

/// The saved frame of a user task is where its syscall is tried again; a task
/// of the kernel, or one without a saved frame or without an entry, has none.
pub proof fn law_retry_frame(v: TasksView, id: TaskId)
    ensures
        v.retry_frame(id) is Some <==> v.has(id) && v.entry(id).is_user && v.entry(id).save_area
            != 0,
        v.retry_frame(id) matches Some(f) ==> f == v.entry(id).save_area,
{
}

// ---------------------------------------------------------------------------
// Spawning
// ---------------------------------------------------------------------------

/// The first frame lies on the stack of the task, right below its top up to
/// alignment.
pub proof fn law_first_frame_is_on_the_stack(top: u64)
    requires
        top >= 176,
    ensures
        task::first_frame(top) % 16 == 0,
        task::first_frame(top) + 176 <= top,
        top < task::first_frame(top) + 192,
{
}

/// The frame starts execution at `entry` with `arg` as its argument and the
/// stack pointer at `stack`, interrupts on, and zero in every other register.
pub open spec fn starts(f: CpuFrame, entry: u64, arg: u64, stack: u64) -> bool {
    &&& f.rip == entry && f.rdi == arg && f.user_rsp == stack && f.rflags == 0x202
    &&& f.r15 == 0 && f.r14 == 0 && f.r13 == 0 && f.r12 == 0 && f.r11 == 0 && f.r10 == 0
    &&& f.r9 == 0 && f.r8 == 0 && f.rsi == 0 && f.rdx == 0 && f.rcx == 0 && f.rbx == 0
    &&& f.rax == 0 && f.rbp == 0 && f.err == 0 && f.vec == 0
}

/// A user task that was spawned starts in ring 3 at the entry point of its
/// program, on the user stack, with its argument; it has a new id, the name of
/// its program, an empty capability space and the parameters that were asked
/// for, and is ready. If the program could not be loaded, nothing happens.
pub proof fn law_spawned_user_task(
    v: TasksView,
    image: Result<Loaded, ()>,
    priority: u8,
    weight: u32,
    deadline: Option<Deadline>,
    arg: u64,
    top: u64,
)
    requires
        v.wf(),
        v.has_room(),
        top >= 176,
    ensures
        ({
            let (w, r) = task::user_spawned(v, image, priority, weight, deadline, arg, top);
            &&& image is Err ==> r is Err && w == v
            &&& image matches Ok(l) ==> {
                let e = w.entry(v.next_id);
                let rec = w.sched->0.rec(v.next_id);
                &&& r matches Ok(sp) && sp.id == v.next_id && starts(
                    sp.frame,
                    l.entry,
                    arg,
                    l.stack_top,
                ) && sp.frame.cs == 0x23 && sp.frame.user_ss == 0x1b && sp.frame_at == e.save_area
                    && sp.frame_at % 16 == 0 && sp.frame_at + 176 <= top
                &&& w.has(v.next_id) && e.id == v.next_id && e.name == l.name@ && e.kstack_top
                    == top && e.is_user
                &&& e.cspace.len() == 64 && forall|i: int|
                    0 <= i < 64 ==> (#[trigger] e.cspace[i]) is None
                &&& w.next_id == v.next_id + 1
                &&& w.sched->0.known(v.next_id) && rec.state == TaskState::Ready && rec.deadline
                    == deadline && rec.weight == (if weight == 0 {
                    1
                } else {
                    weight
                }) && rec.priority == (if priority == 0 {
                    1
                } else {
                    priority
                })
            }
        }),
{
    law_first_frame_is_on_the_stack(top);
    if let Ok(l) = image {
        let e = v.new_entry(l.name@, top, true, priority, weight, deadline, Some(l.name@));
        task::laws::law_added_task_is_ready(v, e);
        assert(!v.sched->0.known(v.next_id));
        sched::effects::law_registered_record(
            v.sched->0,
            v.next_id,
            priority,
            weight,
            deadline,
        );
    }
}

/// A kernel task starts in ring 0 on its own kernel stack.
pub proof fn law_kernel_task_starts_in_ring_0(entry: u64, arg: u64, top: u64)
    ensures
        starts(task::kernel_frame(entry, arg, top), entry, arg, top),
        task::kernel_frame(entry, arg, top).cs == 0x08,
        task::kernel_frame(entry, arg, top).user_ss == 0x10,
{
}

/// The hardware is pointed at the stack and the ring of the task `b`.
pub open spec fn points_at(w: TasksView, e: EntryView) -> bool {
    &&& w.cpu.rsp0 == e.kstack_top
    &&& w.cpu.gs.kstack == e.kstack_top
    &&& w.cpu.user_ret == e.is_user
    &&& w.cpu.gs.scratch1 == (if e.is_user {
        1u64
    } else {
        0
    })
}

/// What parking does to the entries and the hardware: the frame of the runner
/// is kept for it, the frame of the task that goes on is restored, with its
/// stack and its ring, and nothing else of any task changes.
pub proof fn law_park_switches(v: TasksView, frame: u64, how: ParkKind)
    requires
        v.wf(),
        v.can_park(),
    ensures
        ({
            let a = v.sched->0.running->0;
            let (w, f) = v.park(frame, how);
            let b = w.sched->0.running->0;
            &&& w.sched->0.running is Some && b != a && v.has(b)
            &&& f == v.entry(b).save_area
            &&& points_at(w, v.entry(b))
            &&& w.has(a) && w.entry(a) == (EntryView { save_area: frame, ..v.entry(a) })
            &&& forall|x: TaskId| #[trigger]
                v.has(x) && x != a ==> w.has(x) && w.entry(x) == v.entry(x)
            &&& w.next_id == v.next_id && w.graveyard == v.graveyard
        }),
{
    let a = v.sched->0.running->0;
    task::laws::law_park_gives_up_the_cpu(v, frame, how);
    task::laws::law_runner_has_an_entry(v);
    assert(task::entry_is(v.entries, task::place(v.entries, a), a));
    task::lemma_with_entry(v, a, EntryView { save_area: frame, ..v.entry(a) });
    let u = v.saved(a, frame);
    let w = v.park(frame, how).0;
    let b = w.sched->0.running->0;
    assert(w.entries == u.entries);
    assert(u.has(b) && u.entry(b) == v.entry(b));
    assert forall|x: TaskId| #[trigger] v.has(x) && x != a implies w.has(x) && w.entry(x)
        == v.entry(x) by {
        assert(u.has(x) && u.entry(x) == v.entry(x));
    }
    assert(u.has(a));
}

/// What an exit does: the runner has finished and its entry is gone, another
/// task goes on in its own frame, with its stack and its ring, if there is one,
/// and nothing of any other task changes.
pub proof fn law_exit_switches(v: TasksView)
    requires
        v.wf(),
        v.running() is Some,
    ensures
        ({
            let a = v.sched->0.running->0;
            let (w, f) = v.exit();
            &&& w.sched->0.rec(a).state == TaskState::Finished
            &&& !w.has(a)
            &&& w.graveyard == v.graveyard.push(v.entry(a))
            &&& w.sched->0.ticks == v.sched->0.ticks
            &&& forall|x: TaskId| #[trigger]
                v.has(x) && x != a ==> w.has(x) && w.entry(x) == v.entry(x)
            &&& w.sched->0.running matches Some(b) ==> b != a && v.has(b) && f == v.entry(
                b,
            ).save_area && points_at(w, v.entry(b))
            &&& w.sched->0.running is None ==> f == 0
            &&& w.next_id == v.next_id && w.sleeping == v.sleeping
        }),
{
    let s = v.sched->0;
    let a = s.running->0;
    let (w, f) = v.exit();
    task::laws::law_exit_is_final(v);
    task::laws::law_runner_has_an_entry(v);
    s.lemma_leave(a, TaskState::Finished);
    law_leave_effect(s, a, TaskState::Finished, a);
    sched::laws::law_leave_keeps_tasks(s, a, TaskState::Finished);
    sched::laws::law_leave_keeps_finished(s, a, TaskState::Finished);
    let t = s.leave(a, TaskState::Finished).0;
    let p = task::place(v.entries, a);
    assert(task::entry_is(v.entries, p, a));
    assert forall|i: int, j: int| 0 <= i < j < w.entries.len() implies (#[trigger] w.entries[i]).id
        != (#[trigger] w.entries[j]).id by {
        let i0 = if i < p {
            i
        } else {
            i + 1
        };
        let j0 = if j < p {
            j
        } else {
            j + 1
        };
        assert(v.entries[i0].id != v.entries[j0].id);
    }
    assert forall|x: TaskId| #[trigger] v.has(x) && x != a implies w.has(x) && w.entry(x)
        == v.entry(x) by {
        let q = task::place(v.entries, x);
        assert(task::entry_is(v.entries, q, x));
        let q1 = if q < p {
            q
        } else {
            q - 1
        };
        assert(task::entry_is(w.entries, q1, x));
        task::lemma_place(w.entries, q1, x);
    }
    if let Some(b) = t.running {
        assert(t.known(b) && !sched::laws::done(t, b));
        assert(b != a);
        assert(s.known(b));
        if sched::laws::done(s, b) {
            assert(sched::laws::done(t, b));
        }
        assert(v.has(b));
    }
}

/// A piece of a text is where it was put.
proof fn lemma_piece(head: Seq<char>, piece: Seq<char>, tail: Seq<char>)
    ensures
        (head + piece + tail).subrange(head.len() as int, (head.len() + piece.len()) as int)
            == piece,
{
    assert((head + piece + tail).subrange(head.len() as int, (head.len() + piece.len()) as int)
        =~= piece);
}

proof fn lemma_regroup(
    a: Seq<char>,
    b: Seq<char>,
    c: Seq<char>,
    d: Seq<char>,
    e: Seq<char>,
)
    ensures
        a + b + c + d + e == a + b + (c + d + e),
{
    assert(a + b + c + d + e =~= a + b + (c + d + e));
}

/// Nine columns in a row, with the gaps between them.
spec fn in_columns(g: Seq<char>, n: Seq<char>, c: Seq<Seq<char>>) -> Seq<char> {
    g + c[0] + g + c[1] + g + c[2] + g + c[3] + g + c[4] + g + c[5] + n + c[6] + g + c[7] + g + c[8]
}

/// The text before the column `i`.
spec fn before_column(g: Seq<char>, n: Seq<char>, c: Seq<Seq<char>>, i: int) -> Seq<char>
    decreases i,
{
    if i <= 0 {
        g
    } else {
        before_column(g, n, c, i - 1) + c[i - 1] + (if i == 6 {
            n
        } else {
            g
        })
    }
}

/// The text behind the column `i`.
spec fn behind_column(g: Seq<char>, n: Seq<char>, c: Seq<Seq<char>>, i: int) -> Seq<char>
    decreases 8 - i,
{
    if i >= 8 {
        Seq::empty()
    } else {
        (if i == 5 {
            n
        } else {
            g
        }) + c[i + 1] + behind_column(g, n, c, i + 1)
    }
}

proof fn lemma_in_columns(g: Seq<char>, n: Seq<char>, c: Seq<Seq<char>>, i: int)
    requires
        0 <= i <= 8,
    ensures
        in_columns(g, n, c) == before_column(g, n, c, i) + c[i] + behind_column(g, n, c, i),
    decreases 8 - i,
{
    if i == 8 {
        reveal_with_fuel(before_column, 9);
        let r = in_columns(g, n, c);
        assert(r + Seq::<char>::empty() =~= r);
    } else {
        lemma_in_columns(g, n, c, i + 1);
        lemma_regroup(
            before_column(g, n, c, i),
            c[i],
            if i == 5 {
                n
            } else {
                g
            },
            c[i + 1],
            behind_column(g, n, c, i + 1),
        );
    }
}

/// Where the column `i` starts.
spec fn column_at(i: int) -> int {
    if i == 0 {
        2
    } else if i == 1 {
        7
    } else if i == 2 {
        29
    } else if i == 3 {
        35
    } else if i == 4 {
        40
    } else if i == 5 {
        45
    } else if i == 6 {
        51
    } else if i == 7 {
        57
    } else {
        63
    }
}

/// How wide the column `i` is.
spec fn column_width(i: int) -> int {
    if i == 1 {
        20
    } else if i == 0 || i == 3 || i == 4 {
        3
    } else if i == 5 || i == 8 {
        5
    } else {
        4
    }
}

proof fn lemma_before_column(g: Seq<char>, n: Seq<char>, c: Seq<Seq<char>>, i: int)
    requires
        g.len() == 2,
        n.len() == 1,
        forall|k: int| 0 <= k <= 8 ==> (#[trigger] c[k]).len() == column_width(k),
        0 <= i <= 8,
    ensures
        before_column(g, n, c, i).len() == column_at(i),
    decreases i,
{
    if i > 0 {
        lemma_before_column(g, n, c, i - 1);
        assert(c[i - 1].len() == column_width(i - 1));
    }
}

proof fn lemma_column(g: Seq<char>, n: Seq<char>, c: Seq<Seq<char>>, i: int)
    requires
        g.len() == 2,
        n.len() == 1,
        forall|k: int| 0 <= k <= 8 ==> (#[trigger] c[k]).len() == column_width(k),
        0 <= i <= 8,
    ensures
        in_columns(g, n, c).subrange(column_at(i), column_at(i) + column_width(i)) == c[i],
        i == 8 ==> in_columns(g, n, c).len() == 68,
{
    lemma_before_column(g, n, c, i);
    lemma_in_columns(g, n, c, i);
    lemma_piece(before_column(g, n, c, i), c[i], behind_column(g, n, c, i));
    assert(c[i].len() == column_width(i));
}

/// The columns of a task in the task list.
spec fn columns(v: TasksView, t: TaskRec) -> Seq<Seq<char>> {
    seq![
        text::right(text::decimal(t.id as nat), 3),
        text::left(v.name(t.id), 20),
        if v.user(t.id) {
            "user"@
        } else {
            "kern"@
        },
        text::right(text::decimal(t.priority as nat), 3),
        text::right(text::decimal(t.weight as nat), 3),
        text::right(text::decimal(t.stats.runs as nat), 5),
        text::right(text::decimal(t.stats.preemptions as nat), 4),
        text::right(text::decimal(t.stats.deadline_misses as nat), 4),
        text::right(text::decimal(t.stats.total_ticks as nat), 5),
    ]
}

proof fn lemma_column_widths(v: TasksView, t: TaskRec, k: int)
    requires
        t.id < 1000,
        v.name(t.id).len() <= 20,
        t.weight < 1000,
        t.stats.runs < 100_000,
        t.stats.preemptions < 10_000,
        t.stats.deadline_misses < 10_000,
        t.stats.total_ticks < 100_000,
        0 <= k <= 8,
    ensures
        columns(v, t)[k].len() == column_width(k),
{
    reveal_strlit("user");
    reveal_strlit("kern");
    text::law_decimal_width(t.id as nat);
    text::law_decimal_width(t.priority as nat);
    text::law_decimal_width(t.weight as nat);
    text::law_decimal_width(t.stats.runs as nat);
    text::law_decimal_width(t.stats.preemptions as nat);
    text::law_decimal_width(t.stats.deadline_misses as nat);
    text::law_decimal_width(t.stats.total_ticks as nat);
}

proof fn lemma_row(v: TasksView, t: TaskRec)
    ensures
        task::row(v, t) == in_columns("  "@, " "@, columns(v, t)),
{
    reveal_strlit("user");
    reveal_strlit("kern");
    let mode = if v.user(t.id) {
        "user"@
    } else {
        "kern"@
    };
    assert(text::left(mode, 4) =~= mode);
}

/// Where the columns of the task list stand, and what they show, for numbers
/// and names that fit into them.
pub proof fn law_row_columns(v: TasksView, t: TaskRec)
    requires
        t.id < 1000,
        v.name(t.id).len() <= 20,
        t.weight < 1000,
        t.stats.runs < 100_000,
        t.stats.preemptions < 10_000,
        t.stats.deadline_misses < 10_000,
        t.stats.total_ticks < 100_000,
    ensures
        ({
            let r = task::row(v, t);
            &&& r.len() == 68
            &&& r.subrange(2, 5) == text::right(text::decimal(t.id as nat), 3)
            &&& r.subrange(7, 27) == text::left(v.name(t.id), 20)
            &&& r.subrange(29, 33) == (if v.user(t.id) {
                "user"@
            } else {
                "kern"@
            })
            &&& r.subrange(35, 38) == text::right(text::decimal(t.priority as nat), 3)
            &&& r.subrange(40, 43) == text::right(text::decimal(t.weight as nat), 3)
            &&& r.subrange(45, 50) == text::right(text::decimal(t.stats.runs as nat), 5)
            &&& r.subrange(51, 55) == text::right(text::decimal(t.stats.preemptions as nat), 4)
            &&& r.subrange(57, 61) == text::right(text::decimal(t.stats.deadline_misses as nat), 4)
            &&& r.subrange(63, 68) == text::right(text::decimal(t.stats.total_ticks as nat), 5)
        }),
{
    reveal_strlit("  ");
    reveal_strlit(" ");
    lemma_row(v, t);
    let c = columns(v, t);
    assert forall|k: int| 0 <= k <= 8 implies (#[trigger] c[k]).len() == column_width(k) by {
        lemma_column_widths(v, t, k);
    }
    let g = "  "@;
    let n = " "@;
    lemma_column(g, n, c, 0);
    lemma_column(g, n, c, 1);
    lemma_column(g, n, c, 2);
    lemma_column(g, n, c, 3);
    lemma_column(g, n, c, 4);
    lemma_column(g, n, c, 5);
    lemma_column(g, n, c, 6);
    lemma_column(g, n, c, 7);
    lemma_column(g, n, c, 8);
}

/// The task list has its head line and then a line for each task that has not
/// finished, in the order of the tasks.
pub proof fn law_listing(v: TasksView, recs: Seq<TaskRec>, t: TaskRec)
    ensures
        task::rows(v, Seq::empty()).len() == 0,
        t.state == TaskState::Finished ==> task::rows(v, recs.push(t)) == task::rows(v, recs),
        t.state != TaskState::Finished ==> task::rows(v, recs.push(t)) == task::rows(v, recs).push(
            task::row(v, t),
        ),
        v.sched matches Some(s) ==> task::listing(v).skip(1) == task::rows(
            v,
            sched::records(s.tasks),
        ),
        v.sched is None ==> task::listing(v).len() == 1,
{
    assert(recs.push(t).drop_last() =~= recs);
    if let Some(s) = v.sched {
        assert(task::listing(v).skip(1) =~= task::rows(v, sched::records(s.tasks)));
    }
}

/// The idle task runs in ring 0, at the lowest priority and weight, without a
/// deadline, and is ready from the start.
pub proof fn law_idle_task(v: TasksView, top: u64)
    requires
        v.wf(),
        v.has_room(),
    ensures
        ({
            let w = task::idle_added(v, top);
            let r = w.sched->0.rec(v.next_id);
            &&& w.has(v.next_id) && w.entry(v.next_id).name == "idle"@
            &&& !w.entry(v.next_id).is_user && w.entry(v.next_id).kstack_top == top
            &&& w.sched->0.known(v.next_id)
            &&& r.priority == 1 && r.weight == 1 && r.deadline is None
            &&& r.state == TaskState::Ready
        }),
{
    let e = v.new_entry("idle"@, top, false, 0, 1, None, None);
    task::laws::law_added_task_is_ready(v, e);
    sched::effects::law_registered_record(v.sched->0, e.id, 0, 1, None);
}

/// A kernel task that asked for it gives up its turn at the next timer
/// interrupt: it stays ready and goes to the end of the queue, the clock stands,
/// and the request is served once.
pub proof fn law_yield_is_served(v: TasksView, frame: u64)
    requires
        v.wf(),
        up(v),
        !v.paused,
        v.yielding,
        v.sched->0.running is Some,
    ensures
        ({
            let a = v.sched->0.running->0;
            let w = v.interrupt(frame).0;
            let s = w.sched->0;
            &&& s.known(a) && s.rec(a).state == TaskState::Ready && s.rec(a).in_ring
            &&& s.ticks == v.sched->0.ticks
            &&& !w.yielding
        }),
{
    let s = v.sched->0;
    let a = s.running->0;
    lemma_wake_due_keeps(s, v.sleeping, 0, s.ticks);
    task::lemma_wake_due(s, v.sleeping, 0, s.ticks);
    let u = v.woken().sched->0;
    assert(s.known(a));
    assert(u.known(a));
    task::lemma_leave_wake(u, a);
    let l = u.leave(a, TaskState::Blocked).0;
    law_leave_effect(u, a, TaskState::Blocked, a);
    law_wake_effect(l, a, a);
}

/// What is known of a task is what its entry says: its name, the top of its
/// kernel stack, its ring and its frame. Of a task without an entry nothing is.
pub proof fn law_lookups(v: TasksView, id: TaskId, i: int)
    requires
        v.wf(),
    ensures
        0 <= i < v.entries.len() && v.entries[i].id == id ==> {
            let e = v.entries[i];
            &&& v.has(id) && v.entry(id) == e
            &&& v.name(id) == e.name && v.top(id) == e.kstack_top
            &&& v.user(id) == e.is_user && v.area(id) == e.save_area
        },
        (forall|k: int| 0 <= k < v.entries.len() ==> (#[trigger] v.entries[k]).id != id) ==> {
            &&& !v.has(id)
            &&& v.name(id) == "?"@ && v.top(id) == 0 && !v.user(id) && v.area(id) == 0
        },
        v.sched matches Some(s) ==> {
            &&& v.running() == s.running && v.now() == s.ticks
            &&& v.has_run(id) <==> s.known(id) && s.rec(id).stats.runs > 0
        },
        v.sched is None ==> v.running() is None && v.now() == 0 && !v.has_run(id),
{
    if 0 <= i < v.entries.len() && v.entries[i].id == id {
        assert(task::entry_is(v.entries, i, id));
        task::lemma_place(v.entries, i, id);
    }
    if v.has(id) {
        let p = task::place(v.entries, id);
        assert(task::entry_is(v.entries, p, id));
        assert(v.entries[p].id == id);
    }
}

/// The runner can give up the CPU exactly if there is one and the scheduler has
/// another task to run; a task can be added exactly if a slot of the scheduler
/// is free and an id is left.
pub proof fn law_conditions(v: TasksView)
    requires
        v.wf(),
    ensures
        v.can_park() <==> v.sched is Some && v.sched->0.running is Some && v.sched->0.leave(
            v.sched->0.running->0,
            TaskState::Blocked,
        ).1 is Some,
        v.has_room() <==> v.sched is Some && v.next_id < u64::MAX && exists|i: int|
            0 <= i < 32 && (#[trigger] v.sched->0.tasks[i]) is None,
{
}

} // verus!
