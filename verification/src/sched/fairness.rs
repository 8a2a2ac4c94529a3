//! Round-robin is fair, weighted or not: over a stretch of time in which no
//! task blocks, finishes or joins, a round gives everybody exactly the share
//! that is its own, and without weights no two tasks ever differ by more than
//! one quantum.

use vstd::prelude::*;
use crate::sched;
use crate::sched::laws::live_entry;
use crate::sched::{PolicyKind, SchedView, TaskId, TaskRec, TaskState, RING_CAPACITY};

verus! {

/// The ticks that a task has in one turn.
pub open spec fn share(v: SchedView, id: TaskId) -> int {
    if v.kind == PolicyKind::WeightedRoundRobin {
        v.rec(id).weight as int
    } else {
        v.quantum as int
    }
}

/// A scheduler at work under one of the round-robin policies: one task runs,
/// the others wait for their turn, each of them once, and there is room to
/// queue the runner.
pub open spec fn steady(v: SchedView) -> bool {
    &&& v.wf()
    &&& !v.edf()
    &&& v.running matches Some(x) && v.rec(x).state == TaskState::Running && !v.rec(x).in_ring
        && !v.ready.contains(x) && v.running_ticks < share(v, x)
    &&& v.ready.no_duplicates()
    &&& v.ready.len() < RING_CAPACITY
    &&& forall|k: int| 0 <= k < v.ready.len() ==> #[trigger] live_entry(v, k)
    &&& forall|k: int| 0 <= k < v.ready.len() ==> share(v, #[trigger] v.ready[k]) > 0
}

/// The runner, and behind it those who wait.
pub open spec fn line(v: SchedView) -> Seq<TaskId> {
    seq![v.running->0] + v.ready
}

/// The ticks of execution of a task.
pub open spec fn total(v: SchedView, id: TaskId) -> int {
    v.rec(id).stats.total_ticks as int
}

/// The state after `n` timer ticks and nothing else.
pub open spec fn after(v: SchedView, n: nat) -> SchedView
    decreases n,
{
    if n == 0 {
        v
    } else {
        after(v, (n - 1) as nat).tick().0
    }
}

/// The line `q` after `c` of its tasks went from the front to the back.
pub open spec fn turned(q: Seq<TaskId>, c: int) -> Seq<TaskId> {
    q.skip(c) + q.take(c)
}

/// The shares of the first `c` tasks of `q` together.
pub open spec fn shares(v: SchedView, q: Seq<TaskId>, c: int) -> int
    decreases c,
{
    if c <= 0 {
        0
    } else {
        shares(v, q, c - 1) + share(v, q[c - 1])
    }
}

/// The ticks of a round.
pub open spec fn round(v: SchedView) -> int {
    shares(v, line(v), line(v).len() as int)
}

/// Refilling credits changes nothing else.
proof fn lemma_refill(v: SchedView)
    requires
        v.wf(),
    ensures
        ({
            let w = SchedView {
                tasks: sched::map_recs(v.tasks, |r: TaskRec| sched::refilled(r)),
                ..v
            };
            &&& forall|x: TaskId| #[trigger] w.known(x) <==> v.known(x)
            &&& forall|x: TaskId|
                v.known(x) ==> #[trigger] w.rec(x) == sched::refilled(v.rec(x))
        }),
{
    sched::lemma_map_recs(v.tasks, |r: TaskRec| sched::refilled(r));
}

/// One tick: the runner is charged, and at the end of its turn it goes to the
/// back of the line.
proof fn lemma_step(v: SchedView)
    requires
        steady(v),
        total(v, v.running->0) < u64::MAX,
    ensures
        ({
            let w = v.tick().0;
            &&& steady(w)
            &&& w.kind == v.kind
            &&& w.quantum == v.quantum
            &&& if v.running_ticks + 1 < share(v, v.running->0) {
                line(w) == line(v) && w.running_ticks == v.running_ticks + 1
            } else {
                line(w) == turned(line(v), 1) && w.running_ticks == 0
            }
            &&& forall|y: TaskId| #[trigger] w.known(y) <==> v.known(y)
            &&& forall|y: TaskId| #[trigger]
                v.known(y) ==> share(w, y) == share(v, y) && total(w, y) == total(v, y)
                    + if v.running == Some(y) {
                    1int
                } else {
                    0
                }
        }),
{
    let x = v.running->0;
    let a = v.advance();
    v.lemma_advance();
    let c = sched::charged(a.rec(x), false);
    sched::lemma_known(v.tasks, x);
    sched::lemma_with_rec(a.tasks, x, c);
    let u = a.charge(x);
    a.lemma_charge(x);
    let w = v.tick().0;
    v.lemma_tick();
    if v.running_ticks + 1 < share(v, x) {
        assert(w == u);
        assert forall|k: int| 0 <= k < w.ready.len() implies #[trigger] live_entry(w, k) by {
            assert(live_entry(v, k));
            assert(v.ready.contains(v.ready[k]));
        }
        assert forall|k: int| 0 <= k < w.ready.len() implies share(w, #[trigger] w.ready[k])
            > 0 by {
            assert(live_entry(v, k));
        }
        assert(line(w) =~= line(v));
        assert forall|y: TaskId| #[trigger] v.known(y) implies share(w, y) == share(v, y) && total(
            w,
            y,
        ) == total(v, y) + if v.running == Some(y) {
            1int
        } else {
            0
        } by {
            assert(a.known(y));
            assert(u.known(y));
        }
    } else {
        let r = sched::turned_out(u.rec(x), false);
        sched::lemma_known(u.tasks, x);
        sched::lemma_with_rec(u.tasks, x, r);
        u.lemma_turn_out(x);
        let o = SchedView { tasks: sched::with_rec(u.tasks, x, r), running_ticks: 0, ..u };
        let e = TaskRec { state: TaskState::Ready, in_ring: true, ..o.rec(x) };
        sched::lemma_known(o.tasks, x);
        sched::lemma_with_rec(o.tasks, x, e);
        let i = o.enqueue(x);
        o.lemma_enqueue(x);
        assert(i.ready == v.ready.push(x));
        lemma_refill(i);
        let t = u.turn_out(x);
        assert(t.ready == v.ready.push(x));
        t.lemma_dequeue();
        let head = t.ready[0];
        let d = t.dequeue();
        assert(d.known(head) && d.rec(head).state == TaskState::Ready) by {
            assert(i.known(head) && i.rec(head).state == TaskState::Ready) by {
                if v.ready.len() > 0 {
                    assert(live_entry(v, 0));
                    assert(v.ready.contains(v.ready[0]));
                }
            }
            assert(t.known(head) && t.rec(head).state == TaskState::Ready);
        }
        assert(w == d.run(head));
        d.lemma_run(head);
        assert(line(w) =~= turned(line(v), 1)) by {
            assert(w.ready == v.ready.push(x).drop_first());
        }
        assert forall|y: TaskId| #[trigger] v.known(y) implies share(w, y) == share(v, y) && total(
            w,
            y,
        ) == total(v, y) + if v.running == Some(y) {
            1int
        } else {
            0
        } by {
            assert(a.known(y));
            assert(u.known(y));
            assert(o.known(y));
            assert(i.known(y));
            assert(t.known(y));
            assert(d.known(y));
        }
        let q = v.ready.push(x);
        assert forall|m: int, n: int| 0 <= m < q.len() && 0 <= n < q.len() && m != n implies q[m]
            != q[n] by {
            if m < v.ready.len() {
                assert(v.ready.contains(v.ready[m]));
            }
            if n < v.ready.len() {
                assert(v.ready.contains(v.ready[n]));
            }
        }
        assert forall|k: int| 0 <= k < w.ready.len() implies share(w, #[trigger] w.ready[k])
            > 0 by {
            assert(w.ready[k] == q[k + 1]);
            if k + 1 < v.ready.len() {
                assert(live_entry(v, k + 1));
            }
            assert(v.known(w.ready[k]));
        }
        assert forall|k: int| 0 <= k < w.ready.len() implies #[trigger] live_entry(w, k) by {
            let y = w.ready[k];
            assert(y == q[k + 1]);
            assert(q[k + 1] != q[0]);
            if k + 1 < v.ready.len() {
                assert(live_entry(v, k + 1));
                assert(v.ready.contains(v.ready[k + 1]));
            }
            assert(v.known(y));
            assert(i.known(y) && i.rec(y).state == TaskState::Ready);
            assert(t.known(y) && t.rec(y).state == TaskState::Ready);
            assert(d.known(y) && d.rec(y).state == TaskState::Ready);
        }
        if w.ready.contains(head) {
            let k = w.ready.index_of(head);
            assert(q[k + 1] == q[0]);
        }
        assert(v.known(head));
        assert(share(w, head) > 0) by {
            if v.ready.len() > 0 {
                assert(live_entry(v, 0));
            }
        }
    }
}

/// What holds of the tasks in the line of a steady scheduler: they are
/// registered, different, and have a share.
proof fn lemma_line(v: SchedView)
    requires
        steady(v),
    ensures
        forall|i: int|
            0 <= i < line(v).len() ==> v.known(#[trigger] line(v)[i]) && share(v, line(v)[i]) > 0,
        forall|i: int, j: int|
            0 <= i < line(v).len() && 0 <= j < line(v).len() && i != j ==> line(v)[i] != line(v)[j],
{
    let q = line(v);
    assert forall|i: int| 0 <= i < q.len() implies v.known(#[trigger] q[i]) && share(v, q[i])
        > 0 by {
        if i > 0 {
            assert(live_entry(v, i - 1));
        }
    }
    assert forall|i: int, j: int| 0 <= i < q.len() && 0 <= j < q.len() && i != j implies q[i]
        != q[j] by {
        if i > 0 {
            assert(v.ready.contains(v.ready[i - 1]));
        }
        if j > 0 {
            assert(v.ready.contains(v.ready[j - 1]));
        }
    }
}

proof fn lemma_shares_grow(v: SchedView, q: Seq<TaskId>, a: int, b: int)
    requires
        0 <= a <= b <= q.len(),
        forall|i: int| 0 <= i < q.len() ==> share(v, #[trigger] q[i]) > 0,
    ensures
        shares(v, q, a) + (b - a) <= shares(v, q, b),
        shares(v, q, a) >= a,
    decreases b,
{
    if a < b {
        lemma_shares_grow(v, q, a, b - 1);
        assert(share(v, q[b - 1]) > 0);
    } else if a > 0 {
        lemma_shares_grow(v, q, a - 1, a - 1);
        assert(share(v, q[a - 1]) > 0);
    }
}

/// How the line stands after `n` ticks from the start of a turn: `r` rounds
/// are complete, and in the present one `c` tasks had their turn.
proof fn lemma_after(v: SchedView, n: nat) -> (rc: (nat, nat))
    requires
        steady(v),
        v.running_ticks == 0,
        forall|y: TaskId| #[trigger] line(v).contains(y) ==> total(v, y) + n <= u64::MAX,
    ensures
        ({
            let (r, c) = rc;
            let w = after(v, n);
            let q = line(v);
            &&& steady(w)
            &&& c < q.len()
            &&& line(w) == turned(q, c as int)
            &&& w.running_ticks < share(v, q[c as int])
            &&& n == r * round(v) + shares(v, q, c as int) + w.running_ticks
            &&& forall|y: TaskId| #[trigger] w.known(y) <==> v.known(y)
            &&& forall|y: TaskId| #[trigger] v.known(y) ==> share(w, y) == share(v, y)
            &&& forall|i: int|
                0 <= i < q.len() ==> total(w, #[trigger] q[i]) == total(v, q[i]) + r * share(
                    v,
                    q[i],
                ) + if i < c {
                    share(v, q[i])
                } else if i == c {
                    w.running_ticks as int
                } else {
                    0
                }
            &&& forall|i: int| 0 <= i < q.len() ==> total(w, #[trigger] q[i]) <= total(v, q[i]) + n
        }),
    decreases n,
{
    let q = line(v);
    let len = q.len() as int;
    lemma_line(v);
    if n == 0 {
        assert(turned(q, 0) =~= q);
        assert forall|i: int| 0 <= i < len implies 0 * share(v, #[trigger] q[i]) == 0 by {}
        assert(0 * round(v) == 0);
        (0, 0)
    } else {
        let m = (n - 1) as nat;
        let (r, c) = lemma_after(v, m);
        let u = after(v, m);
        let x = u.running->0;
        assert(line(u)[0] == x);
        assert(x == q[c as int]);
        assert(q.contains(q[c as int]));
        assert(v.known(x) && u.known(x));
        lemma_step(u);
        let w = u.tick().0;
        assert forall|y: TaskId| #[trigger] v.known(y) implies share(w, y) == share(v, y) by {
            assert(u.known(y));
        }
        assert forall|i: int| 0 <= i < len implies total(w, #[trigger] q[i]) == total(u, q[i])
            + if i == c {
            1int
        } else {
            0
        } by {
            assert(v.known(q[i]));
            assert(u.known(q[i]));
        }
        if u.running_ticks + 1 < share(v, x) {
            (r, c)
        } else {
            assert(turned(turned(q, c as int), 1) =~= turned(q, (c + 1) as int));
            assert(shares(v, q, (c + 1) as int) == shares(v, q, c as int) + share(v, x));
            if c + 1 < len {
                (r, c + 1)
            } else {
                assert(turned(q, len) =~= q);
                assert(turned(q, 0) =~= q);
                let all = round(v);
                assert((r + 1) * all == r * all + all) by (nonlinear_arith);
                assert forall|i: int| 0 <= i < len implies (r + 1) * share(v, #[trigger] q[i]) == r
                    * share(v, q[i]) + share(v, q[i]) by {
                    let s = share(v, q[i]);
                    assert((r + 1) * s == r * s + s) by (nonlinear_arith);
                }
                (r + 1, 0)
            }
        }
    }
}

/// Under plain round-robin no task gets more than one quantum of advantage
/// over another, over any number of ticks.
pub proof fn law_round_robin_is_fair(v: SchedView, n: nat, y: TaskId, z: TaskId)
    requires
        steady(v),
        v.kind == PolicyKind::RoundRobin,
        v.running_ticks == 0,
        line(v).contains(y),
        line(v).contains(z),
        forall|x: TaskId| #[trigger] line(v).contains(x) ==> total(v, x) + n <= u64::MAX,
    ensures
        (total(after(v, n), y) - total(v, y)) - (total(after(v, n), z) - total(v, z)) <= v.quantum,
{
    let (r, c) = lemma_after(v, n);
    let q = line(v);
    let i = q.index_of(y);
    let j = q.index_of(z);
    assert(q[i] == y && q[j] == z);
}

/// A round gives every task in the line exactly its share, the quantum or its
/// weight, and then the line stands as before.
pub proof fn law_a_round_serves_everybody(v: SchedView, y: TaskId)
    requires
        steady(v),
        v.running_ticks == 0,
        line(v).contains(y),
        forall|x: TaskId| #[trigger] line(v).contains(x) ==> total(v, x) + round(v) <= u64::MAX,
    ensures
        ({
            let w = after(v, round(v) as nat);
            &&& total(w, y) == total(v, y) + share(v, y)
            &&& line(w) == line(v)
            &&& w.running_ticks == 0
            &&& steady(w)
        }),
{
    let q = line(v);
    let len = q.len() as int;
    let all = round(v);
    lemma_line(v);
    lemma_shares_grow(v, q, 0, len);
    let (r, c) = lemma_after(v, all as nat);
    let w = after(v, all as nat);
    lemma_shares_grow(v, q, (c + 1) as int, len);
    lemma_shares_grow(v, q, c as int, len);
    let rest = shares(v, q, c as int) + w.running_ticks;
    assert(rest < all);
    assert(r == 1 && rest == 0) by (nonlinear_arith)
        requires
            all == r * all + rest,
            0 <= rest < all,
            r >= 0,
    ;
    assert(turned(q, 0) =~= q);
    let i = q.index_of(y);
    assert(q[i] == y);
    let s = share(v, y);
    assert(r * s == s) by (nonlinear_arith)
        requires
            r == 1,
    ;
}

/// A scheduler that has lost nobody is steady while every entry of its queue is
/// that of another ready task, its runner is within its turn, and every weight
/// is positive. So it is with a full table too.
pub proof fn law_steady_when_nobody_is_lost(v: SchedView)
    requires
        sched::laws::nobody_lost(v),
        !v.edf(),
        v.running matches Some(x) && v.running_ticks < share(v, x),
        v.ready.no_duplicates(),
        forall|k: int| 0 <= k < v.ready.len() ==> #[trigger] live_entry(v, k),
        forall|k: int| 0 <= k < v.ready.len() ==> share(v, #[trigger] v.ready[k]) > 0,
    ensures
        steady(v),
{
    let x = v.running->0;
    assert(!v.ready.contains(x)) by {
        if v.ready.contains(x) {
            assert(live_entry(v, v.ready.index_of(x)));
        }
    }
    let q = line(v);
    assert forall|i: int| 0 <= i < q.len() implies sched::known(v.tasks, #[trigger] q[i]) by {
        if i > 0 {
            assert(live_entry(v, i - 1));
        }
    }
    assert forall|i: int, j: int| 0 <= i < q.len() && 0 <= j < q.len() && i != j implies q[i]
        != q[j] by {
        if i > 0 {
            assert(v.ready.contains(v.ready[i - 1]));
        }
        if j > 0 {
            assert(v.ready.contains(v.ready[j - 1]));
        }
    }
    sched::lemma_distinct_known_bound(v.tasks, q);
    sched::lemma_occupied_bound(v.tasks);
}

} // verus!
