use kairos::sched::{
    Deadline, PolicyKind, SchedAction, SchedError, Scheduler, TaskState, MAX_TASKS,
};

fn sched_rr() -> Scheduler {
    Scheduler::new(PolicyKind::RoundRobin, 5)
}

#[test]
fn round_robin_is_fair() {
    let mut s = sched_rr();
    s.register(1, 1, 1, None).unwrap();
    s.register(2, 1, 1, None).unwrap();
    s.register(3, 1, 1, None).unwrap();
    assert_eq!(s.ready_count(), 3);

    // First dispatch is task 1 (FIFO order of the ready queue).
    assert_eq!(s.on_tick(), SchedAction::Preempt(Some(1)));

    // Run 90 ticks; each task should have run ~30 ticks.
    for _ in 0..90 {
        s.on_tick();
    }
    let t1 = s.task(1).unwrap().stats.total_ticks;
    let t2 = s.task(2).unwrap().stats.total_ticks;
    let t3 = s.task(3).unwrap().stats.total_ticks;
    // Fairness: no task gets more than quantum+1 ticks of advantage.
    let max = t1.max(t2).max(t3);
    let min = t1.min(t2).min(t3);
    assert!(
        max - min <= 5,
        "unfair round-robin: {t1}/{t2}/{t3}"
    );
}

#[test]
fn blocking_yields_cpu() {
    let mut s = sched_rr();
    s.register(1, 1, 1, None).unwrap();
    s.register(2, 1, 1, None).unwrap();
    assert_eq!(s.on_tick(), SchedAction::Preempt(Some(1)));
    // Task 1 blocks immediately → task 2 runs even though 1 did not
    // consume its quantum.
    let next = s.block(1).unwrap();
    assert_eq!(next, 2);
    assert_eq!(s.task(1).unwrap().state, TaskState::Blocked);
    // Wake 1: it is requeued.
    s.wake(1);
    assert_eq!(s.task(1).unwrap().state, TaskState::Ready);
}

#[test]
fn finish_runs_next() {
    let mut s = sched_rr();
    s.register(1, 1, 1, None).unwrap();
    s.register(2, 1, 1, None).unwrap();
    s.on_tick(); // run 1
    assert_eq!(s.finish(1), Some(2));
    assert_eq!(s.task(1).unwrap().state, TaskState::Finished);
    assert_eq!(s.running(), Some(2));
}

#[test]
fn idle_when_nobody_ready() {
    let mut s = sched_rr();
    assert_eq!(s.on_tick(), SchedAction::Preempt(None));
    s.register(1, 1, 1, None).unwrap();
    s.on_tick();
    assert_eq!(s.block(1), None); // nothing else to run
}

#[test]
fn weighted_rr_respects_weights() {
    let mut s = Scheduler::new(PolicyKind::WeightedRoundRobin, 1);
    // Task A weight 3, task B weight 1 → A should get ~3x the ticks.
    s.register(1, 1, 3, None).unwrap();
    s.register(2, 1, 1, None).unwrap();
    s.on_tick(); // first dispatch
    let mut a = 0u64;
    let mut b = 0u64;
    for _ in 0..200 {
        let running = s.running();
        s.on_tick();
        match running {
            Some(1) => a += 1,
            Some(2) => b += 1,
            _ => {}
        }
    }
    assert!(a > b * 2, "weighted share violated: a={a} b={b}");
}

#[test]
fn edf_runs_earliest_deadline_first() {
    let mut s = Scheduler::new(PolicyKind::EarliestDeadlineFirst, 1);
    // Task low has period 100, budget 10 → deadline at tick 100.
    s.register(1, 1, 1, Some(Deadline { period: 100, budget: 10 }))
        .unwrap();
    // Task hi has period 50 → much earlier deadline.
    s.register(2, 1, 1, Some(Deadline { period: 50, budget: 10 }))
        .unwrap();
    // First dispatch is the earliest deadline → task 2.
    assert_eq!(s.on_tick(), SchedAction::Preempt(Some(2)));
}

#[test]
fn edf_counts_misses_under_overload() {
    let mut s = Scheduler::new(PolicyKind::EarliestDeadlineFirst, 1);
    // One task with tiny budget → it must miss its deadline often.
    s.register(1, 1, 1, Some(Deadline { period: 20, budget: 2 }))
        .unwrap();
    let mut ticks = 0u64;
    let mut running = None;
    while ticks < 120 {
        s.on_tick();
        if s.running() != running {
            running = s.running();
        }
        ticks = s.ticks();
    }
    assert!(s.task(1).unwrap().stats.deadline_misses > 0);
    // Budget exhaustion must have forced preemptions.
    assert!(s.task(1).unwrap().stats.budget_exhaustions > 0);
}

#[test]
fn non_edf_tasks_run_only_when_idle() {
    let mut s = Scheduler::new(PolicyKind::EarliestDeadlineFirst, 1);
    s.register(1, 1, 1, None).unwrap(); // best-effort
    s.register(2, 1, 1, Some(Deadline { period: 30, budget: 5 })).unwrap();
    // With both ready at the dispatch point the EDF task wins.
    assert_eq!(s.on_tick(), SchedAction::Preempt(Some(2)));
    // When the EDF task blocks, best-effort takes over.
    let next = s.block(2);
    assert_eq!(next, Some(1));
    // The woken EDF task preempts at the next scheduler tick.
    s.wake(2);
    assert_eq!(s.on_tick(), SchedAction::Preempt(Some(2)));
}

#[test]
fn duplicate_register_rejected() {
    let mut s = sched_rr();
    s.register(1, 1, 1, None).unwrap();
    assert_eq!(s.register(1, 1, 1, None), Err(SchedError::AlreadyRegistered(1)));
}

#[test]
fn table_cap_respected() {
    let mut s = sched_rr();
    for i in 0..MAX_TASKS as u64 {
        s.register(i, 1, 1, None).unwrap();
    }
    assert_eq!(
        s.register(MAX_TASKS as u64, 1, 1, None),
        Err(SchedError::TableFull)
    );
}

#[test]
fn stats_are_monotonic() {
    let mut s = sched_rr();
    s.register(1, 1, 1, None).unwrap();
    s.register(2, 1, 1, None).unwrap();
    s.on_tick();
    let r = s.task(1).unwrap();
    assert_eq!(r.state, TaskState::Running);
    assert_eq!(r.stats.runs, 1);
}

/// Deterministic run: the same exact stream is executed every time.
#[test]
fn deterministic_sequence() {
    let mut s = Scheduler::new(PolicyKind::RoundRobin, 3);
    assert!(s.register(1, 1, 1, None).is_ok());
    assert!(s.register(2, 2, 1, None).is_ok());
    assert!(s.register(3, 3, 1, None).is_ok());

    // With nothing running, the first tick dispatches the ring head.
    let _ = s.on_tick();
    assert_eq!(s.running(), Some(1));

    // Ticks 2..4: quantum is 3, so the 4th tick rotates to the next task.
    let _ = s.on_tick();
    let _ = s.on_tick();
    let action = s.on_tick();
    assert!(matches!(
        action,
        SchedAction::Preempt(Some(2))
    ));
    assert_eq!(s.running(), Some(2));

    // Blocking the runner (2) hands over to the next ready task (3).
    assert_eq!(s.block(2), Some(3));
    assert_eq!(s.running(), Some(3));

    // Cleaning up is the inverse of registering.
    assert!(s.unregister(2).is_ok());
    assert!(s.unregister(1).is_ok());
    assert!(s.unregister(3).is_ok());
    assert_eq!(s.running(), None);
}

// Behaviour on concrete schedules.

#[test]
fn quantum_runs_out_on_the_exact_tick() {
    let mut s = Scheduler::new(PolicyKind::RoundRobin, 3);
    s.register(1, 1, 1, None).unwrap();
    s.register(2, 1, 1, None).unwrap();
    assert_eq!(s.on_tick(), SchedAction::Preempt(Some(1)));
    assert_eq!(s.on_tick(), SchedAction::Continue);
    assert_eq!(s.on_tick(), SchedAction::Continue);
    assert_eq!(s.on_tick(), SchedAction::Preempt(Some(2)));
    assert_eq!(s.task(1).unwrap().stats.preemptions, 1);
    assert_eq!(s.task(1).unwrap().state, TaskState::Ready);
    assert_eq!(s.ticks(), 4);
}

#[test]
fn rotation_visits_everyone_in_order() {
    let mut s = Scheduler::new(PolicyKind::RoundRobin, 1);
    for id in 1..=4u64 {
        s.register(id, 1, 1, None).unwrap();
    }
    let mut seen = Vec::new();
    for _ in 0..8 {
        s.on_tick();
        seen.push(s.running().unwrap());
    }
    assert_eq!(seen, vec![1, 2, 3, 4, 1, 2, 3, 4]);
}

#[test]
fn weights_are_ticks_per_turn() {
    let mut s = Scheduler::new(PolicyKind::WeightedRoundRobin, 2);
    s.register(1, 1, 3, None).unwrap();
    s.register(2, 1, 1, None).unwrap();
    s.on_tick();
    let mut turns = Vec::new();
    let mut run = 1u64;
    let mut who = s.running();
    for _ in 0..40 {
        s.on_tick();
        if s.running() == who {
            run += 1;
        } else {
            turns.push((who, run));
            who = s.running();
            run = 1;
        }
    }
    assert!(turns.len() >= 4);
    for (id, ticks) in turns {
        assert!((id, ticks) == (Some(1), 3) || (id, ticks) == (Some(2), 1));
    }
}

#[test]
fn waking_twice_is_waking_once() {
    let mut a = sched_rr();
    a.register(1, 1, 1, None).unwrap();
    a.register(2, 1, 1, None).unwrap();
    a.on_tick();
    a.block(1);
    let mut b = a.clone();
    a.wake(1);
    b.wake(1);
    b.wake(1);
    assert_eq!(a.ready_count(), b.ready_count());
    assert_eq!(a.task(1).unwrap().state, b.task(1).unwrap().state);
    assert_eq!(a.task(1).unwrap().in_ring, b.task(1).unwrap().in_ring);
    // A task that runs, and one that is unknown, is not woken.
    a.wake(2);
    a.wake(77);
    assert_eq!(a.running(), Some(2));
    assert_eq!(a.ready_count(), b.ready_count());
}

#[test]
fn unregister_undoes_register_and_checks() {
    let mut s = sched_rr();
    s.register(1, 1, 1, None).unwrap();
    assert_eq!(s.task_count(), 1);
    s.register(2, 1, 1, None).unwrap();
    assert_eq!(s.task_count(), 2);
    assert!(s.unregister(2).is_ok());
    assert_eq!(s.task_count(), 1);
    assert!(s.task(2).is_none());
    assert_eq!(s.unregister(2), Err(SchedError::UnknownTask(2)));
    assert_eq!(s.iter().len(), 1);
}

#[test]
fn finished_tasks_stay_finished() {
    let mut s = sched_rr();
    s.register(1, 1, 1, None).unwrap();
    s.register(2, 1, 1, None).unwrap();
    s.on_tick();
    s.finish(1);
    s.wake(1);
    for _ in 0..20 {
        s.on_tick();
        assert_eq!(s.running(), Some(2));
    }
    assert_eq!(s.task(1).unwrap().state, TaskState::Finished);
}

#[test]
fn nobody_is_lost_over_a_long_run() {
    let kinds = [
        PolicyKind::RoundRobin,
        PolicyKind::WeightedRoundRobin,
        PolicyKind::EarliestDeadlineFirst,
    ];
    for kind in kinds {
        let mut s = Scheduler::new(kind, 2);
        for id in 1..=32u64 {
            s.register(id, 1, 1, None).unwrap();
        }
        for step in 0..2000u64 {
            s.on_tick();
            let id = step * 7 % 32 + 1;
            if step % 3 == 0 {
                s.block(id);
            } else {
                s.wake(id);
            }
            if let Some(r) = s.running() {
                assert_eq!(s.task(r).unwrap().state, TaskState::Running);
            }
        }
        for id in 1..=32u64 {
            s.wake(id);
        }
        let before: Vec<u64> = (1..=32u64).map(|id| s.task(id).unwrap().stats.runs).collect();
        for _ in 0..200 {
            s.on_tick();
        }
        if kind != PolicyKind::EarliestDeadlineFirst {
            for id in 1..=32u64 {
                assert!(s.task(id).unwrap().stats.runs > before[id as usize - 1]);
            }
        }
    }
}

#[test]
fn budget_is_refilled_each_period() {
    let mut s = Scheduler::new(PolicyKind::EarliestDeadlineFirst, 1);
    s.register(1, 1, 1, Some(Deadline { period: 20, budget: 2 })).unwrap();
    let t = s.task(1).unwrap();
    assert_eq!(t.next_deadline_ticks, 20);
    assert_eq!(t.budget_remaining_ticks, 2);
    while s.ticks() < 19 {
        s.on_tick();
    }
    assert_eq!(s.task(1).unwrap().stats.deadline_misses, 0);
    while s.ticks() < 45 {
        s.on_tick();
    }
    assert!(s.task(1).unwrap().next_deadline_ticks > 40);
}

#[test]
fn scheduler_errors_and_policies_have_names() {
    assert_eq!(SchedError::TableFull.to_string(), "task table full");
    assert_eq!(SchedError::UnknownTask(12).to_string(), "unknown task 12");
    assert_eq!(SchedError::AlreadyRegistered(3).to_string(), "task 3 already registered");
    assert_eq!(PolicyKind::RoundRobin.name(), "round-robin");
    assert_eq!(PolicyKind::WeightedRoundRobin.name(), "weighted-round-robin");
    assert_eq!(PolicyKind::EarliestDeadlineFirst.name(), "edf");
}

fn ticks(s: &Scheduler, id: u64) -> u64 {
    s.task(id).unwrap().stats.total_ticks
}

#[test]
fn a_round_gives_everybody_one_quantum() {
    let mut s = sched_rr();
    for id in 1..=3 {
        s.register(id, 1, 1, None).unwrap();
    }
    s.on_tick();
    for round in 1..=4 {
        for _ in 0..15 {
            s.on_tick();
        }
        assert_eq!(s.running(), Some(1));
        for id in 1..=3 {
            assert_eq!(ticks(&s, id), 5 * round);
        }
    }
    // In the middle of a round the difference is at most a quantum.
    for _ in 0..7 {
        s.on_tick();
    }
    assert_eq!((ticks(&s, 1), ticks(&s, 2), ticks(&s, 3)), (25, 22, 20));
}

#[test]
fn a_weighted_round_gives_everybody_its_weight() {
    let mut s = Scheduler::new(PolicyKind::WeightedRoundRobin, 1);
    s.register(1, 1, 3, None).unwrap();
    s.register(2, 1, 1, None).unwrap();
    s.register(3, 1, 2, None).unwrap();
    s.on_tick();
    for _ in 0..60 {
        s.on_tick();
    }
    assert_eq!(s.running(), Some(1));
    assert_eq!((ticks(&s, 1), ticks(&s, 2), ticks(&s, 3)), (30, 10, 20));
}

#[test]
fn a_full_table_runs_every_task() {
    for kind in [PolicyKind::RoundRobin, PolicyKind::WeightedRoundRobin] {
        let mut s = Scheduler::new(kind, 5);
        for id in 0..32u64 {
            assert_eq!(s.register(id, 1, 1, None), Ok(()));
        }
        assert_eq!(s.register(32, 1, 1, None), Err(SchedError::TableFull));
        assert_eq!(s.ready_count(), 32);
        assert_eq!(s.on_tick(), SchedAction::Preempt(Some(0)));
        assert_eq!(s.ready_count(), 31);
        for _ in 0..32 * 5 {
            s.on_tick();
        }
        for id in 0..32u64 {
            assert!(s.task(id).unwrap().stats.runs >= 1, "task {id} never ran");
            assert!(ticks(&s, id) >= 5);
        }
    }
}

#[test]
fn entries_left_behind_cost_nobody_a_turn() {
    let mut s = sched_rr();
    s.register(100, 1, 1, None).unwrap();
    // Far more entries are left behind than the ring can hold.
    for id in 0..200u64 {
        s.register(id % 7, 1, 1, None).unwrap();
        s.unregister(id % 7).unwrap();
    }
    for id in 0..31u64 {
        s.register(id, 1, 1, None).unwrap();
    }
    for _ in 0..32 * 5 * 3 {
        s.on_tick();
    }
    for id in (0..31u64).chain([100]) {
        assert!(s.task(id).unwrap().stats.runs >= 1, "task {id} never ran");
    }
}

#[test]
fn the_latest_deadline_still_beats_none() {
    let mut s = Scheduler::new(PolicyKind::EarliestDeadlineFirst, 1);
    s.register(1, 9, 1, None).unwrap();
    s.register(2, 1, 1, Some(Deadline { period: u64::MAX, budget: 3 })).unwrap();
    assert_eq!(s.on_tick(), SchedAction::Preempt(Some(2)));
    assert_eq!(s.block(2), Some(1));
}

#[test]
fn an_idle_task_can_always_run() {
    let kinds = [
        PolicyKind::RoundRobin,
        PolicyKind::WeightedRoundRobin,
        PolicyKind::EarliestDeadlineFirst,
    ];
    for kind in kinds {
        let mut s = Scheduler::new(kind, 2);
        for id in 1..=8u64 {
            s.register(id, 1, 1, None).unwrap();
        }
        for step in 0..500u64 {
            s.on_tick();
            let id = step * 5 % 7 + 2;
            if step % 3 == 0 {
                s.wake(id);
            } else {
                // Task 1 never blocks, so there is always a next task.
                let leaves = s.running() == Some(id);
                assert_eq!(s.block(id).is_some(), leaves);
            }
            assert!(matches!(
                s.task(1).unwrap().state,
                TaskState::Ready | TaskState::Running
            ));
            assert!(s.running().is_some());
        }
    }
}
