use kairos::caps::{CapRights, Capability, ObjectKind};
use kairos::kernel::interrupts::FRAME_SIZE;
use kairos::kernel::serial::Console;
use kairos::kernel::syscall::Out;
use kairos::kernel::task::{Loaded, ParkKind, TaskTable};
use kairos::kernel::{serial, syscall, task};

const TOP: u64 = 0x10_0000;

/// A table with an idle task, a shell and one user task; the first is running.
fn booted() -> TaskTable {
    let mut t = TaskTable::new();
    task::init(&mut t);
    task::set_timer_paused(&mut t, true);
    task::boot_tasks(&mut t, 0x1000, TOP);
    task::spawn_kernel(&mut t, "shell", 5, 2, 0x2000, 7, 2 * TOP);
    let image = Loaded { name: "hello", entry: 0x3000, stack_top: 0x4000 };
    task::spawn_user_arg(&mut t, Ok(image), 4, 1, 9, 3 * TOP).unwrap();
    task::bootstrap_first_task(&mut t).unwrap();
    task::set_timer_paused(&mut t, false);
    t
}

#[test]
fn spawned_frames_hold_the_entry() {
    let mut t = TaskTable::new();
    assert!(!task::has_room(&t));
    assert_eq!(task::free_slots(&t), 0);
    task::init(&mut t);
    assert!(task::has_room(&t));
    assert_eq!(task::free_slots(&t), 32);
    let (idle, demo) = task::boot_tasks(&mut t, 0x1000, TOP);
    assert!(!demo);
    assert_eq!(idle.id, 1);
    assert_eq!(idle.frame_at, TOP - FRAME_SIZE as u64);
    assert_eq!((idle.frame.rip, idle.frame.cs, idle.frame.user_ss), (0x1000, 0x08, 0x10));
    assert_eq!((idle.frame.rflags, idle.frame.user_rsp), (0x202, TOP));
    let image = Loaded { name: "hello", entry: 0x3000, stack_top: 0x4000 };
    let s = task::spawn_user_arg(&mut t, Ok(image), 4, 1, 9, 2 * TOP + 8).unwrap();
    // The frame is aligned to sixteen bytes.
    assert_eq!(s.frame_at, 2 * TOP - FRAME_SIZE as u64);
    assert_eq!((s.frame.rip, s.frame.cs, s.frame.user_ss), (0x3000, 0x23, 0x1B));
    assert_eq!((s.frame.rdi, s.frame.user_rsp), (9, 0x4000));
    assert_eq!(task::free_slots(&t), 30);
    assert!(task::spawn_user(&mut t, Err(()), 1, 1, 0).is_err());
    assert_eq!(task::set_user_arg(&t, 2), Some(s.frame_at));
    assert_eq!(task::set_user_arg(&t, 9), None);
    // A task that ran is left alone.
    task::bootstrap_first_task(&mut t).unwrap();
    assert_eq!(task::set_user_arg(&t, 1), None);
    assert_eq!(task::set_user_arg(&t, 2), Some(s.frame_at));
}

#[test]
fn first_task_is_entered() {
    let t = booted();
    assert_eq!(task::running_id(&t), Some(1));
    assert!(!t.cpu().user_ret);
    assert_eq!(task::tick_now(&t), 1);
    let mut empty = TaskTable::new();
    task::init(&mut empty);
    assert_eq!(task::bootstrap_first_task(&mut empty), None);
}

#[test]
fn timer_switches_frames() {
    let mut t = booted();
    let mut frame = 0x111;
    let mut seen = Vec::new();
    for _ in 0..60 {
        let next = task::on_irq_after_eoi(&mut t, frame);
        if next != frame {
            seen.push((task::running_id(&t).unwrap(), next));
            assert_eq!(t.cpu().rsp0, task::e_kstack_top(&t, seen.last().unwrap().0));
            assert_eq!(t.cpu().user_ret, task::is_user_task(&t, seen.last().unwrap().0));
            frame = next;
        }
    }
    assert_eq!(seen[0], (2, 2 * TOP - FRAME_SIZE as u64));
    assert_eq!(seen[1], (3, 3 * TOP - FRAME_SIZE as u64));
    assert_eq!(seen[2], (1, 0x111));
}

#[test]
fn paused_timer_keeps_the_frame() {
    let mut t = booted();
    task::set_timer_paused(&mut t, true);
    for _ in 0..100 {
        assert_eq!(task::on_irq_after_eoi(&mut t, 0x77), 0x77);
    }
    assert_eq!(task::tick_now(&t), 1);
}

#[test]
fn sleepers_wake_on_time() {
    let mut t = booted();
    let next = task::syscall_sleep(&mut t, 0x111, 25);
    assert_eq!(next, 2 * TOP - FRAME_SIZE as u64);
    assert_eq!(task::running_id(&t), Some(2));
    let mut frame = next;
    let mut woken_at = None;
    for _ in 0..200 {
        frame = task::on_irq_after_eoi(&mut t, frame);
        if task::running_id(&t) == Some(1) && woken_at.is_none() {
            woken_at = Some(task::tick_now(&t));
            assert_eq!(frame, 0x111);
        }
    }
    assert!(woken_at.unwrap() >= 26);
}

#[test]
fn yielding_rotates() {
    let mut t = booted();
    assert!(task::can_park(&t));
    task::syscall_yield(&mut t, 0x111);
    assert_eq!(task::running_id(&t), Some(2));
    let next = task::syscall_park(&mut t, 0x222, ParkKind::Yield);
    assert_eq!(next, 3 * TOP - FRAME_SIZE as u64);
    assert_eq!(task::syscall_yield(&mut t, 0x333), 0x111);
    // A kernel task yields at the next timer interrupt.
    task::kernel_yield(&mut t);
    assert!(task::yield_pending(&t));
    assert_eq!(task::on_irq_after_eoi(&mut t, 0x112), 0x222);
    assert!(!task::yield_pending(&t));
}

#[test]
fn exited_tasks_are_gone() {
    let mut t = booted();
    let next = task::syscall_exit(&mut t);
    assert_eq!(next, 2 * TOP - FRAME_SIZE as u64);
    assert_eq!(task::name_of(&t, 1), "?");
    assert_eq!(task::e_kstack_top(&t, 1), 0);
    assert!(task::cspace_of(&t, 1).is_none());
    assert!(task::wake_parked(&mut t, 1).is_none());
    let mut frame = next;
    for _ in 0..100 {
        frame = task::on_irq_after_eoi(&mut t, frame);
        assert_ne!(task::running_id(&t), Some(1));
    }
}

#[test]
fn woken_user_tasks_are_rewound() {
    let mut t = booted();
    task::syscall_yield(&mut t, 0x111);
    task::syscall_yield(&mut t, 0x222);
    assert_eq!(task::running_id(&t), Some(3));
    task::syscall_park(&mut t, 0x333, ParkKind::Block);
    assert_eq!(task::wake_parked(&mut t, 3), Some(0x333));
    // A kernel task has nothing to retry.
    assert_eq!(task::wake_parked(&mut t, 2), None);
}

#[test]
fn capability_spaces_are_separate() {
    let mut t = booted();
    let cap = Capability::new(5, ObjectKind::Frame, CapRights::all());
    task::with_cspace(&mut t, 2).unwrap().insert(cap).unwrap();
    assert_eq!(task::cspace_of(&t, 2).unwrap().occupied(), 1);
    assert_eq!(task::cspace_of(&t, 3).unwrap().occupied(), 0);
    assert!(task::with_cspace(&mut t, 44).is_none());
}

#[test]
fn task_list_is_aligned() {
    let t = booted();
    let lines = task::dump_tasks(&t);
    assert_eq!(lines[0], "  ID  NAME                  MODE   PRI  WGT  RUNS  PRE  MISS  TICKS");
    assert_eq!(
        lines[1],
        "    1  idle                  kern    1    1      1    0     0      0"
    );
    assert_eq!(
        lines[3],
        "    3  hello                 user    4    1      0    0     0      0"
    );
    assert_eq!(lines.len(), 4);
    let mut c = Console::new();
    serial::init(&mut c);
    assert!(task::run_tests(&mut c));
    assert_eq!(c.take(), b"task:self-test:ok\r\n");
}

#[test]
fn syscalls_end_in_a_frame() {
    let mut t = booted();
    let r = syscall::resume(&mut t, 0x111, &Out::Value(42));
    assert_eq!((r.frame, r.rax), (0x111, Some(42)));
    assert!(syscall::can_resume(&t, &Out::Park(ParkKind::Block)));
    assert!(!syscall::can_resume(&t, &Out::Park(ParkKind::Sleep(u64::MAX))));
    assert!(!syscall::can_resume(&t, &Out::Load(0)));
    let r = syscall::resume(&mut t, 0x111, &Out::Park(ParkKind::Block));
    assert_eq!((r.frame, r.rax), (2 * TOP - FRAME_SIZE as u64, None));
    let r = syscall::resume(&mut t, 0x222, &Out::Exit);
    assert_eq!(r.frame, 3 * TOP - FRAME_SIZE as u64);
    assert_eq!(syscall::caller(&t), 3);
    assert_eq!(syscall::gs_area(&t).kstack, 3 * TOP);
    // The last task cannot leave the CPU to anybody.
    assert!(!syscall::can_resume(&t, &Out::Park(ParkKind::Yield)));
}
