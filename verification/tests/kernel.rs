use kairos::caps::{CapRights, Capability, ObjectKind};
use kairos::config::{
    SYS_CH_CLOSE, SYS_CH_CREATE, SYS_EXIT, SYS_GETPID, SYS_PRINT, SYS_RECV, SYS_RECV_FRAME,
    SYS_SEND, SYS_SEND_FRAME, SYS_SLEEP, SYS_SPAWN, SYS_TIME, SYS_YIELD,
};
use kairos::ipc::{Message, MSG_WORDS};
use kairos::kernel::caps::{KernelObject, SharedFrame, SPAWN_AUTHORITY};
use kairos::kernel::ipc::OpResult;
use kairos::kernel::memory::frames::{Frames, MemoryRegion, BITMAP_BYTES};
use kairos::kernel::memory::frames;
use kairos::kernel::serial::Console;
use kairos::kernel::syscall::{Out, Reply, UserRead};
use kairos::kernel::task::{Loaded, ParkKind};
use kairos::kernel::user::{
    Program, USER_BASE, USER_FRAME_WINDOW, USER_STACK_TOP, USER_WINDOW_END,
};
use kairos::kernel::{caps, ipc, serial, syscall, task, Kernel};

const TOP: u64 = 0x10_0000;
const BUF: u64 = USER_BASE + 0x100;

/// A kernel with two user tasks, 1 and 2, of which 1 is running.
fn booted() -> Kernel {
    let mut k = Kernel::new();
    task::init(&mut k.tasks);
    caps::init(&mut k.objects);
    let image = Loaded { name: "hello", entry: 0x3000, stack_top: 0x4000 };
    task::spawn_user(&mut k.tasks, Ok(image), 4, 1, TOP).unwrap();
    task::spawn_user(&mut k.tasks, Ok(image), 4, 1, 2 * TOP).unwrap();
    task::bootstrap_first_task(&mut k.tasks).unwrap();
    k
}

fn ram(bits: &mut Vec<u8>) -> Frames<'_> {
    let regions = [MemoryRegion { start: 0, end: 0x10_0000, usable: true }];
    frames::init(&regions, bits.as_mut_slice()).unwrap()
}

fn bitmap() -> Vec<u8> {
    vec![0xFFu8; BITMAP_BYTES]
}

fn call(k: &mut Kernel, f: &mut Frames, id: u64, num: u64, a: [u64; 3], input: &[u8]) -> Reply {
    let programs = vec![
        Program { name: "hello", image: vec![] },
        Program { name: "counter", image: vec![] },
    ];
    syscall::handle(k, f, &programs, id, num, a[0], a[1], a[2], input)
}

fn value(r: &Reply) -> u64 {
    match r.out {
        Out::Value(v) => v,
        _ => panic!("no value"),
    }
}

#[test]
fn registry_ids_start_at_one() {
    let mut k = Kernel::new();
    caps::init(&mut k.objects);
    let a = caps::register(&mut k.objects, KernelObject::Channel(7));
    assert_eq!(a, 2);
    let r = caps::lookup(&k.objects, a).unwrap();
    assert_eq!(r.id(), 2);
    assert_eq!(r.kind(&k.objects), Some(ObjectKind::Channel));
    assert_eq!(r.channel(&k.objects), Some(7));
    assert_eq!(r.frame(&k.objects), None);
    assert!(caps::lookup(&k.objects, 0).is_none());
    assert!(caps::lookup(&k.objects, 3).is_none());
    let shared = SharedFrame { phys: 0x5000, pages: 2, window: USER_FRAME_WINDOW };
    let b = caps::register(&mut k.objects, KernelObject::Frame(shared));
    assert_eq!(caps::lookup(&k.objects, b).unwrap().frame(&k.objects), Some(shared));
    // An id is never given out again.
    caps::remove(&mut k.objects, a);
    assert!(caps::lookup(&k.objects, a).is_none());
    assert_eq!(caps::register(&mut k.objects, KernelObject::Task(4)), 4);
    assert_eq!(k.objects.len(), 4);
    assert!(caps::test_caps(&mut k.objects));
}

#[test]
fn created_channels_carry_messages() {
    let mut bits = bitmap();
    let mut f = ram(&mut bits);
    let mut k = booted();
    let slot = value(&call(&mut k, &mut f, 1, SYS_CH_CREATE, [0, 0, 0], &[]));
    assert_eq!(slot, 1);
    let m = Message::data(5, [9; MSG_WORDS]);
    let r = call(&mut k, &mut f, 1, SYS_SEND, [slot, BUF, 0], &m.to_bytes());
    assert_eq!(value(&r), 1);
    let r = call(&mut k, &mut f, 1, SYS_RECV, [slot, BUF, 0], &[]);
    assert_eq!(value(&r), 1);
    let copy = r.copy.unwrap();
    assert_eq!(copy.at, BUF);
    assert_eq!(copy.bytes, m.to_bytes());
    // The other task holds no capability for the channel.
    let r = call(&mut k, &mut f, 2, SYS_SEND, [slot, BUF, 0], &m.to_bytes());
    assert_eq!(value(&r), 0);
    // Closing takes the capability away.
    assert_eq!(value(&call(&mut k, &mut f, 1, SYS_CH_CLOSE, [slot, 0, 0], &[])), 1);
    let r = call(&mut k, &mut f, 1, SYS_SEND, [slot, BUF, 0], &m.to_bytes());
    assert_eq!(value(&r), 0);
    assert_eq!(task::cspace_of(&k.tasks, 1).unwrap().occupied(), 0);
}

#[test]
fn capabilities_need_the_right_to_call() {
    let mut k = booted();
    let c = ipc::create(&mut k.channels);
    let id = caps::register(&mut k.objects, KernelObject::Channel(c));
    let space = task::with_cspace(&mut k.tasks, 1).unwrap();
    let rw = CapRights::new(true, true, false);
    space.insert(Capability::new(id, ObjectKind::Channel, rw)).unwrap();
    space.insert(Capability::new(id, ObjectKind::Task, CapRights::all())).unwrap();
    space.insert(Capability::new(id, ObjectKind::Channel, CapRights::call())).unwrap();
    let m = Message::data(5, [9; MSG_WORDS]);
    assert_eq!(ipc::send(&mut k, 1, 0, m).result, OpResult::Done(0));
    assert_eq!(ipc::send(&mut k, 1, 1, m).result, OpResult::Done(0));
    assert_eq!(ipc::send(&mut k, 1, 2, m).result, OpResult::Done(1));
    assert_eq!(ipc::send(&mut k, 1, 77, m).result, OpResult::Done(0));
}

#[test]
fn full_and_empty_channels_block() {
    let mut k = booted();
    let c = ipc::create(&mut k.channels);
    let id = caps::register(&mut k.objects, KernelObject::Channel(c));
    for t in 1..=2 {
        let cap = Capability::new(id, ObjectKind::Channel, CapRights::all());
        task::with_cspace(&mut k.tasks, t).unwrap().insert(cap).unwrap();
    }
    let m = Message::data(1, [1; MSG_WORDS]);
    // Task 1 waits on the empty channel, parks, and is rewound by a send.
    assert_eq!(ipc::recv(&mut k, 1, 0, BUF).result, OpResult::WouldBlock);
    task::syscall_park(&mut k.tasks, 0x111, ParkKind::Block);
    let sent = ipc::send(&mut k, 2, 0, m);
    assert_eq!((sent.result, sent.rewind), (OpResult::Done(1), Some(0x111)));
    // Task 2 fills the channel and waits.
    for _ in 1..16 {
        assert_eq!(ipc::send(&mut k, 2, 0, m).result, OpResult::Done(1));
    }
    assert_eq!(ipc::send(&mut k, 2, 0, m).result, OpResult::WouldBlock);
    assert_eq!(ipc::get(&mut k.channels, c).unwrap().send_waiters, vec![2]);
    task::syscall_park(&mut k.tasks, 0x222, ParkKind::Block);
    let got = ipc::recv(&mut k, 1, 0, BUF);
    assert_eq!((got.result, got.rewind), (OpResult::Done(1), Some(0x222)));
    assert_eq!(got.message, Some(m));
    assert!(ipc::get(&mut k.channels, c).unwrap().send_waiters.is_empty());
    assert!(ipc::get(&mut k.channels, 9).is_none());
    assert_eq!(k.channels.len(), 1);
}

#[test]
fn bad_buffers_lose_nothing() {
    let mut k = booted();
    let c = ipc::create(&mut k.channels);
    let id = caps::register(&mut k.objects, KernelObject::Channel(c));
    let cap = Capability::new(id, ObjectKind::Channel, CapRights::all());
    task::with_cspace(&mut k.tasks, 1).unwrap().insert(cap).unwrap();
    let m = Message::data(1, [1; MSG_WORDS]);
    ipc::send(&mut k, 1, 0, m);
    for bad in [0, USER_BASE - 1, USER_STACK_TOP - 71, u64::MAX] {
        let got = ipc::recv(&mut k, 1, 0, bad);
        assert_eq!((got.result, got.message), (OpResult::Done(0), None));
    }
    assert_eq!(ipc::recv(&mut k, 1, 0, USER_STACK_TOP - 72).message, Some(m));
}

#[test]
fn shared_frames_arrive() {
    let mut bits = bitmap();
    let mut f = ram(&mut bits);
    let free = frames::free_count(&f);
    let mut k = booted();
    let slot = value(&call(&mut k, &mut f, 1, SYS_CH_CREATE, [0, 0, 0], &[]));
    let r = call(&mut k, &mut f, 1, SYS_SEND_FRAME, [slot, 5000, 3], &[]);
    let grant = match r.out {
        Out::Share(g) => g,
        _ => panic!("nothing to map"),
    };
    assert_eq!(grant.frame.pages, 2);
    assert_eq!(grant.frame.window, USER_FRAME_WINDOW);
    assert_eq!(grant.maps.len(), 2);
    assert_eq!(grant.maps[1].phys, grant.frame.phys + 4096);
    assert_eq!(grant.maps[1].virt, USER_FRAME_WINDOW + 4096);
    assert!(grant.maps[1].flags.user && grant.maps[1].flags.writable);
    assert_eq!(frames::free_count(&f), free - 2);
    let r = syscall::frames_mapped(&mut k, 1, slot, 3, grant.frame, true);
    assert_eq!(value(&r), 1);
    let r = call(&mut k, &mut f, 1, SYS_RECV_FRAME, [slot, BUF, 0], &[]);
    assert_eq!(value(&r), USER_FRAME_WINDOW);
    let got = Message::from_bytes(&r.copy.unwrap().bytes).unwrap();
    assert_eq!(got.tag, 3);
    // A size of zero, and more than there is, is refused.
    assert_eq!(value(&call(&mut k, &mut f, 1, SYS_SEND_FRAME, [slot, 0, 0], &[])), 0);
    assert_eq!(value(&call(&mut k, &mut f, 1, SYS_SEND_FRAME, [slot, 1 << 30, 0], &[])), 0);
    // The window is used up to its end, and no further.
    k.cursor = USER_WINDOW_END - 4096;
    let free = frames::free_count(&f);
    assert_eq!(value(&call(&mut k, &mut f, 1, SYS_SEND_FRAME, [slot, 4097, 0], &[])), 0);
    assert_eq!((k.cursor, frames::free_count(&f)), (USER_WINDOW_END - 4096, free));
    let r = call(&mut k, &mut f, 1, SYS_SEND_FRAME, [slot, 4096, 0], &[]);
    assert!(matches!(r.out, Out::Share(_)));
    assert_eq!(k.cursor, USER_WINDOW_END);
    assert_eq!(value(&call(&mut k, &mut f, 1, SYS_SEND_FRAME, [slot, 1, 0], &[])), 0);
    // Pages that could not be mapped send nothing.
    let r = syscall::frames_mapped(&mut k, 1, slot, 3, grant.frame, false);
    assert_eq!(value(&r), 0);
}

#[test]
fn plain_syscalls_are_answered() {
    let mut bits = bitmap();
    let mut f = ram(&mut bits);
    let mut k = booted();
    assert!(matches!(call(&mut k, &mut f, 1, SYS_EXIT, [0; 3], &[]).out, Out::Exit));
    assert!(matches!(
        call(&mut k, &mut f, 1, SYS_YIELD, [0; 3], &[]).out,
        Out::Park(ParkKind::Yield)
    ));
    assert!(matches!(
        call(&mut k, &mut f, 1, SYS_SLEEP, [30, 0, 0], &[]).out,
        Out::Park(ParkKind::Sleep(30))
    ));
    let r = call(&mut k, &mut f, 1, SYS_PRINT, [BUF, 2, 0], b"hi");
    assert_eq!((value(&r), r.print), (1, b"hi".to_vec()));
    // Bytes that the call did not ask for, or may not read, do not count.
    let r = call(&mut k, &mut f, 1, SYS_PRINT, [BUF, 2, 0], b"hidden");
    assert_eq!((value(&r), r.print), (1, b"hi".to_vec()));
    let r = call(&mut k, &mut f, 1, SYS_PRINT, [0xFFFF_8000_0000_0000, 2, 0], b"hi");
    assert_eq!((value(&r), r.print), (1, vec![]));
    assert_eq!(value(&call(&mut k, &mut f, 2, SYS_GETPID, [0; 3], &[])), 2);
    assert_eq!(value(&call(&mut k, &mut f, 2, SYS_TIME, [0; 3], &[])), 1);
    let r = call(&mut k, &mut f, 1, 99, [0; 3], &[]);
    assert_eq!(value(&r), 0);
    assert_eq!(r.line.unwrap(), "[kairos] unknown syscall 99");
}

#[test]
fn spawning_needs_the_authority() {
    let mut bits = bitmap();
    let mut f = ram(&mut bits);
    let mut k = booted();
    let r = call(&mut k, &mut f, 1, SYS_SPAWN, [BUF, 7, 0], b"counter");
    assert_eq!(value(&r), 0);
    assert_eq!(
        r.line.unwrap(),
        "[kairos] spawn denied: caller lacks thespawn authority capability"
    );
    let weak = Capability::new(SPAWN_AUTHORITY, ObjectKind::Task, CapRights::read());
    task::with_cspace(&mut k.tasks, 1).unwrap().insert(weak).unwrap();
    assert!(call(&mut k, &mut f, 1, SYS_SPAWN, [BUF, 7, 0], b"counter").line.is_some());
    let cap = Capability::new(SPAWN_AUTHORITY, ObjectKind::Task, CapRights::all());
    task::with_cspace(&mut k.tasks, 1).unwrap().insert(cap).unwrap();
    let r = call(&mut k, &mut f, 1, SYS_SPAWN, [BUF, 9, 0], b"counter\0x");
    assert!(matches!(r.out, Out::Load(1)));
    let r = call(&mut k, &mut f, 1, SYS_SPAWN, [0, 7, 0], b"counter");
    assert_eq!(value(&r), 0);
    let r = call(&mut k, &mut f, 1, SYS_SPAWN, [BUF, 4, 0], b"nope");
    assert_eq!(value(&r), 0);
    assert!(r.line.is_none());
    let image = Loaded { name: "counter", entry: 1, stack_top: 2 };
    let (spawn, out) = syscall::spawn_loaded(&mut k.tasks, Ok(image), 3 * TOP);
    assert_eq!(spawn.unwrap().id, 3);
    assert!(matches!(out, Out::Value(3)));
    let (_, out) = syscall::spawn_loaded(&mut k.tasks, Err(()), 0);
    assert!(matches!(out, Out::Value(0)));
}

#[test]
fn user_pointers_are_checked() {
    assert!(syscall::user_ptr_ok(USER_BASE, 16));
    assert!(!syscall::user_ptr_ok(0, 16));
    assert!(!syscall::user_ptr_ok(USER_STACK_TOP, 16));
    assert!(syscall::user_ptr_ok(USER_STACK_TOP - 16, 16));
    assert!(syscall::user_ptr_ok(USER_BASE, 4096));
    assert!(!syscall::user_ptr_ok(USER_BASE, 4097));
    assert!(!syscall::user_ptr_ok(u64::MAX, 2));
    assert_eq!(
        syscall::user_read(SYS_PRINT, BUF, 5000),
        Some(UserRead { at: BUF, len: 1024 })
    );
    assert_eq!(
        syscall::user_read(SYS_SPAWN, BUF, 5000),
        Some(UserRead { at: BUF, len: 4096 })
    );
    assert_eq!(
        syscall::user_read(SYS_SEND, 1, BUF),
        Some(UserRead { at: BUF, len: 72 })
    );
    assert_eq!(syscall::user_read(SYS_PRINT, 0xFFFF_8000_0000_0000, 8), None);
    assert_eq!(syscall::user_read(SYS_RECV, BUF, BUF), None);
    let mut c = Console::new();
    serial::init(&mut c);
    assert!(syscall::run_tests(&mut c));
    assert!(ipc::run_tests(&mut c));
    assert_eq!(c.take(), b"syscall:self-test:ok\r\nipc:self-test:ok\r\n");
}

#[test]
fn malformed_sends_are_refused() {
    let mut bits = bitmap();
    let mut f = ram(&mut bits);
    let mut k = booted();
    let slot = value(&call(&mut k, &mut f, 1, SYS_CH_CREATE, [0; 3], &[]));
    let mut b = Message::data(1, [0; MSG_WORDS]).to_bytes();
    assert_eq!(value(&call(&mut k, &mut f, 1, SYS_SEND, [slot, 0, 0], &b)), 0);
    assert_eq!(value(&call(&mut k, &mut f, 1, SYS_SEND, [0, BUF, 0], &b)), 0);
    b[2] = 7;
    assert_eq!(value(&call(&mut k, &mut f, 1, SYS_SEND, [slot, BUF, 0], &b)), 0);
}

#[test]
fn waiters_can_be_purged() {
    let mut k = booted();
    let c = ipc::create(&mut k.channels);
    let d = ipc::create(&mut k.channels);
    for x in [c, d] {
        let chan = ipc::get(&mut k.channels, x).unwrap();
        chan.recv_waiters.push(4);
        chan.send_waiters.push(5);
    }
    ipc::purge_waiters(&mut k.channels, c);
    ipc::purge_waiters(&mut k.channels, 9);
    let chan = ipc::get(&mut k.channels, c).unwrap();
    assert!(chan.recv_waiters.is_empty() && chan.send_waiters.is_empty());
    let chan = ipc::get(&mut k.channels, d).unwrap();
    assert_eq!((chan.recv_waiters.len(), chan.send_waiters.len()), (1, 1));
}

#[test]
fn syscall_registers_are_set_up() {
    let w = syscall::init(0xD00, 0xABCD, 0x9000);
    let list: Vec<(u32, u64)> = w.iter().map(|m| (m.msr, m.value)).collect();
    assert_eq!(
        list,
        vec![
            (0xC000_0080, 0xD01),
            (0xC000_0082, 0xABCD),
            (0xC000_0081, 0x0008_0008_0000_0000),
            (0xC000_0084, 0x200),
            (0xC000_0101, 0x9000),
            (0xC000_0102, 0),
        ]
    );
}
