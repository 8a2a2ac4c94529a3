use kairos::config::LogLevel;
use kairos::kernel::boot;
use kairos::kernel::boot::TestResults;
use kairos::kernel::memory::frames;
use kairos::kernel::memory::frames::{MemoryRegion, BITMAP_BYTES};
use kairos::kernel::serial::Console;
use kairos::kernel::shell;
use kairos::kernel::shell::{Action, Editor, Step};
use kairos::kernel::task::{Loaded, TaskTable};
use kairos::kernel::vga::{Color, ColorCode, Screen, ScreenChar, BUFFER_WIDTH, LAST_ROW};
use kairos::kernel::{caps, logger, serial, task, vga, Kernel};

fn open() -> Console {
    let mut c = Console::new();
    serial::init(&mut c);
    c
}

fn sent(c: &mut Console) -> String {
    String::from_utf8(c.take()).unwrap()
}

#[test]
fn console_is_silent_until_ready() {
    let mut c = Console::new();
    serial::write_line(&mut c, "lost");
    c.receive(65);
    assert_eq!(serial::read_byte(&mut c), None);
    serial::init(&mut c);
    assert!(c.take().is_empty());
    assert_eq!(serial::read_byte(&mut c), Some(65));
    assert_eq!(serial::read_byte(&mut c), None);
}

#[test]
fn output_keeps_its_order() {
    let mut c = open();
    serial::write_str(&mut c, "a");
    serial::put_byte(&mut c, b'b');
    serial::write_bytes(&mut c, b"cd");
    serial::write_line(&mut c, "é");
    serial::write_lines(&mut c, &vec!["x".to_string(), "y".to_string()]);
    assert_eq!(sent(&mut c), "abcdé\r\nx\r\ny\r\n");
    assert_eq!(serial::dbg_hex("rsp", 0xAB), "rsp=00000000000000ab\n");
    assert_eq!(serial::dbg_s("here"), "here\n");
}

#[test]
fn levels_below_the_threshold_are_dropped() {
    let r = logger::log(LogLevel::Info, LogLevel::Info, b"up").unwrap();
    assert_eq!(r.line, b"[INFO ] up".to_vec());
    assert!(r.screen.is_none());
    assert!(logger::log(LogLevel::Debug, LogLevel::Info, b"x").is_none());
    let e = logger::log(LogLevel::Error, LogLevel::Error, b"bad").unwrap();
    assert_eq!(e.screen.unwrap(), b"[ERROR] [ERROR] bad\n".to_vec());
    assert!(logger::log(LogLevel::Warn, LogLevel::Error, b"x").is_none());
    assert_eq!(logger::min_level(), LogLevel::Info);
    let long = logger::log(LogLevel::Warn, LogLevel::Trace, &[b'x'; 600]).unwrap();
    assert_eq!(long.line.len(), 512);
    assert!(logger::test_echo().0);
    let ready = logger::init().unwrap();
    assert_eq!(ready.line, b"[INFO ] logger: ready (level=Info)".to_vec());
}

#[test]
fn screen_scrolls() {
    let mut s = Screen::new();
    s.write_str("ab\nc");
    let gray = ColorCode::new(Color::LightGray, Color::Black);
    let cell = |ascii: u8| ScreenChar { ascii, color_code: gray };
    assert_eq!(s.read_cell(LAST_ROW), cell(b'c'));
    assert_eq!(s.read_cell(LAST_ROW - BUFFER_WIDTH), cell(b'a'));
    assert_eq!(s.read_cell(LAST_ROW - BUFFER_WIDTH + 1), cell(b'b'));
    s.write_str("\rd");
    assert_eq!(s.read_cell(LAST_ROW), cell(b'd'));
    s.put_char('→');
    assert_eq!(s.read_cell(LAST_ROW + 1), cell(b'?'));
    s.clear();
    assert_eq!(s.read_cell(LAST_ROW), cell(b' '));
}

#[test]
fn long_lines_wrap() {
    let mut s = Screen::new();
    for _ in 0..BUFFER_WIDTH {
        s.put_char('x');
    }
    assert_eq!(s.read_cell(LAST_ROW + BUFFER_WIDTH - 1).ascii, b'x');
    s.put_char('y');
    assert_eq!(s.read_cell(LAST_ROW).ascii, b'y');
    assert_eq!(s.read_cell(LAST_ROW - 1).ascii, b'x');
}

#[test]
fn panics_are_red() {
    let mut screen: Option<Screen> = None;
    vga::print(&mut screen, "nobody sees this");
    assert!(screen.is_none());
    vga::init(&mut screen);
    vga::print(&mut screen, "ok");
    assert_eq!(screen.as_ref().unwrap().read_cell(LAST_ROW).ascii, b'o');
    vga::panic_message(&mut screen, "out of luck");
    let first = screen.as_ref().unwrap().read_cell(LAST_ROW);
    assert_eq!(first, ScreenChar { ascii: b'P', color_code: ColorCode(4) });
    let text: Vec<u8> =
        (0..33).map(|i| screen.as_ref().unwrap().read_cell(LAST_ROW + i).ascii).collect();
    assert_eq!(text, b"PANIC: out of luck[kairos halted]".to_vec());
    let mut fresh: Option<Screen> = None;
    assert!(vga::test_echo(&mut fresh));
    assert_eq!(fresh.unwrap().read_cell(LAST_ROW).ascii, b'v');
}

fn type_in(e: &mut Editor, c: &mut Console, t: &mut TaskTable, s: &[u8]) -> Vec<Step> {
    for b in s {
        c.receive(*b);
    }
    let mut out = Vec::new();
    for _ in s {
        out.push(shell::shell_main(e, c, t));
    }
    out
}

#[test]
fn lines_are_edited_and_trimmed() {
    let mut e = Editor::new();
    let mut c = open();
    let mut t = TaskTable::new();
    let steps = type_in(&mut e, &mut c, &mut t, b" hexx\x7f\x08lp \x01 \r");
    match steps.last().unwrap() {
        Step::Enter(Some(cmd)) => assert_eq!(cmd, b"help"),
        _ => panic!("no command"),
    }
    assert_eq!(sent(&mut c), " hexx\x08 \x08\x08 \x08lp  \r\n");
    let steps = type_in(&mut e, &mut c, &mut t, b"\x7f\n");
    assert!(matches!(steps[0], Step::Typed));
    assert!(matches!(steps[1], Step::Enter(None)));
    assert_eq!(sent(&mut c), "\r\n");
    assert!(matches!(shell::shell_main(&mut e, &mut c, &mut t), Step::Yield));
    assert!(task::yield_pending(&t));
}

#[test]
fn lines_are_bounded() {
    let mut e = Editor::new();
    let mut c = open();
    let mut t = TaskTable::new();
    type_in(&mut e, &mut c, &mut t, &[b'z'; 300]);
    assert_eq!(sent(&mut c).len(), 256);
    match type_in(&mut e, &mut c, &mut t, b"\r").pop().unwrap() {
        Step::Enter(Some(cmd)) => assert_eq!(cmd, vec![b'z'; 256]),
        _ => panic!("no command"),
    }
}

#[test]
fn commands_print() {
    let mut c = open();
    let t = TaskTable::new();
    let mut bits = vec![0xFFu8; BITMAP_BYTES];
    let regions = [MemoryRegion { start: 0, end: 0x80_0000, usable: true }];
    let f = frames::init(&regions, bits.as_mut_slice()).unwrap();
    let mut run = |cmd: &str| {
        let a = shell::run_cmd(&mut c, &t, &f, cmd.as_bytes());
        (a, sent(&mut c))
    };
    assert!(matches!(run(""), (Action::Prompt, s) if s.is_empty()));
    let (_, help) = run("help");
    assert!(help.starts_with("commands:\r\n  info                 system overview\r\n"));
    assert_eq!(help.lines().count(), 9);
    assert_eq!(
        run("sched").1,
        "policy: weighted-round-robin   quantum: 10 ms   realtime demo: false\r\n"
    );
    assert_eq!(
        run("info").1,
        "kairos v0.1.0  kernel heap: 64 MiB  memory: 8 MiB usable, 2048 frames free\r\n\
         uptime: 0 ms\r\n"
    );
    assert!(run("ps").1.starts_with("  ID  NAME"));
    assert_eq!(run("echo   a  b").1, "a  b\r\n");
    assert_eq!(run("echo").1, "\r\n");
    assert_eq!(run("echoes x").1, "unknown command: echoes (try `help`)\r\n");
    assert!(matches!(run("crash").0, Action::Crash));
    assert!(matches!(run("fault").0, Action::Crash));
    assert!(matches!(run("ipcdemo"), (Action::IpcDemo, s) if s.is_empty()));
    let (a, s) = run("exit now");
    assert!(matches!(a, Action::Exit(0x10)));
    assert_eq!(s, "shutting down\r\n");
    let (a, s) = run("spawn");
    assert!(matches!(a, Action::Prompt));
    assert_eq!(s, "usage: spawn <hello|counter|deadline>\r\n");
    assert!(matches!(run("spawn  hello x").0, Action::Spawn(p) if p == b"hello"));
}

#[test]
fn shell_holds_the_spawn_authority() {
    let mut k = Kernel::new();
    task::init(&mut k.tasks);
    caps::init(&mut k.objects);
    task::boot_tasks(&mut k.tasks, 0x1000, 0x10000);
    let (spawn, frame) = shell::start(&mut k.tasks, 0x2000, 0x20000);
    assert_eq!(spawn.id, 2);
    assert_eq!(spawn.frame.rip, 0x2000);
    assert_eq!(frame, Some(0x10000 - 176));
    let cap = *task::cspace_of(&k.tasks, 2).unwrap().lookup(0).unwrap();
    assert_eq!(cap.object, caps::SPAWN_AUTHORITY);
    let mut c = open();
    shell::welcome(&mut c);
    shell::prompt(&mut c);
    assert_eq!(sent(&mut c), "\r\nkairos shell — type `help`\r\nkairos> ");
    assert!(shell::run_tests(&mut c));
    assert_eq!(sent(&mut c), "shell:self-test:ok\r\n");
}

#[test]
fn spawn_command_reports() {
    let mut k = Kernel::new();
    task::init(&mut k.tasks);
    let mut c = open();
    let image = Loaded { name: "hello", entry: 1, stack_top: 2 };
    let r = shell::cmd_spawn(&mut c, &mut k.tasks, b"hello", Ok(image), 0x10000);
    assert_eq!(r.unwrap().id, 1);
    assert_eq!(sent(&mut c), "spawned hello as task 1\r\n");
    assert!(shell::cmd_spawn(&mut c, &mut k.tasks, b"what", Err(()), 0).is_err());
    assert_eq!(sent(&mut c), "spawn failed: unknown program\r\n");
}

#[test]
fn demo_tasks_share_a_channel() {
    let mut k = Kernel::new();
    task::init(&mut k.tasks);
    caps::init(&mut k.objects);
    let mut c = open();
    let image = Loaded { name: "echo", entry: 1, stack_top: 2 };
    let (s, l) = shell::cmd_ipcdemo(&mut c, &mut k, Ok(image), Ok(image), 0x10000, 0x20000);
    assert_eq!(sent(&mut c), "ipcdemo: server=1 client=2 on channel 0\r\n");
    assert_eq!(s.unwrap().frame.rdi, 1);
    assert_eq!(l.unwrap().frame.rdi, 1);
    let a = *task::cspace_of(&k.tasks, 1).unwrap().lookup(0).unwrap();
    let b = *task::cspace_of(&k.tasks, 2).unwrap().lookup(0).unwrap();
    assert_eq!(a, b);
    assert_eq!(caps::lookup(&k.objects, a.object).unwrap().channel(&k.objects), Some(0));
    let (s, l) = shell::cmd_ipcdemo(&mut c, &mut k, Err(()), Ok(image), 0, 0x30000);
    assert!(s.is_none() && l.is_some());
    assert_eq!(sent(&mut c), "ipcdemo: spawn failed\r\n");
}

#[test]
fn boot_announces_itself() {
    let mut bits = vec![0xFFu8; BITMAP_BYTES];
    let regions = [MemoryRegion { start: 0, end: 0x80_0000, usable: true }];
    let f = frames::init(&regions, bits.as_mut_slice()).unwrap();
    let lines = boot::banner(&f);
    assert_eq!(lines[1], " Kairos Microkernel v0.1.0 — capability-based, deterministic");
    assert_eq!(lines[2], " policy        : weighted-round-robin");
    assert_eq!(lines[3], " quantum       : 10 ms");
    assert_eq!(lines[4], " kernel heap   : 64 MiB");
    assert_eq!(lines[5], " memory        : 8 MiB total, 8 MiB usable, 2048 frames free");
    assert_eq!(lines[0], lines[6]);
}

#[test]
fn test_mode_reports() {
    let good = TestResults {
        logger: true,
        memory: true,
        ipc: true,
        task: true,
        syscall: true,
        user: true,
        shell: true,
    };
    let (ok, lines) = boot::test_runner(good);
    assert!(ok);
    assert_eq!(lines[0], "[tests] logger: PASS");
    let (ok, lines) = boot::test_runner(TestResults { user: false, ..good });
    assert!(!ok);
    assert_eq!(lines[5], "[tests] user: FAIL");
    assert_eq!(lines[6], "[tests] shell: PASS");
    assert_eq!(boot::report("ipc", true), "[tests] ipc: PASS");
    assert_eq!(boot::report("ipc", false), "[tests] ipc: FAIL");
    assert_eq!(boot::verdict(true), "kernel self-tests: ALL PASSED");
    assert_eq!(boot::verdict(false), "kernel self-tests: FAILED");
    assert_eq!(boot::exit_code(true), 0x10);
    assert_eq!(boot::exit_code(false), 0x11);
}
