use kairos::ipc::{Message, MsgKind, MSG_WORDS};
use kairos::runner;
use kairos::runner::RetryStep;
use kairos::user;
use kairos::user::echo_client::{EchoClient, Sent};
use kairos::user::echo_server::{EchoServer, Received};
use kairos::user::{counter, deadline, hello, Call};

#[test]
fn syscall_registers() {
    assert_eq!(user::exit(3), Call { num: 0, a0: 3, a1: 0, a2: 0, a3: 0 });
    assert_eq!(user::yield_now().num, 1);
    assert_eq!(user::sleep(500), Call { num: 2, a0: 500, a1: 0, a2: 0, a3: 0 });
    assert_eq!(user::print(7, 9), Call { num: 3, a0: 7, a1: 9, a2: 0, a3: 0 });
    assert_eq!(user::getpid().num, 4);
    assert_eq!(user::time_ms().num, 5);
    assert_eq!(user::spawn(7, 9), Call { num: 6, a0: 7, a1: 9, a2: 0, a3: 0 });
    assert_eq!(user::ch_create().num, 7);
    assert_eq!(user::ch_close(4), Call { num: 8, a0: 4, a1: 0, a2: 0, a3: 0 });
    assert_eq!(user::send(4, 5), Call { num: 9, a0: 4, a1: 5, a2: 0, a3: 0 });
    assert_eq!(user::recv(4, 5), Call { num: 10, a0: 4, a1: 5, a2: 0, a3: 0 });
    assert_eq!(user::send_frame(4, 5, 6), Call { num: 11, a0: 4, a1: 5, a2: 6, a3: 0 });
    assert_eq!(user::recv_frame(4, 5), Call { num: 12, a0: 4, a1: 5, a2: 0, a3: 0 });
    assert_eq!(user::slot_from(0x1_0002), 2);
}

#[test]
fn numbers_and_lines_are_printed() {
    assert_eq!(user::print_num(0), "0");
    assert_eq!(user::print_num(u64::MAX), "18446744073709551615");
    assert_eq!(user::println("x").concat(), "x\n");
}

#[test]
fn panic_messages_are_cut() {
    assert_eq!(user::panic_text("oops"), b"USER PANIC: oops\n".to_vec());
    let long = "a".repeat(300);
    assert_eq!(user::panic_text(&long).len(), 12 + 160 + 1);
    // A character that is cut in two spoils the message.
    let odd = format!("{}é", "a".repeat(159));
    assert_eq!(user::panic_text(&odd), b"USER PANIC: ?\n".to_vec());
    let even = format!("{}é!", "a".repeat(158));
    assert_eq!(user::panic_text(&even).len(), 12 + 160 + 1);
}

#[test]
fn hello_greets() {
    assert_eq!(
        hello::output(7).concat(),
        "hello: Hello from ring 3!\nhello: pid=7 — first user-space program on Kairos\n"
    );
}

#[test]
fn counter_counts() {
    let (mut c, out) = counter::start(3);
    assert_eq!(out.concat(), "counter: start, pid=3\n");
    assert_eq!(c.step(10).concat(), "counter:0 @t=10 ms\n");
    assert_eq!(c.step(510).concat(), "counter:1 @t=510 ms\n");
    assert_eq!(counter::PERIOD_MS, 500);
}

#[test]
fn deadlines_are_watched() {
    let (even, out) = deadline::start(4);
    assert_eq!(out.concat(), "deadline: task 4 running (EDF demo)\n");
    assert_eq!((even.period(), even.max_latency()), (200, 400));
    let (odd, _) = deadline::start(5);
    assert_eq!((odd.period(), odd.max_latency()), (100, 220));
    assert_eq!(even.wake(9).concat(), "deadline:4 wake @t=9 ms\n");
    assert!(even.woke(0, 400).is_empty());
    assert_eq!(
        even.woke(0, 401).concat(),
        "deadline:4 DEADLINE MISS (latency exceeds budget)\n"
    );
    // The clock may have started again.
    assert!(odd.woke(u64::MAX - 9, 210).is_empty());
    assert!(!odd.woke(u64::MAX - 9, 211).is_empty());
}

#[test]
fn client_gives_up_at_the_cap() {
    let (mut c, out) = EchoClient::start(1);
    assert_eq!(out.concat(), "echo_client: starting\n");
    assert_eq!(c.slot, 1);
    for _ in 0..15 {
        assert!(matches!(c.sent(0), Sent::Retry(100)));
    }
    // One success and the count starts again.
    assert!(matches!(c.sent(1), Sent::Receive));
    for _ in 0..15 {
        assert!(matches!(c.sent(0), Sent::Retry(100)));
    }
    match c.sent(0) {
        Sent::GiveUp(words) => assert_eq!(
            words.concat(),
            "echo_client: no working channel (use the shell's `ipcdemo`); exiting\n"
        ),
        _ => panic!("still trying"),
    }
}

#[test]
fn echo_makes_a_round_trip() {
    let (mut c, _) = EchoClient::start(1);
    let (mut s, ready) = EchoServer::start(1);
    assert_eq!(ready.concat(), "echo_server: ready\n");
    for n in 0..3u64 {
        let ping = c.ping();
        assert_eq!((ping.tag as u64, ping.words), (n, [n; MSG_WORDS]));
        assert!(matches!(c.sent(1), Sent::Receive));
        match s.received(1, &ping) {
            Received::Got(out, reply) => {
                assert_eq!(out.concat(), format!("echo_server: got #{n}  payload[0]={n}\n"));
                assert!(reply);
            }
            _ => panic!("not received"),
        }
        let out = c.received(1, &ping);
        assert_eq!(
            out.concat(),
            format!("echo_client: round trip #{n} ok, echo payload={n}\n")
        );
    }
    let none = Message::data(0, [0; MSG_WORDS]);
    assert_eq!(c.received(0, &none).concat(), "echo_client: recv#3 failed\n");
}

#[test]
fn server_echoes_data_only() {
    let (mut s, _) = EchoServer::start(0x1_0002);
    assert_eq!(s.slot, 2);
    let m = Message { tag: 1, kind: MsgKind::CapTransfer, words: [5; MSG_WORDS] };
    assert!(matches!(s.received(1, &m), Received::Got(_, false)));
    for _ in 0..15 {
        assert!(matches!(s.received(0, &m), Received::Retry(100)));
    }
    assert!(matches!(s.received(7, &m), Received::GiveUp(_)));
}

#[test]
fn exit_codes_round_trip() {
    assert_eq!(
        runner::finish(0x21),
        (0, "QEMU exited with guest code 0x10 → host exit 0".to_string())
    );
    assert_eq!(
        runner::finish(0x23),
        (1, "QEMU exited with guest code 0x11 → host exit 1".to_string())
    );
    assert_eq!(
        runner::finish(0),
        (2, "QEMU exited with guest code 0xff → host exit 2".to_string())
    );
    assert_eq!(runner::finish(1).0, 2);
    // No code of the guest gives an even status.
    for code in [0x20, 0x22, 0x24, 0x25] {
        assert_eq!(runner::finish(code).0, 2);
    }
    assert_eq!(
        runner::finish(u32::MAX).1,
        "QEMU exited with guest code 0x7fffffff → host exit 2"
    );
}

#[test]
fn machine_arguments() {
    assert_eq!(runner::serial_arg(4444), "tcp:127.0.0.1:4444,server=on,wait=on");
    assert_eq!(
        runner::qemu_args("kairos.img", 4444).join(" "),
        "-drive format=raw,file=kairos.img -serial tcp:127.0.0.1:4444,server=on,wait=on \
         -display none -device isa-debug-exit,iobase=0xf4,iosize=0x04 -no-reboot -m 256M -smp 1"
    );
}

#[test]
fn the_runner_retries_and_waits() {
    assert_eq!(
        runner::after_failure(0),
        RetryStep { report: true, wait_ms: 25, again: true }
    );
    assert!(!runner::after_failure(24).report);
    assert!(runner::after_failure(25).report);
    assert!(runner::after_failure(198).again);
    assert!(!runner::after_failure(199).again);
    assert!(!runner::after_failure(u32::MAX).again);
    assert_eq!(runner::first_wait(0), 12_000);
    assert_eq!(runner::first_wait(11_999), 1);
    assert_eq!(runner::first_wait(12_000), 0);
    assert_eq!(runner::first_wait(u64::MAX), 0);
}
