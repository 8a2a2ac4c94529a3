//! QEMU runner: how the machine is started, and what its exit status means.
//!
//! The kernel ends a run by writing a byte to the debug-exit device, which
//! packs it into the exit status of QEMU. Exit codes of the runner:
//! * guest [`EXIT_SUCCESS`]: 0
//! * guest [`EXIT_FAILURE`]: 1
//! * anything else (crash, abort): 2
//!
//! The serial console of the guest is wired to a loopback TCP socket: QEMU
//! listens and waits, and the runner connects before the machine starts, so
//! that no console bytes are lost.

use vstd::prelude::*;
use crate::config::{EXIT_FAILURE, EXIT_SUCCESS};
use crate::text;

verus! {

/// What stands for the guest's code where the exit status of QEMU is not one
/// that the device makes: those are odd.
pub const NO_GUEST_CODE: u32 = 0xFF;

/// The code that the guest wrote, from the exit status of QEMU: the device
/// makes of the code `c` the status `2 * c + 1`.
pub open spec fn guest_code(status: u32) -> u32 {
    if status % 2 == 0 {
        NO_GUEST_CODE
    } else {
        ((status - 1) / 2) as u32
    }
}

/// The exit code of the runner.
pub open spec fn host_code(guest: u32) -> i32 {
    if guest == EXIT_SUCCESS {
        0
    } else if guest == EXIT_FAILURE {
        1
    } else {
        2
    }
}

/// What the runner reports at the end.
pub open spec fn report(guest: u32) -> Seq<char> {
    "QEMU exited with guest code 0x"@ + text::hex(guest as nat, 1) + " → host exit "@
        + text::decimal(host_code(guest) as nat)
}

/// The exit code of the runner for the exit status of QEMU, and what it
/// reports.
pub fn finish(code: u32) -> (r: (i32, String))
    ensures
        r.0 == host_code(guest_code(code)),
        r.0 == 0 <==> code == 2 * EXIT_SUCCESS + 1,
        r.0 == 1 <==> code == 2 * EXIT_FAILURE + 1,
        r.0 == 0 || r.0 == 1 || r.0 == 2,
        r.1@ == report(guest_code(code)),
{
    let guest: u32 = if code % 2 == 0 {
        NO_GUEST_CODE
    } else {
        (code - 1) / 2
    };
    let mapped: i32 = match guest {
        EXIT_SUCCESS => 0,
        EXIT_FAILURE => 1,
        _ => 2,
    };
    let mut s = String::from_str("QEMU exited with guest code 0x");
    text::push_hex(&mut s, guest as u64, 1);
    s.append(" → host exit ");
    text::push_decimal(&mut s, mapped as u64);
    (mapped, s)
}

/// How often the runner tries to connect to the console.
pub const CONNECT_ATTEMPTS: u32 = 200;

/// Milliseconds after which one attempt is given up.
pub const CONNECT_TIMEOUT_MS: u64 = 250;

/// Milliseconds between two attempts.
pub const RETRY_MS: u64 = 25;

/// Of so many failures in a row one is reported, the first of them.
pub const REPORT_EVERY: u32 = 25;

/// Milliseconds until the guest takes console input.
pub const BOOT_MS: u64 = 12_000;

/// What the runner does after it could not connect.
#[derive(Clone, Copy, PartialEq, Eq, Debug, Structural)]
pub struct RetryStep {
    /// The failure is reported.
    pub report: bool,
    /// Milliseconds to wait.
    pub wait_ms: u64,
    /// Another attempt follows.
    pub again: bool,
}

/// What follows the failure of the attempt `attempt`, counted from 0.
pub open spec fn retry_step(attempt: u32) -> RetryStep {
    RetryStep {
        report: attempt % REPORT_EVERY == 0,
        wait_ms: RETRY_MS,
        again: attempt + 1 < CONNECT_ATTEMPTS,
    }
}

/// What follows the failure of the attempt `attempt`, counted from 0.
pub fn after_failure(attempt: u32) -> (r: RetryStep)
    ensures
        r == retry_step(attempt),
{
    RetryStep {
        report: attempt % REPORT_EVERY == 0,
        wait_ms: RETRY_MS,
        again: attempt < CONNECT_ATTEMPTS - 1,
    }
}

/// Milliseconds that the first input waits, `elapsed_ms` after the start: until
/// the guest is up.
pub fn first_wait(elapsed_ms: u64) -> (r: u64)
    ensures
        r == (if elapsed_ms < BOOT_MS {
            BOOT_MS - elapsed_ms
        } else {
            0
        }),
{
    if elapsed_ms < BOOT_MS {
        BOOT_MS - elapsed_ms
    } else {
        0
    }
}

/// The backend of the guest's serial console.
pub open spec fn serial_backend(port: u16) -> Seq<char> {
    "tcp:127.0.0.1:"@ + text::decimal(port as nat) + ",server=on,wait=on"@
}

/// The argument that wires the guest's serial console to a port of this host.
pub fn serial_arg(port: u16) -> (r: String)
    ensures
        r@ == serial_backend(port),
{
    let mut s = String::from_str("tcp:127.0.0.1:");
    text::push_decimal(&mut s, port as u64);
    s.append(",server=on,wait=on");
    s
}

/// The arguments of QEMU, text by text.
pub open spec fn arguments(image: Seq<char>, port: u16) -> Seq<Seq<char>> {
    seq![
        "-drive"@,
        "format=raw,file="@ + image,
        "-serial"@,
        serial_backend(port),
        "-display"@,
        "none"@,
        "-device"@,
        "isa-debug-exit,iobase=0xf4,iosize=0x04"@,
        "-no-reboot"@,
        "-m"@,
        "256M"@,
        "-smp"@,
        "1"@,
    ]
}

/// The arguments of QEMU for a disk image and a console port.
pub fn qemu_args(image: &str, port: u16) -> (r: Vec<String>)
    ensures
        text::views(r@) == arguments(image@, port),
{
    let mut r = text::no_lines();
    text::push_line(&mut r, String::from_str("-drive"));
    let mut drive = String::from_str("format=raw,file=");
    drive.append(image);
    text::push_line(&mut r, drive);
    text::push_line(&mut r, String::from_str("-serial"));
    text::push_line(&mut r, serial_arg(port));
    text::push_line(&mut r, String::from_str("-display"));
    text::push_line(&mut r, String::from_str("none"));
    text::push_line(&mut r, String::from_str("-device"));
    text::push_line(&mut r, String::from_str("isa-debug-exit,iobase=0xf4,iosize=0x04"));
    text::push_line(&mut r, String::from_str("-no-reboot"));
    text::push_line(&mut r, String::from_str("-m"));
    text::push_line(&mut r, String::from_str("256M"));
    text::push_line(&mut r, String::from_str("-smp"));
    text::push_line(&mut r, String::from_str("1"));
    r
}

/// What the guest writes to the debug-exit device comes back from the exit
/// status of QEMU; the kernel's two exit codes become 0 and 1, and no other
/// code does.
pub proof fn law_exit_codes_round_trip(code: u8)
    ensures
        guest_code((2 * code + 1) as u32) == code,
        host_code(code as u32) == 0 <==> code == EXIT_SUCCESS,
        host_code(code as u32) == 1 <==> code == EXIT_FAILURE,
{
}

/// What every exit status of QEMU comes to: 33 and 35 are the two codes of the
/// kernel, success and failure; anything else is a crash.
pub proof fn law_every_status(status: u32)
    ensures
        host_code(guest_code(status)) == (if status == 33 {
            0int
        } else if status == 35 {
            1
        } else {
            2
        }),
        status % 2 == 1 ==> 2 * guest_code(status) + 1 == status,
        status % 2 == 0 ==> guest_code(status) == 0xFF,
{
}

/// The runner tries 200 times, waits 25 milliseconds after each failure, and
/// reports one failure in 25, the first of them.
pub proof fn law_retries(attempt: u32)
    ensures
        retry_step(attempt).again <==> attempt < 199,
        retry_step(attempt).wait_ms == 25,
        retry_step(attempt).report <==> attempt % 25 == 0,
{
}

/// The report ends with the exit code of the runner and holds the guest's code
/// in hexadecimal digits, from which it is read back.
pub proof fn law_report(guest: u32)
    ensures
        ({
            let digits = text::hex(guest as nat, 1);
            &&& report(guest) == "QEMU exited with guest code 0x"@ + digits + " → host exit "@
                + text::decimal(host_code(guest) as nat)
            &&& text::value(digits, 16) == guest
        }),
{
    text::law_hex_reads_back(guest as nat, 1);
}

/// The console of the guest is the port that was asked for, on this host alone,
/// and the machine waits for the connection.
pub proof fn law_serial_backend(port: u16)
    ensures
        serial_backend(port) == "tcp:127.0.0.1:"@ + text::decimal(port as nat)
            + ",server=on,wait=on"@,
        text::value(text::decimal(port as nat), 10) == port,
{
    text::law_decimal_reads_back(port as nat);
}

/// The machine runs the image that was asked for, its console is the port that
/// was asked for, and each option stands before its value.
pub proof fn law_arguments(image: Seq<char>, port: u16)
    ensures
        ({
            let a = arguments(image, port);
            &&& a.len() == 13
            &&& a[0] == "-drive"@ && a[1] == "format=raw,file="@ + image
            &&& a[2] == "-serial"@ && a[3] == serial_backend(port)
            &&& a[4] == "-display"@ && a[5] == "none"@
            &&& a[6] == "-device"@ && a[7] == "isa-debug-exit,iobase=0xf4,iosize=0x04"@
            &&& a[8] == "-no-reboot"@
            &&& a[9] == "-m"@ && a[10] == "256M"@
            &&& a[11] == "-smp"@ && a[12] == "1"@
        }),
{
}

} // verus!
