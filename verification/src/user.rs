//! User side of the syscall interface: what every ring-3 program links.
//!
//! A function for a syscall gives the registers to make it with. The number
//! and the arguments are those that [`crate::kernel::syscall`] takes apart,
//! with the syscall numbers of [`crate::config`] as the one source of truth.
//! The programs stand in the modules below: each says what it asks of the
//! kernel next, given what came back.

use vstd::prelude::*;
use crate::config::{
    SYS_CH_CLOSE, SYS_CH_CREATE, SYS_EXIT, SYS_GETPID, SYS_PRINT, SYS_RECV, SYS_RECV_FRAME,
    SYS_SEND, SYS_SEND_FRAME, SYS_SLEEP, SYS_SPAWN, SYS_TIME, SYS_YIELD,
};
use crate::ipc::MESSAGE_SIZE;
use crate::kernel::syscall;
use crate::kernel::syscall::{UserRead, PRINT_MAX};
use crate::text;

pub mod counter;
pub mod deadline;
pub mod echo_client;
pub mod echo_server;
pub mod hello;

verus! {

/// The registers of a syscall: its number and its arguments.
#[derive(Clone, Copy, PartialEq, Eq, Debug, Structural)]
pub struct Call {
    pub num: u64,
    pub a0: u64,
    pub a1: u64,
    pub a2: u64,
    pub a3: u64,
}

/// The syscall `num` with three arguments.
pub open spec fn call(num: u64, a0: u64, a1: u64, a2: u64) -> Call {
    Call { num, a0, a1, a2, a3: 0 }
}

/// Terminates the task. It does not return from this call.
pub fn exit(code: u64) -> (r: Call)
    ensures
        r == call(SYS_EXIT, code, 0, 0),
{
    Call { num: SYS_EXIT, a0: code, a1: 0, a2: 0, a3: 0 }
}

/// Cooperative yield (back behind all ready tasks).
pub fn yield_now() -> (r: Call)
    ensures
        r == call(SYS_YIELD, 0, 0, 0),
{
    Call { num: SYS_YIELD, a0: 0, a1: 0, a2: 0, a3: 0 }
}

/// Sleeps for `ms` milliseconds (measured in scheduler ticks).
pub fn sleep(ms: u64) -> (r: Call)
    ensures
        r == call(SYS_SLEEP, ms, 0, 0),
{
    Call { num: SYS_SLEEP, a0: ms, a1: 0, a2: 0, a3: 0 }
}

/// Prints the `len` bytes of text at `at` to the serial console.
pub fn print(at: u64, len: u64) -> (r: Call)
    ensures
        r == call(SYS_PRINT, at, len, 0),
{
    Call { num: SYS_PRINT, a0: at, a1: len, a2: 0, a3: 0 }
}

/// The texts that are printed, one after the other, for a line.
pub fn println(s: &str) -> (r: Vec<String>)
    ensures
        text::views(r@) == seq![s@, "\n"@],
{
    let mut out = text::no_lines();
    text::push_line(&mut out, String::from_str(s));
    text::push_line(&mut out, String::from_str("\n"));
    out
}

/// The text that is printed for an unsigned integer.
pub fn print_num(v: u64) -> (r: String)
    ensures
        r@ == text::decimal(v as nat),
{
    text::number(v)
}

/// Current task id.
pub fn getpid() -> (r: Call)
    ensures
        r == call(SYS_GETPID, 0, 0, 0),
{
    Call { num: SYS_GETPID, a0: 0, a1: 0, a2: 0, a3: 0 }
}

/// Kernel uptime in ms.
pub fn time_ms() -> (r: Call)
    ensures
        r == call(SYS_TIME, 0, 0, 0),
{
    Call { num: SYS_TIME, a0: 0, a1: 0, a2: 0, a3: 0 }
}

/// Asks the kernel to spawn the program whose name is the `len` bytes at `at`.
/// The result is the new task id, or 0 when the caller lacks the spawn
/// capability (user tasks are denied by default).
pub fn spawn(at: u64, len: u64) -> (r: Call)
    ensures
        r == call(SYS_SPAWN, at, len, 0),
{
    Call { num: SYS_SPAWN, a0: at, a1: len, a2: 0, a3: 0 }
}

/// Creates a channel; [`slot_from`] makes a slot of the result.
pub fn ch_create() -> (r: Call)
    ensures
        r == call(SYS_CH_CREATE, 0, 0, 0),
{
    Call { num: SYS_CH_CREATE, a0: 0, a1: 0, a2: 0, a3: 0 }
}

/// The capability slot, counted from 1, in the result of a channel creation
/// (0 is failure), or in the argument of a program.
pub fn slot_from(r: u64) -> (slot: u16)
    ensures
        slot == r % 65536,
{
    (r % 65536) as u16
}

/// Closes a channel capability (the slot is counted from 1).
pub fn ch_close(slot: u16) -> (r: Call)
    ensures
        r == call(SYS_CH_CLOSE, slot as u64, 0, 0),
{
    Call { num: SYS_CH_CLOSE, a0: slot as u64, a1: 0, a2: 0, a3: 0 }
}

/// Sends the message at `msg` (blocking when the channel is full). The result
/// is 1 on success.
pub fn send(slot: u16, msg: u64) -> (r: Call)
    ensures
        r == call(SYS_SEND, slot as u64, msg, 0),
{
    Call { num: SYS_SEND, a0: slot as u64, a1: msg, a2: 0, a3: 0 }
}

/// Receives a message (blocking when the channel is empty). The kernel copies
/// it to `buf`. The result is 1 on success.
pub fn recv(slot: u16, buf: u64) -> (r: Call)
    ensures
        r == call(SYS_RECV, slot as u64, buf, 0),
{
    Call { num: SYS_RECV, a0: slot as u64, a1: buf, a2: 0, a3: 0 }
}

/// Sends a shared-memory frame group of `size` bytes (zero-copy payload). The
/// receiver gets a capability to the same physical frames.
pub fn send_frame(slot: u16, size: u64, tag: u16) -> (r: Call)
    ensures
        r == call(SYS_SEND_FRAME, slot as u64, size, tag as u64),
{
    Call { num: SYS_SEND_FRAME, a0: slot as u64, a1: size, a2: tag as u64, a3: 0 }
}

/// Receives a shared frame; the capability message lands at `buf`, and the
/// result is the window address where the payload lives (zero-copy).
pub fn recv_frame(slot: u16, buf: u64) -> (r: Call)
    ensures
        r == call(SYS_RECV_FRAME, slot as u64, buf, 0),
{
    Call { num: SYS_RECV_FRAME, a0: slot as u64, a1: buf, a2: 0, a3: 0 }
}

// ---------------------------------------------------------------------------
// Panics
// ---------------------------------------------------------------------------

/// Bytes of a panic message that are printed at most.
pub const PANIC_MAX: usize = 160;

/// The first `n` bytes, or all.
pub open spec fn first(b: Seq<u8>, n: int) -> Seq<u8> {
    if b.len() <= n {
        b
    } else {
        b.take(n)
    }
}

/// What is printed of a panic message: as many bytes of it as fit; `?` if a
/// character is cut in two there.
pub open spec fn panic_bytes(message: Seq<char>) -> Seq<u8> {
    let b = first(vstd::utf8::encode_utf8(message), PANIC_MAX as int);
    if vstd::utf8::valid_utf8(b) {
        b
    } else {
        vstd::utf8::encode_utf8("?"@)
    }
}

/// A prefix of well-formed text is well-formed exactly where no character is
/// cut in two.
proof fn lemma_prefix(b: Seq<u8>, n: int)
    requires
        vstd::utf8::valid_utf8(b),
        0 <= n <= b.len(),
    ensures
        vstd::utf8::valid_utf8(b.take(n)) <==> vstd::utf8::is_char_boundary(b, n),
    decreases b.len(),
{
    if vstd::utf8::is_char_boundary(b, n) {
        vstd::utf8::valid_utf8_split(b, n);
        assert(b.subrange(0, n) =~= b.take(n));
    }
    if vstd::utf8::valid_utf8(b.take(n)) && n > 0 {
        let p = b.take(n);
        let k = vstd::utf8::length_of_first_scalar(p);
        assert(vstd::utf8::valid_first_scalar(p));
        assert(k == vstd::utf8::length_of_first_scalar(b));
        assert(1 <= k <= n);
        assert(vstd::utf8::pop_first_scalar(p) =~= vstd::utf8::pop_first_scalar(b).take(n - k));
        lemma_prefix(vstd::utf8::pop_first_scalar(b), n - k);
    }
}

/// What a program that panicked prints.
pub fn panic_text(message: &str) -> (r: Vec<u8>)
    ensures
        r@ == vstd::utf8::encode_utf8("USER PANIC: "@) + panic_bytes(message@)
            + vstd::utf8::encode_utf8("\n"@),
{
    let mut out: Vec<u8> = Vec::new();
    let all = message.as_bytes();
    proof {
        vstd::utf8::encode_utf8_valid_utf8(message@);
    }
    let ghost b = vstd::utf8::encode_utf8(message@);
    out.extend_from_slice("USER PANIC: ".as_bytes());
    if all.len() <= PANIC_MAX {
        out.extend_from_slice(all);
    } else {
        proof {
            lemma_prefix(b, PANIC_MAX as int);
            assert(b.subrange(0, PANIC_MAX as int) =~= b.take(PANIC_MAX as int));
        }
        if message.is_char_boundary(PANIC_MAX) {
            out.extend_from_slice(vstd::slice::slice_subrange(all, 0, PANIC_MAX));
        } else {
            out.extend_from_slice("?".as_bytes());
        }
    }
    out.extend_from_slice("\n".as_bytes());
    proof {
        assert(out@ =~= vstd::utf8::encode_utf8("USER PANIC: "@) + panic_bytes(message@)
            + vstd::utf8::encode_utf8("\n"@));
    }
    out
}

// ---------------------------------------------------------------------------
// Laws
// ---------------------------------------------------------------------------

/// The kernel reads the text that a program prints where the program says it
/// is, up to the most that one print writes.
pub proof fn law_printed_text_is_read(at: u64, len: u64)
    requires
        syscall::ptr_ok(at, syscall::at_most(len, PRINT_MAX) as int),
    ensures
        ({
            let c = call(SYS_PRINT, at, len, 0);
            syscall::needed(c.num, c.a0, c.a1) == Some(
                UserRead { at, len: syscall::at_most(len, PRINT_MAX) as usize },
            )
        }),
{
}

/// The kernel reads the message that a program sends where the program says it
/// is.
pub proof fn law_sent_message_is_read(slot: u16, msg: u64)
    requires
        syscall::ptr_ok(msg, MESSAGE_SIZE as int),
    ensures
        ({
            let c = call(SYS_SEND, slot as u64, msg, 0);
            syscall::needed(c.num, c.a0, c.a1) == Some(UserRead { at: msg, len: MESSAGE_SIZE })
        }),
{
}

/// The slot that a program names in a call is, counted from 0, the one that
/// the kernel looks up.
pub proof fn law_slots_agree(slot: u16)
    requires
        slot > 0,
    ensures
        syscall::slot_named(slot as u64) == slot - 1,
{
}

/// A call carries its number and its arguments as they are, and no fourth one.
pub proof fn law_calls_carry_their_arguments(num: u64, a0: u64, a1: u64, a2: u64)
    ensures
        call(num, a0, a1, a2).num == num,
        call(num, a0, a1, a2).a0 == a0,
        call(num, a0, a1, a2).a1 == a1,
        call(num, a0, a1, a2).a2 == a2,
        call(num, a0, a1, a2).a3 == 0,
{
}

/// A panic message of up to 160 bytes is printed whole; of a longer one the
/// first 160 bytes are, if no character is cut in two there, and a question mark
/// otherwise.
pub proof fn law_panic_message(message: Seq<char>)
    ensures
        ({
            let b = vstd::utf8::encode_utf8(message);
            &&& b.len() <= 160 ==> panic_bytes(message) == b
            &&& b.len() > 160 && vstd::utf8::is_char_boundary(b, 160) ==> panic_bytes(message)
                == b.take(160)
            &&& b.len() > 160 && !vstd::utf8::is_char_boundary(b, 160) ==> panic_bytes(message)
                == vstd::utf8::encode_utf8("?"@)
        }),
{
    vstd::utf8::encode_utf8_valid_utf8(message);
    let b = vstd::utf8::encode_utf8(message);
    if b.len() > 160 {
        lemma_prefix(b, 160);
    }
}

} // verus!
