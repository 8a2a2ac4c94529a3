//! Realtime deadline demo: runs with a deadline under earliest-deadline-first.
//! Prints a DEADLINE MISS marker whenever it fails to wake on time, so that
//! the (mis)behaviour is observable in the serial log.

use vstd::prelude::*;
use crate::text;
use crate::user;

verus! {

/// One of the two demo tasks.
#[derive(Clone, Copy, PartialEq, Eq, Debug, Structural)]
pub struct Demo {
    pub pid: u64,
}

/// The period: tasks with an even id take 200 ms, the others 100 ms.
pub open spec fn period_of(pid: u64) -> u64 {
    if pid % 2 == 0 {
        200
    } else {
        100
    }
}

/// The time from one wake-up to the next after which the deadline is missed.
pub open spec fn max_latency_of(pid: u64) -> u64 {
    if pid % 2 == 0 {
        400
    } else {
        220
    }
}

/// The ticks from `t0` to `t1`, on a clock that starts again after its last
/// tick.
pub open spec fn elapsed(t0: u64, t1: u64) -> int {
    (t1 - t0) % 0x1_0000_0000_0000_0000
}

/// What the task prints first, text by text.
pub open spec fn opening(pid: u64) -> Seq<Seq<char>> {
    seq!["deadline: task "@, text::decimal(pid as nat), " running (EDF demo)"@, "\n"@]
}

/// What the task prints when it wakes at the time `t0`, text by text.
pub open spec fn wake_line(pid: u64, t0: u64) -> Seq<Seq<char>> {
    seq![
        "deadline:"@,
        text::decimal(pid as nat),
        " wake @t="@,
        text::decimal(t0 as nat),
        " ms"@,
        "\n"@,
    ]
}

/// What the task prints of a missed deadline, text by text.
pub open spec fn miss_line(pid: u64) -> Seq<Seq<char>> {
    seq![
        "deadline:"@,
        text::decimal(pid as nat),
        " DEADLINE MISS (latency exceeds budget)"@,
        "\n"@,
    ]
}

/// Starts the task; and what it prints.
pub fn start(pid: u64) -> (r: (Demo, Vec<String>))
    ensures
        r.0.pid == pid,
        text::views(r.1@) == opening(pid),
{
    let mut out = text::no_lines();
    text::push_line(&mut out, String::from_str("deadline: task "));
    text::push_line(&mut out, user::print_num(pid));
    text::push_line(&mut out, String::from_str(" running (EDF demo)"));
    text::push_line(&mut out, String::from_str("\n"));
    (Demo { pid }, out)
}

impl Demo {
    /// Milliseconds that the task sleeps for.
    pub fn period(&self) -> (r: u64)
        ensures
            r == period_of(self.pid),
    {
        if self.pid % 2 == 0 {
            200
        } else {
            100
        }
    }

    pub fn max_latency(&self) -> (r: u64)
        ensures
            r == max_latency_of(self.pid),
    {
        if self.period() == 200 {
            400
        } else {
            220
        }
    }

    /// The task wakes at the time `t0`: what it prints before it sleeps.
    pub fn wake(&self, t0: u64) -> (out: Vec<String>)
        ensures
            text::views(out@) == wake_line(self.pid, t0),
    {
        let mut out = text::no_lines();
        text::push_line(&mut out, String::from_str("deadline:"));
        text::push_line(&mut out, user::print_num(self.pid));
        text::push_line(&mut out, String::from_str(" wake @t="));
        text::push_line(&mut out, user::print_num(t0));
        text::push_line(&mut out, String::from_str(" ms"));
        text::push_line(&mut out, String::from_str("\n"));
        out
    }

    /// The task went to sleep at `t0` and runs again at `t1`: what it prints.
    pub fn woke(&self, t0: u64, t1: u64) -> (out: Vec<String>)
        ensures
            text::views(out@) == (if elapsed(t0, t1) > max_latency_of(self.pid) {
                miss_line(self.pid)
            } else {
                Seq::empty()
            }),
    {
        let mut out = text::no_lines();
        if t1.wrapping_sub(t0) > self.max_latency() {
            text::push_line(&mut out, String::from_str("deadline:"));
            text::push_line(&mut out, user::print_num(self.pid));
            text::push_line(
                &mut out,
                String::from_str(" DEADLINE MISS (latency exceeds budget)"),
            );
            text::push_line(&mut out, String::from_str("\n"));
        }
        out
    }
}

/// The two kinds of task: those with an even id wake every 200 ms and may take
/// 400 ms from one wake-up to the next, the others every 100 ms and 220 ms.
pub proof fn law_periods(pid: u64)
    ensures
        pid % 2 == 0 ==> period_of(pid) == 200 && max_latency_of(pid) == 400,
        pid % 2 == 1 ==> period_of(pid) == 100 && max_latency_of(pid) == 220,
{
}

/// The time that has passed from `t0` to `t1` leads from the one to the other on
/// a clock of 64 bits, and a task that wakes after its period has missed
/// nothing.
pub proof fn law_elapsed(t0: u64, t1: u64, pid: u64)
    ensures
        0 <= elapsed(t0, t1) <= u64::MAX,
        (t0 + elapsed(t0, t1)) % 0x1_0000_0000_0000_0000 == t1,
        t0 <= t1 ==> elapsed(t0, t1) == t1 - t0,
        t1 == t0 + period_of(pid) ==> elapsed(t0, t1) <= max_latency_of(pid),
{
}

/// What a task prints shows its id and the time, each in decimal digits from
/// which it is read back.
pub proof fn law_lines_show_the_numbers(pid: u64, t0: u64)
    ensures
        opening(pid).len() == 4,
        text::value(opening(pid)[1], 10) == pid,
        wake_line(pid, t0).len() == 6,
        wake_line(pid, t0)[0] == "deadline:"@,
        text::value(wake_line(pid, t0)[1], 10) == pid,
        wake_line(pid, t0)[2] == " wake @t="@,
        text::value(wake_line(pid, t0)[3], 10) == t0,
        miss_line(pid).len() == 4,
        miss_line(pid)[0] == "deadline:"@,
        text::value(miss_line(pid)[1], 10) == pid,
        miss_line(pid)[2] == " DEADLINE MISS (latency exceeds budget)"@,
{
    text::law_decimal_reads_back(pid as nat);
    text::law_decimal_reads_back(t0 as nat);
}

} // verus!
