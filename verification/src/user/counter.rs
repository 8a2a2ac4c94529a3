//! Periodic counter: demonstrates preemption, sleep and (indirectly) the
//! scheduler's fairness. Every task gets CPU time, even while the counter
//! loops forever.

use vstd::prelude::*;
use crate::text;
use crate::user;

verus! {

/// Milliseconds between two lines.
pub const PERIOD_MS: u64 = 500;

/// The counter.
pub struct Counter {
    /// Lines printed so far.
    pub n: u64,
}

/// What the program prints first, text by text.
pub open spec fn opening(pid: u64) -> Seq<Seq<char>> {
    seq!["counter: start, pid="@, text::decimal(pid as nat), ""@, "\n"@]
}

/// What the program prints at the time `now`, text by text.
pub open spec fn count_line(n: u64, now: u64) -> Seq<Seq<char>> {
    seq![
        "counter:"@,
        text::decimal(n as nat),
        " @t="@,
        text::decimal(now as nat),
        " ms"@,
        "\n"@,
    ]
}

/// Starts the counter; and what it prints.
pub fn start(pid: u64) -> (r: (Counter, Vec<String>))
    ensures
        r.0.n == 0,
        text::views(r.1@) == opening(pid),
{
    let mut out = text::no_lines();
    text::push_line(&mut out, String::from_str("counter: start, pid="));
    text::push_line(&mut out, user::print_num(pid));
    text::push_line(&mut out, String::from_str(""));
    text::push_line(&mut out, String::from_str("\n"));
    (Counter { n: 0 }, out)
}

impl Counter {
    /// Counts one: what is printed. Then it sleeps for [`PERIOD_MS`].
    pub fn step(&mut self, now: u64) -> (out: Vec<String>)
        requires
            old(self).n < u64::MAX,
        ensures
            final(self).n == old(self).n + 1,
            text::views(out@) == count_line(old(self).n, now),
    {
        let mut out = text::no_lines();
        text::push_line(&mut out, String::from_str("counter:"));
        text::push_line(&mut out, user::print_num(self.n));
        text::push_line(&mut out, String::from_str(" @t="));
        text::push_line(&mut out, user::print_num(now));
        text::push_line(&mut out, String::from_str(" ms"));
        text::push_line(&mut out, String::from_str("\n"));
        self.n = self.n + 1;
        out
    }
}

/// A line of the counter shows its number and the time, each in decimal digits
/// from which it is read back.
pub proof fn law_lines_show_the_numbers(pid: u64, n: u64, now: u64)
    ensures
        opening(pid).len() == 4,
        opening(pid)[0] == "counter: start, pid="@,
        text::value(opening(pid)[1], 10) == pid,
        count_line(n, now).len() == 6,
        count_line(n, now)[0] == "counter:"@,
        text::value(count_line(n, now)[1], 10) == n,
        count_line(n, now)[2] == " @t="@,
        text::value(count_line(n, now)[3], 10) == now,
        count_line(n, now)[5] == "\n"@,
{
    text::law_decimal_reads_back(pid as nat);
    text::law_decimal_reads_back(n as nat);
    text::law_decimal_reads_back(now as nat);
}

} // verus!
