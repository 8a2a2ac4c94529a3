//! First user program: prints its pid and exits.

use vstd::prelude::*;
use crate::text;
use crate::user;

verus! {

/// The texts that the program prints, one after the other, before it exits
/// with code 0.
pub open spec fn greeting(pid: u64) -> Seq<Seq<char>> {
    seq![
        "hello: Hello from ring 3!"@,
        "\n"@,
        "hello: pid="@,
        text::decimal(pid as nat),
        " — first user-space program on Kairos"@,
        "\n"@,
    ]
}

/// What the program prints.
pub fn output(pid: u64) -> (out: Vec<String>)
    ensures
        text::views(out@) == greeting(pid),
{
    let mut out = user::println("hello: Hello from ring 3!");
    text::push_line(&mut out, String::from_str("hello: pid="));
    text::push_line(&mut out, user::print_num(pid));
    text::push_line(&mut out, String::from_str(" — first user-space program on Kairos"));
    text::push_line(&mut out, String::from_str("\n"));
    out
}

/// The greeting tells the id of the task, in decimal digits from which it is
/// read back.
pub proof fn law_greeting_tells_the_pid(pid: u64)
    ensures
        greeting(pid).len() == 6,
        greeting(pid)[2] == "hello: pid="@,
        text::value(greeting(pid)[3], 10) == pid,
{
    text::law_decimal_reads_back(pid as nat);
}

} // verus!
