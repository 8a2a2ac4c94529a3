//! IPC demo, echo server: receives messages and echoes them back.

use vstd::prelude::*;
use crate::ipc::{Message, MsgKind};
use crate::text;
use crate::user;

verus! {

/// Consecutive receive failures that make the server give up: a healthy
/// session never fails, a missing channel does.
pub const MAX_CONSECUTIVE_FAILS: u64 = 16;

/// Milliseconds to back off for after a failure.
pub const BACKOFF_MS: u64 = 100;

/// The server.
#[derive(Clone, Copy, PartialEq, Eq, Debug, Structural)]
pub struct EchoServer {
    /// The capability slot of the channel, counted from 1.
    pub slot: u16,
    /// Receives that failed in a row.
    pub fails: u64,
}

/// What the server does after a receive.
#[derive(Debug)]
pub enum Received {
    /// Print these texts, then send the message back if it is said.
    Got(Vec<String>, bool),
    /// Sleep for so many milliseconds and receive again.
    Retry(u64),
    /// Print these texts and exit with code 0.
    GiveUp(Vec<String>),
}

/// What the server prints when it gives up, text by text.
pub open spec fn last_words() -> Seq<Seq<char>> {
    seq!["echo_server: no working channel (use the shell's `ipcdemo`); exiting"@, "\n"@]
}

/// What the server prints of a message, text by text.
pub open spec fn got_line(m: Message) -> Seq<Seq<char>> {
    seq![
        "echo_server: got #"@,
        text::decimal(m.tag as nat),
        "  payload[0]="@,
        text::decimal(m.words@[0] as nat),
        ""@,
        "\n"@,
    ]
}

/// After a receive of `msg` with the result `r` the server is `t` and does
/// `next`.
pub open spec fn goes_on(s: EchoServer, t: EchoServer, r: u64, msg: Message, next: Received)
    -> bool {
    &&& t == s.after_receive(r)
    &&& match next {
        Received::Got(out, reply) => r == 1 && text::views(out@) == got_line(msg) && reply == (
        msg.kind == MsgKind::Data),
        Received::Retry(ms) => r != 1 && !t.hopeless() && ms == BACKOFF_MS,
        Received::GiveUp(out) => r != 1 && t.hopeless() && text::views(out@) == last_words(),
    }
}

impl EchoServer {
    /// Counts the failures in a row: a receive with the result `r` was made.
    pub open spec fn after_receive(self, r: u64) -> EchoServer {
        EchoServer {
            fails: if r == 1 {
                0
            } else {
                (self.fails + 1) as u64
            },
            ..self
        }
    }

    /// The server has failed too often in a row.
    pub open spec fn hopeless(self) -> bool {
        self.fails >= MAX_CONSECUTIVE_FAILS
    }

    /// Starts a server, with the argument of the program; and what it prints.
    pub fn start(arg: u64) -> (r: (EchoServer, Vec<String>))
        ensures
            r.0 == (EchoServer { slot: (arg % 65536) as u16, fails: 0 }),
            text::views(r.1@) == seq!["echo_server: ready"@, "\n"@],
    {
        (
            EchoServer { slot: user::slot_from(arg), fails: 0 },
            user::println("echo_server: ready"),
        )
    }

    /// A receive with the result `r` was made into `msg`.
    pub fn received(&mut self, r: u64, msg: &Message) -> (next: Received)
        requires
            !old(self).hopeless(),
        ensures
            goes_on(*old(self), *final(self), r, *msg, next),
    {
        if r != 1 {
            self.fails = self.fails + 1;
            if self.fails >= MAX_CONSECUTIVE_FAILS {
                return Received::GiveUp(
                    user::println(
                        "echo_server: no working channel (use the shell's `ipcdemo`); exiting",
                    ),
                );
            }
            return Received::Retry(BACKOFF_MS);
        }
        self.fails = 0;
        let mut out = text::no_lines();
        text::push_line(&mut out, String::from_str("echo_server: got #"));
        text::push_line(&mut out, user::print_num(msg.tag as u64));
        text::push_line(&mut out, String::from_str("  payload[0]="));
        text::push_line(&mut out, user::print_num(msg.words[0]));
        text::push_line(&mut out, String::from_str(""));
        text::push_line(&mut out, String::from_str("\n"));
        proof {
            assert(text::views(out@) =~= got_line(*msg));
        }
        Received::Got(out, msg.kind == MsgKind::Data)
    }
}

/// The server after receives with these results.
pub open spec fn after_receives(s: EchoServer, results: Seq<u64>) -> EchoServer
    decreases results.len(),
{
    if results.len() == 0 {
        s
    } else {
        after_receives(s, results.drop_last()).after_receive(results.last())
    }
}

/// A server gives up after as many failures in a row as its cap says, and not
/// before.
pub proof fn law_server_gives_up_at_the_cap(s: EchoServer, results: Seq<u64>)
    requires
        s.fails == 0,
        results.len() <= MAX_CONSECUTIVE_FAILS,
        forall|i: int| 0 <= i < results.len() ==> #[trigger] results[i] != 1,
    ensures
        after_receives(s, results).fails == results.len(),
        after_receives(s, results).hopeless() <==> results.len() == MAX_CONSECUTIVE_FAILS,
    decreases results.len(),
{
    if results.len() > 0 {
        let short = results.drop_last();
        assert forall|i: int| 0 <= i < short.len() implies #[trigger] short[i] != 1 by {
            assert(results[i] != 1);
        }
        law_server_gives_up_at_the_cap(s, short);
        assert(results[results.len() - 1] != 1);
    }
}

/// What a receive makes of the count of failures: one more after a failure,
/// none after a success; nothing else of the server changes. It is without hope
/// from the sixteenth failure in a row on.
pub proof fn law_failures_are_counted(s: EchoServer, r: u64)
    requires
        s.fails < u64::MAX,
    ensures
        r == 1 ==> s.after_receive(r).fails == 0,
        r != 1 ==> s.after_receive(r).fails == s.fails + 1,
        s.after_receive(r).slot == s.slot,
        s.hopeless() <==> s.fails >= 16,
{
}

/// What the server prints of a message shows its tag and its first word, each
/// in decimal digits from which it is read back.
pub proof fn law_line_shows_the_message(m: Message)
    ensures
        got_line(m).len() == 6,
        text::value(got_line(m)[1], 10) == m.tag,
        got_line(m)[2] == "  payload[0]="@,
        text::value(got_line(m)[3], 10) == m.words@[0],
{
    text::law_decimal_reads_back(m.tag as nat);
    text::law_decimal_reads_back(m.words@[0] as nat);
}

/// What the server does after a receive: it prints the message exactly if the
/// receive worked, and sends it back exactly if it is data; it gives up exactly
/// with the sixteenth failure in a row; and otherwise it waits for 100
/// milliseconds.
pub proof fn law_after_a_receive(
    s: EchoServer,
    t: EchoServer,
    r: u64,
    msg: Message,
    next: Received,
)
    requires
        goes_on(s, t, r, msg, next),
        s.fails < 16,
    ensures
        next is Got <==> r == 1,
        next matches Received::Got(out, reply) ==> reply == (msg.kind == MsgKind::Data)
            && text::views(out@) == got_line(msg),
        next is GiveUp <==> r != 1 && s.fails == 15,
        next is Retry ==> next->Retry_0 == 100,
        t.fails == (if r == 1 {
            0
        } else {
            s.fails + 1
        }),
        t.slot == s.slot,
{
}

/// The last words are one line.
pub proof fn law_last_words()
    ensures
        last_words().len() == 2,
        last_words()[0] == "echo_server: no working channel (use the shell's `ipcdemo`); exiting"@,
        last_words()[1] == "\n"@,
{
}

} // verus!
