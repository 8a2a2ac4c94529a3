//! IPC demo, echo client: pings the server and prints the echo round trip.

use vstd::prelude::*;
use crate::ipc::{Message, MsgKind, Word, MSG_WORDS};
use crate::text;
use crate::user;

verus! {

/// Consecutive send failures that make the client give up. A healthy echo
/// session never fails a send (the server drains as fast as the client
/// produces); only a missing or broken channel fails repeatedly, so a bounded
/// cap turns that into a clean diagnostic exit instead of an infinite retry
/// flood.
pub const MAX_CONSECUTIVE_FAILS: u64 = 16;

/// Milliseconds to back off for, so that a temporarily full channel can drain.
pub const BACKOFF_MS: u64 = 100;

/// Milliseconds between two pings.
pub const PERIOD_MS: u64 = 1000;

/// The client.
#[derive(Clone, Copy, PartialEq, Eq, Debug, Structural)]
pub struct EchoClient {
    /// The capability slot of the channel, counted from 1.
    pub slot: u16,
    /// Pings that were answered, or not.
    pub n: u64,
    /// Sends that failed in a row.
    pub fails: u64,
}

/// What the client does after a send.
#[derive(Debug)]
pub enum Sent {
    /// Receive the echo.
    Receive,
    /// Sleep for so many milliseconds and send again.
    Retry(u64),
    /// Print these texts and exit with code 0.
    GiveUp(Vec<String>),
}

/// What the client prints when it gives up, text by text.
pub open spec fn last_words() -> Seq<Seq<char>> {
    seq!["echo_client: no working channel (use the shell's `ipcdemo`); exiting"@, "\n"@]
}

/// What the client prints of an echo, text by text.
pub open spec fn echo_line(n: u64, payload: u64) -> Seq<Seq<char>> {
    seq![
        "echo_client: round trip #"@,
        text::decimal(n as nat),
        " ok, echo payload="@,
        text::decimal(payload as nat),
        ""@,
        "\n"@,
    ]
}

/// What the client prints of a receive that failed, text by text.
pub open spec fn fail_line(n: u64) -> Seq<Seq<char>> {
    seq!["echo_client: recv#"@, text::decimal(n as nat), " failed"@, "\n"@]
}

/// After a send with the result `r` the client is `d` and does `next`.
pub open spec fn goes_on(c: EchoClient, d: EchoClient, r: u64, next: Sent) -> bool {
    &&& d == c.after_send(r)
    &&& match next {
        Sent::Receive => r == 1,
        Sent::Retry(ms) => r != 1 && !d.hopeless() && ms == BACKOFF_MS,
        Sent::GiveUp(out) => r != 1 && d.hopeless() && text::views(out@) == last_words(),
    }
}

/// The message is the ping number `n`.
pub open spec fn is_ping(m: Message, n: u64) -> bool {
    &&& m.tag == n % 65536
    &&& m.kind == MsgKind::Data
    &&& forall|i: int| 0 <= i < MSG_WORDS ==> #[trigger] m.words@[i] == n
}

impl EchoClient {
    /// Counts the failures in a row: a send with the result `r` was made.
    pub open spec fn after_send(self, r: u64) -> EchoClient {
        EchoClient {
            fails: if r == 1 {
                0
            } else {
                (self.fails + 1) as u64
            },
            ..self
        }
    }

    /// The client has failed too often in a row.
    pub open spec fn hopeless(self) -> bool {
        self.fails >= MAX_CONSECUTIVE_FAILS
    }

    /// Starts a client, with the argument of the program; and what it prints.
    pub fn start(arg: u64) -> (r: (EchoClient, Vec<String>))
        ensures
            r.0 == (EchoClient { slot: (arg % 65536) as u16, n: 0, fails: 0 }),
            text::views(r.1@) == seq!["echo_client: starting"@, "\n"@],
    {
        let client = EchoClient { slot: user::slot_from(arg), n: 0, fails: 0 };
        (client, user::println("echo_client: starting"))
    }

    /// The message of the next ping: its number in every word, and in the tag
    /// as far as it fits.
    pub fn ping(&self) -> (m: Message)
        ensures
            is_ping(m, self.n),
    {
        let words: [Word; MSG_WORDS] = [self.n; MSG_WORDS];
        Message::data((self.n % 65536) as u16, words)
    }

    /// The ping was sent, with the result `r`.
    pub fn sent(&mut self, r: u64) -> (next: Sent)
        requires
            !old(self).hopeless(),
        ensures
            goes_on(*old(self), *final(self), r, next),
    {
        if r != 1 {
            self.fails = self.fails + 1;
            if self.fails >= MAX_CONSECUTIVE_FAILS {
                return Sent::GiveUp(
                    user::println(
                        "echo_client: no working channel (use the shell's `ipcdemo`); exiting",
                    ),
                );
            }
            return Sent::Retry(BACKOFF_MS);
        }
        self.fails = 0;
        Sent::Receive
    }

    /// A receive with the result `r` was made into `msg`: what is printed. Then
    /// the client sleeps for [`PERIOD_MS`].
    pub fn received(&mut self, r: u64, msg: &Message) -> (out: Vec<String>)
        requires
            old(self).n < u64::MAX,
        ensures
            *final(self) == (EchoClient { n: (old(self).n + 1) as u64, ..*old(self) }),
            text::views(out@) == (if r == 1 {
                echo_line(old(self).n, msg.words@[0])
            } else {
                fail_line(old(self).n)
            }),
    {
        let mut out = text::no_lines();
        if r == 1 {
            text::push_line(&mut out, String::from_str("echo_client: round trip #"));
            text::push_line(&mut out, user::print_num(self.n));
            text::push_line(&mut out, String::from_str(" ok, echo payload="));
            text::push_line(&mut out, user::print_num(msg.words[0]));
            text::push_line(&mut out, String::from_str(""));
            text::push_line(&mut out, String::from_str("\n"));
        } else {
            text::push_line(&mut out, String::from_str("echo_client: recv#"));
            text::push_line(&mut out, user::print_num(self.n));
            text::push_line(&mut out, String::from_str(" failed"));
            text::push_line(&mut out, String::from_str("\n"));
        }
        self.n = self.n + 1;
        out
    }
}

/// The client after sends with these results.
pub open spec fn after_sends(c: EchoClient, results: Seq<u64>) -> EchoClient
    decreases results.len(),
{
    if results.len() == 0 {
        c
    } else {
        after_sends(c, results.drop_last()).after_send(results.last())
    }
}

/// A client gives up after as many failures in a row as its cap says, and not
/// before.
pub proof fn law_client_gives_up_at_the_cap(c: EchoClient, results: Seq<u64>)
    requires
        c.fails == 0,
        results.len() <= MAX_CONSECUTIVE_FAILS,
        forall|i: int| 0 <= i < results.len() ==> #[trigger] results[i] != 1,
    ensures
        after_sends(c, results).fails == results.len(),
        after_sends(c, results).hopeless() <==> results.len() == MAX_CONSECUTIVE_FAILS,
    decreases results.len(),
{
    if results.len() > 0 {
        let short = results.drop_last();
        assert forall|i: int| 0 <= i < short.len() implies #[trigger] short[i] != 1 by {
            assert(results[i] != 1);
        }
        law_client_gives_up_at_the_cap(c, short);
        assert(results[results.len() - 1] != 1);
    }
}

/// One send that works makes the client forget the failures before it.
pub proof fn law_success_resets_the_client(c: EchoClient)
    ensures
        c.after_send(1).fails == 0,
        !c.after_send(1).hopeless(),
{
}

/// What a send makes of the count of failures: one more after a failure, none
/// after a success; nothing else of the client changes. It is without hope from
/// the sixteenth failure in a row on.
pub proof fn law_failures_are_counted(c: EchoClient, r: u64)
    requires
        c.fails < u64::MAX,
    ensures
        r == 1 ==> c.after_send(r).fails == 0,
        r != 1 ==> c.after_send(r).fails == c.fails + 1,
        c.after_send(r).slot == c.slot && c.after_send(r).n == c.n,
        c.hopeless() <==> c.fails >= 16,
{
}

/// What the client prints of an echo shows the number of the ping and the
/// payload, each in decimal digits from which it is read back.
pub proof fn law_lines_show_the_numbers(n: u64, payload: u64)
    ensures
        echo_line(n, payload).len() == 6,
        text::value(echo_line(n, payload)[1], 10) == n,
        echo_line(n, payload)[2] == " ok, echo payload="@,
        text::value(echo_line(n, payload)[3], 10) == payload,
        fail_line(n).len() == 4,
        text::value(fail_line(n)[1], 10) == n,
        fail_line(n)[2] == " failed"@,
{
    text::law_decimal_reads_back(n as nat);
    text::law_decimal_reads_back(payload as nat);
}

/// What the client does after a send: it receives exactly if the send worked; it
/// gives up exactly with the sixteenth failure in a row; and otherwise it waits
/// for 100 milliseconds.
pub proof fn law_after_a_send(c: EchoClient, d: EchoClient, r: u64, next: Sent)
    requires
        goes_on(c, d, r, next),
        c.fails < 16,
    ensures
        next is Receive <==> r == 1,
        next is GiveUp <==> r != 1 && c.fails == 15,
        next is Retry ==> next->Retry_0 == 100,
        d.fails == (if r == 1 {
            0
        } else {
            c.fails + 1
        }),
        d.n == c.n && d.slot == c.slot,
{
}

/// Every word of a ping is its number, and the tag its low sixteen bits.
pub proof fn law_pings_are_numbered(m: Message, n: u64, i: int)
    requires
        is_ping(m, n),
        0 <= i < 8,
    ensures
        m.words@[i] == n,
        m.tag == n % 65536,
        m.kind == MsgKind::Data,
{
}

/// The last words are one line.
pub proof fn law_last_words()
    ensures
        last_words().len() == 2,
        last_words()[0] == "echo_client: no working channel (use the shell's `ipcdemo`); exiting"@,
        last_words()[1] == "\n"@,
{
}

} // verus!
