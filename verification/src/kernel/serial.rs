//! Serial console (COM1): what goes over the line, and what came in.
//!
//! The serial line is the kernel's most trustworthy output: it works before
//! paging, before interrupts, and in panic paths. Bytes are queued here in the
//! order in which they are to be sent; the driver takes them from the queue,
//! and puts the bytes that it receives into the other one.

use vstd::prelude::*;
use crate::text;

verus! {

/// The two queues of the line.
pub struct Console {
    ready: bool,
    out: Vec<u8>,
    input: Vec<u8>,
}

/// What the line holds.
#[verifier::ext_equal]
pub struct ConsoleView {
    /// The line was initialised.
    pub ready: bool,
    /// Bytes to be sent.
    pub out: Seq<u8>,
    /// Bytes that were received and not read yet.
    pub input: Seq<u8>,
}

impl ConsoleView {
    /// The state with bytes queued for sending; before the line is
    /// initialised they are dropped.
    pub open spec fn sent(self, b: Seq<u8>) -> ConsoleView {
        if self.ready {
            ConsoleView { out: self.out + b, ..self }
        } else {
            self
        }
    }
}

/// The end of a line.
pub open spec fn line_end() -> Seq<u8> {
    seq![13u8, 10u8]
}

impl Console {
    pub closed spec fn view(&self) -> ConsoleView {
        ConsoleView { ready: self.ready, out: self.out@, input: self.input@ }
    }

    /// A line that was not initialised.
    pub fn new() -> (r: Console)
        ensures
            r@ == (ConsoleView { ready: false, out: Seq::empty(), input: Seq::empty() }),
    {
        let r = Console { ready: false, out: Vec::new(), input: Vec::new() };
        proof {
            assert(r@ =~= ConsoleView { ready: false, out: Seq::empty(), input: Seq::empty() });
        }
        r
    }

    /// Takes the bytes that are to be sent.
    pub fn take(&mut self) -> (r: Vec<u8>)
        ensures
            r@ == old(self)@.out,
            final(self)@ == (ConsoleView { out: Seq::empty(), ..old(self)@ }),
    {
        let mut out: Vec<u8> = Vec::new();
        std::mem::swap(&mut self.out, &mut out);
        proof {
            assert(self@ =~= ConsoleView { out: Seq::empty(), ..old(self)@ });
        }
        out
    }

    /// A byte was received.
    pub fn receive(&mut self, b: u8)
        ensures
            final(self)@ == (ConsoleView { input: old(self)@.input.push(b), ..old(self)@ }),
    {
        self.input.push(b);
    }
}

/// Initialises the line.
pub fn init(console: &mut Console)
    ensures
        final(console)@ == (ConsoleView { ready: true, ..old(console)@ }),
{
    console.ready = true;
}

/// Writes a raw byte; no-op until [`init`] ran.
pub fn put_byte(console: &mut Console, b: u8)
    ensures
        final(console)@ == old(console)@.sent(seq![b]),
{
    if console.ready {
        console.out.push(b);
    }
    proof {
        assert(console@ =~= old(console)@.sent(seq![b]));
    }
}

/// Non-blocking read of one byte (for the shell); none until [`init`] ran.
pub fn read_byte(console: &mut Console) -> (r: Option<u8>)
    ensures
        match r {
            Some(b) => {
                &&& old(console)@.ready
                &&& old(console)@.input.len() > 0
                &&& b == old(console)@.input[0]
                &&& final(console)@ == (ConsoleView {
                    input: old(console)@.input.drop_first(),
                    ..old(console)@
                })
            },
            None => final(console)@ == old(console)@ && (!old(console)@.ready || old(
                console,
            )@.input.len() == 0),
        },
{
    if !console.ready || console.input.len() == 0 {
        return None;
    }
    let b = console.input.remove(0);
    proof {
        assert(console.input@ =~= old(console)@.input.drop_first());
    }
    Some(b)
}

/// Writes bytes.
pub fn write_bytes(console: &mut Console, b: &[u8])
    ensures
        final(console)@ == old(console)@.sent(b@),
{
    if console.ready {
        console.out.extend_from_slice(b);
    }
    proof {
        assert(console@ =~= old(console)@.sent(b@));
    }
}

/// Writes a string (no newline added).
pub fn write_str(console: &mut Console, s: &str)
    ensures
        final(console)@ == old(console)@.sent(vstd::utf8::encode_utf8(s@)),
{
    write_bytes(console, s.as_bytes());
}

/// Writes a line.
pub fn write_line(console: &mut Console, s: &str)
    ensures
        final(console)@ == old(console)@.sent(vstd::utf8::encode_utf8(s@) + line_end()),
{
    write_str(console, s);
    put_byte(console, 13);
    put_byte(console, 10);
    proof {
        assert(console@ =~= old(console)@.sent(vstd::utf8::encode_utf8(s@) + line_end()));
    }
}

/// The bytes of several lines, each with its end.
pub open spec fn joined(lines: Seq<Seq<char>>) -> Seq<u8>
    decreases lines.len(),
{
    if lines.len() == 0 {
        Seq::empty()
    } else {
        joined(lines.drop_last()) + (vstd::utf8::encode_utf8(lines.last()) + line_end())
    }
}

/// Writes several lines.
pub fn write_lines(console: &mut Console, lines: &Vec<String>)
    ensures
        final(console)@ == old(console)@.sent(joined(text::views(lines@))),
{
    let ghost all = text::views(lines@);
    proof {
        assert(all.take(0) =~= Seq::<Seq<char>>::empty());
        assert(console@ =~= old(console)@.sent(joined(all.take(0))));
    }
    for i in 0..lines.len()
        invariant
            all == text::views(lines@),
            console@ == old(console)@.sent(joined(all.take(i as int))),
    {
        write_line(console, lines[i].as_str());
        proof {
            assert(all.take(i + 1).drop_last() =~= all.take(i as int));
            assert(all.take(i + 1).last() == lines@[i as int]@);
            assert(console@ =~= old(console)@.sent(joined(all.take(i + 1))));
        }
    }
    proof {
        assert(all.take(all.len() as int) =~= all);
    }
}

/// The characters of a trace of the value `v`.
pub open spec fn trace(tag: Seq<char>, v: u64) -> Seq<char> {
    tag + "="@ + text::hex(v as nat, 16) + "\n"@
}

/// A 64-bit value as hex, for the debug console: exactly sixteen digits.
pub fn dbg_hex(tag: &str, v: u64) -> (r: String)
    ensures
        r@ == trace(tag@, v),
{
    let mut s = String::from_str(tag);
    s.append("=");
    text::push_hex(&mut s, v, 16);
    s.append("\n");
    s
}

/// A string for the debug console.
pub fn dbg_s(s: &str) -> (r: String)
    ensures
        r@ == s@ + "\n"@,
{
    let mut t = String::from_str(s);
    t.append("\n");
    t
}

/// Bytes leave the line in the order in which they were written: what was
/// written first is sent first, and nothing is lost once the line is ready.
pub proof fn law_output_is_in_order(v: ConsoleView, a: Seq<u8>, b: Seq<u8>)
    requires
        v.ready,
    ensures
        v.sent(a).sent(b).out == v.out + a + b,
        v.sent(a).sent(b) == v.sent(a + b),
{
    assert(v.sent(a).sent(b) =~= v.sent(a + b));
}

/// Before the line is initialised nothing is sent; afterwards everything is, and
/// nothing that was received is touched.
pub proof fn law_sending(v: ConsoleView, b: Seq<u8>)
    ensures
        !v.ready ==> v.sent(b) == v,
        v.ready ==> v.sent(b).out.len() == v.out.len() + b.len(),
        v.ready ==> v.sent(b).out.take(v.out.len() as int) == v.out,
        v.ready ==> v.sent(b).out.skip(v.out.len() as int) == b,
        v.sent(b).input == v.input,
        v.sent(b).ready == v.ready,
{
    assert((v.out + b).take(v.out.len() as int) =~= v.out);
    assert((v.out + b).skip(v.out.len() as int) =~= b);
}

/// Each line is sent whole and in its turn, and ends with a carriage return and
/// a line feed.
pub proof fn law_lines_are_sent_in_order(lines: Seq<Seq<char>>, s: Seq<char>)
    ensures
        joined(Seq::empty()).len() == 0,
        ({
            let before = joined(lines);
            let b = joined(lines.push(s));
            let t = vstd::utf8::encode_utf8(s);
            &&& b.len() == before.len() + t.len() + 2
            &&& b.take(before.len() as int) == before
            &&& b.subrange(before.len() as int, (before.len() + t.len()) as int) == t
            &&& b[b.len() - 2] == 13
            &&& b[b.len() - 1] == 10
        }),
{
    let before = joined(lines);
    let b = joined(lines.push(s));
    let t = vstd::utf8::encode_utf8(s);
    assert(lines.push(s).drop_last() =~= lines);
    assert(b == before + (t + line_end()));
    assert(b.take(before.len() as int) =~= before);
    assert(b.subrange(before.len() as int, (before.len() + t.len()) as int) =~= t);
}

/// A trace is the tag, an equals sign, the value in sixteen hexadecimal digits,
/// from which it is read back, and a line feed.
pub proof fn law_trace_shows_the_value(tag: Seq<char>, v: u64)
    ensures
        ({
            let s = trace(tag, v);
            let n = tag.len() as int;
            &&& s.len() == n + 18
            &&& s.take(n) == tag
            &&& s[n] == '='
            &&& text::value(s.subrange(n + 1, n + 17), 16) == v
            &&& s[n + 17] == '\n'
        }),
{
    reveal_strlit("=");
    reveal_strlit("\n");
    text::law_hex_reads_back(v as nat, 16);
    text::law_hex_is_as_wide_as_asked(v);
    let s = trace(tag, v);
    let n = tag.len() as int;
    assert(s.take(n) =~= tag);
    assert(s.subrange(n + 1, n + 17) =~= text::hex(v as nat, 16));
}

} // verus!
