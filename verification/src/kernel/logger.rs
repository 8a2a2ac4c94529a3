//! Structured kernel logging: level-gated, one bounded line per record, for
//! the serial line and, if it is serious, for the screen.

use vstd::prelude::*;
use crate::config::{LogLevel, LOG_LEVEL};

verus! {

/// Bytes that one line holds at most.
pub const LINE_BYTES: usize = 512;

/// How much a level tells: the higher, the less serious.
pub open spec fn rank(level: LogLevel) -> int {
    match level {
        LogLevel::Error => 0,
        LogLevel::Warn => 1,
        LogLevel::Info => 2,
        LogLevel::Debug => 3,
        LogLevel::Trace => 4,
    }
}

/// The tag of a level, five characters wide.
pub open spec fn tag(level: LogLevel) -> Seq<char> {
    match level {
        LogLevel::Error => "ERROR"@,
        LogLevel::Warn => "WARN "@,
        LogLevel::Info => "INFO "@,
        LogLevel::Debug => "DEBUG"@,
        LogLevel::Trace => "TRACE"@,
    }
}

/// The name of a level.
pub open spec fn name(level: LogLevel) -> Seq<char> {
    match level {
        LogLevel::Error => "Error"@,
        LogLevel::Warn => "Warn"@,
        LogLevel::Info => "Info"@,
        LogLevel::Debug => "Debug"@,
        LogLevel::Trace => "Trace"@,
    }
}

/// The bytes of a text.
pub open spec fn utf8(s: Seq<char>) -> Seq<u8> {
    vstd::utf8::encode_utf8(s)
}

/// As many bytes as a line holds.
pub open spec fn bounded(b: Seq<u8>) -> Seq<u8> {
    if b.len() <= LINE_BYTES {
        b
    } else {
        b.take(LINE_BYTES as int)
    }
}

/// The line of a record.
pub open spec fn record_line(level: LogLevel, message: Seq<u8>) -> Seq<u8> {
    bounded(utf8("["@) + utf8(tag(level)) + utf8("] "@) + message)
}

/// A tiny bounded writer: what does not fit is dropped.
struct LineBuf {
    buf: [u8; LINE_BYTES],
    len: usize,
}

impl LineBuf {
    spec fn view(&self) -> Seq<u8> {
        self.buf@.take(self.len as int)
    }

    #[verifier::type_invariant]
    spec fn inv(self) -> bool {
        self.len <= LINE_BYTES
    }

    fn new() -> (r: Self)
        ensures
            r@ == Seq::<u8>::empty(),
    {
        let r = LineBuf { buf: [0; LINE_BYTES], len: 0 };
        proof {
            assert(r@ =~= Seq::<u8>::empty());
        }
        r
    }

    fn write_bytes(&mut self, s: &[u8])
        ensures
            final(self)@ == bounded(old(self)@ + s@),
            final(self)@.len() <= LINE_BYTES,
    {
        proof {
            use_type_invariant(&*self);
        }
        let room = LINE_BYTES - self.len;
        let take = if s.len() < room {
            s.len()
        } else {
            room
        };
        let ghost start = self.len as int;
        let ghost before = self@;
        let at = self.len;
        for i in 0..take
            invariant
                at == start,
                self.len == start,
                start + take <= LINE_BYTES,
                take <= s@.len(),
                self.buf@.take(start) == before,
                before.len() == start,
                forall|j: int| 0 <= j < i ==> self.buf@[start + j] == #[trigger] s@[j],
        {
            let ghost old_buf = self.buf@;
            self.buf[at + i] = s[i];
            proof {
                assert(self.buf@.take(start) =~= old_buf.take(start));
            }
        }
        self.len = at + take;
        proof {
            assert(before.len() <= LINE_BYTES);
            assert forall|j: int| 0 <= j < self.len implies self.buf@[j] == (before + s@)[j] by {
                if j < start {
                    assert(self.buf@.take(start)[j] == before[j]);
                } else {
                    assert(self.buf@[start + (j - start)] == s@[j - start]);
                }
            }
            assert(self@ =~= bounded(before + s@));
        }
    }

    fn to_vec(&self) -> (r: Vec<u8>)
        ensures
            r@ == self@,
    {
        proof {
            use_type_invariant(self);
        }
        let mut out: Vec<u8> = Vec::new();
        for i in 0..self.len
            invariant
                self.len <= LINE_BYTES,
                out@ == self.buf@.take(i as int),
        {
            out.push(self.buf[i]);
            proof {
                assert(out@ =~= self.buf@.take(i + 1));
            }
        }
        out
    }
}

/// A record that passed the threshold.
pub struct LogRecord {
    /// The line for the serial console.
    pub line: Vec<u8>,
    /// What the screen shows, if the record is serious.
    pub screen: Option<Vec<u8>>,
}

/// Number of a level.
fn rank_of(level: LogLevel) -> (r: u8)
    ensures
        r == rank(level),
{
    match level {
        LogLevel::Error => 0,
        LogLevel::Warn => 1,
        LogLevel::Info => 2,
        LogLevel::Debug => 3,
        LogLevel::Trace => 4,
    }
}

/// The tag of a level.
fn tag_of(level: LogLevel) -> (r: &'static str)
    ensures
        r@ == tag(level),
{
    match level {
        LogLevel::Error => "ERROR",
        LogLevel::Warn => "WARN ",
        LogLevel::Info => "INFO ",
        LogLevel::Debug => "DEBUG",
        LogLevel::Trace => "TRACE",
    }
}

/// The name of a level.
fn name_of(level: LogLevel) -> (r: &'static str)
    ensures
        r@ == name(level),
{
    match level {
        LogLevel::Error => "Error",
        LogLevel::Warn => "Warn",
        LogLevel::Info => "Info",
        LogLevel::Debug => "Debug",
        LogLevel::Trace => "Trace",
    }
}

/// What becomes of a message at the threshold `min`: a record if its level
/// passes, else none.
pub open spec fn logged(
    level: LogLevel,
    min: LogLevel,
    message: Seq<u8>,
    r: Option<LogRecord>,
) -> bool {
    match r {
        Some(rec) => {
            let line = record_line(level, message);
            &&& rank(level) <= rank(min)
            &&& rec.line@ == line
            &&& if level == LogLevel::Error || level == LogLevel::Warn {
                rec.screen matches Some(s) && s@ == utf8("["@) + utf8(tag(level)) + utf8("] "@)
                    + line + utf8("\n"@)
            } else {
                rec.screen is None
            }
        },
        None => rank(level) > rank(min),
    }
}

/// The record of a message, if its level passes the threshold `min`. An error
/// or a warning goes to the screen too, with its tag before the line.
pub fn log(level: LogLevel, min: LogLevel, message: &[u8]) -> (r: Option<LogRecord>)
    ensures
        logged(level, min, message@, r),
{
    if rank_of(level) > rank_of(min) {
        return None;
    }
    let tag = tag_of(level);
    let mut buf = LineBuf::new();
    buf.write_bytes("[".as_bytes());
    buf.write_bytes(tag.as_bytes());
    buf.write_bytes("] ".as_bytes());
    buf.write_bytes(message);
    let line = buf.to_vec();
    proof {
        lemma_bounded(Seq::<u8>::empty(), utf8("["@));
        assert(Seq::<u8>::empty() + utf8("["@) =~= utf8("["@));
        lemma_bounded(utf8("["@), utf8(tag@));
        lemma_bounded(utf8("["@) + utf8(tag@), utf8("] "@));
        lemma_bounded(utf8("["@) + utf8(tag@) + utf8("] "@), message@);
    }
    let screen = if level == LogLevel::Error || level == LogLevel::Warn {
        let mut s: Vec<u8> = Vec::new();
        s.extend_from_slice("[".as_bytes());
        s.extend_from_slice(tag.as_bytes());
        s.extend_from_slice("] ".as_bytes());
        s.extend_from_slice(line.as_slice());
        s.extend_from_slice("\n".as_bytes());
        proof {
            assert(s@ =~= utf8("["@) + utf8(tag@) + utf8("] "@) + line@ + utf8("\n"@));
        }
        Some(s)
    } else {
        None
    };
    Some(LogRecord { line, screen })
}

/// Cutting off before or after appending is the same.
proof fn lemma_bounded(a: Seq<u8>, b: Seq<u8>)
    ensures
        bounded(bounded(a) + b) == bounded(a + b),
{
    assert(bounded(bounded(a) + b) =~= bounded(a + b));
}

/// The compiled threshold.
pub fn min_level() -> (r: LogLevel)
    ensures
        r == LOG_LEVEL,
{
    LOG_LEVEL
}

/// The first record: the logger is ready, with the compiled threshold.
pub fn init() -> (r: Option<LogRecord>)
    ensures
        logged(
            LogLevel::Info,
            LOG_LEVEL,
            utf8("logger: ready (level="@ + name(LOG_LEVEL) + ")"@),
            r,
        ),
{
    let mut text = String::from_str("logger: ready (level=");
    text.append(name_of(min_level()));
    text.append(")");
    log(LogLevel::Info, min_level(), text.as_str().as_bytes())
}

/// Kernel self-test of the logger.
pub fn test_echo() -> (r: (bool, Option<LogRecord>))
    ensures
        r.0,
        logged(LogLevel::Info, LOG_LEVEL, utf8("logger:test:ok"@), r.1),
{
    (true, log(LogLevel::Info, min_level(), "logger:test:ok".as_bytes()))
}

/// A more serious message than one that is logged is logged too, and no line
/// is longer than its bound.
pub proof fn law_threshold_is_monotone(a: LogLevel, b: LogLevel, min: LogLevel, m: Seq<u8>)
    requires
        rank(a) <= rank(b),
        rank(b) <= rank(min),
    ensures
        rank(a) <= rank(min),
        record_line(a, m).len() <= LINE_BYTES,
{
}

/// What becomes of a message: it is logged exactly if it is at least as serious
/// as the threshold, in the order error, warning, information, debug, trace.
/// Its line is the tag in brackets and the message, whole if that fits into 512
/// bytes and the first 512 of it otherwise. Errors and warnings, and nothing
/// else, go to the screen too.
pub proof fn law_log_effect(level: LogLevel, min: LogLevel, message: Seq<u8>, r: Option<LogRecord>)
    requires
        logged(level, min, message, r),
    ensures
        level == LogLevel::Error || level == min || min == LogLevel::Trace ==> r is Some,
        level == LogLevel::Warn && min != LogLevel::Error ==> r is Some,
        level == LogLevel::Info && min == LogLevel::Debug ==> r is Some,
        min == LogLevel::Error && level != LogLevel::Error ==> r is None,
        level == LogLevel::Trace && min != LogLevel::Trace ==> r is None,
        min == LogLevel::Warn && (level == LogLevel::Info || level == LogLevel::Debug) ==> r
            is None,
        min == LogLevel::Info && level == LogLevel::Debug ==> r is None,
        r matches Some(rec) ==> {
            let whole = utf8("["@) + utf8(tag(level)) + utf8("] "@) + message;
            &&& whole.len() <= 512 ==> rec.line@ == whole
            &&& whole.len() > 512 ==> rec.line@.len() == 512 && forall|k: int|
                0 <= k < 512 ==> #[trigger] rec.line@[k] == whole[k]
            &&& rec.screen is Some <==> level == LogLevel::Error || level == LogLevel::Warn
            &&& rec.screen is Some ==> rec.screen->0@ == utf8("["@) + utf8(tag(level)) + utf8("] "@)
                + rec.line@ + utf8("\n"@)
        },
{
}

/// Every tag is five characters wide and tells its level.
pub proof fn law_tags(a: LogLevel, b: LogLevel)
    ensures
        tag(a).len() == 5,
        tag(a) == tag(b) ==> a == b,
        tag(LogLevel::Error) == "ERROR"@,
        tag(LogLevel::Warn) == "WARN "@,
        tag(LogLevel::Info) == "INFO "@,
        tag(LogLevel::Debug) == "DEBUG"@,
        tag(LogLevel::Trace) == "TRACE"@,
{
    reveal_strlit("ERROR");
    reveal_strlit("WARN ");
    reveal_strlit("INFO ");
    reveal_strlit("DEBUG");
    reveal_strlit("TRACE");
    assert("ERROR"@[0] == 'E' && "WARN "@[0] == 'W' && "INFO "@[0] == 'I' && "DEBUG"@[0] == 'D'
        && "TRACE"@[0] == 'T');
}

} // verus!
