//! Ring-0 shell: the kernel's own task and the demo control panel.
//!
//! The shell is a *task like any other*: it preempts and is preempted by the
//! scheduler, and it can only do what its capabilities allow. It is the one
//! task that holds the spawn authority, so it is the natural place to
//! demonstrate capability delegation and the runtime behaviour of every
//! subsystem.
//!
//! Loading a program, the deliberate fault and leaving the machine are done by
//! the caller: a command says which of them it needs.

use vstd::prelude::*;
use vstd::slice::slice_subrange;
use crate::caps;
use crate::caps::{CapRights, Capability, ObjectKind};
use crate::config::{EXIT_SUCCESS, HEAP_MIB, QUANTUM_MS, REALTIME_DEMO, SCHED_POLICY};
use crate::kernel::boot;
use crate::kernel::caps as registry;
use crate::kernel::caps::{KernelObject, SPAWN_AUTHORITY};
use crate::kernel::interrupts::FRAME_SIZE;
use crate::kernel::ipc;
use crate::kernel::memory;
use crate::kernel::memory::frames::{Frames, FramesView};
use crate::kernel::memory::MIB;
use crate::kernel::serial;
use crate::kernel::serial::{Console, ConsoleView};
use crate::kernel::syscall;
use crate::kernel::task;
use crate::kernel::task::{Loaded, Spawn, TaskTable, TasksView};
use crate::kernel::{Kernel, KernelView};
use crate::sched::TaskId;
use crate::text;

pub mod effects;

verus! {

/// Bytes that a command line holds.
pub const LINE_MAX: usize = 256;

/// A space.
pub const SPACE: u8 = 32;

// ---------------------------------------------------------------------------
// Words
// ---------------------------------------------------------------------------

/// The bytes are printable characters.
pub open spec fn printable(s: Seq<u8>) -> bool {
    forall|i: int| 0 <= i < s.len() ==> 32 <= #[trigger] s[i] < 127
}

/// How many spaces the text starts with.
pub open spec fn margin(s: Seq<u8>) -> nat
    decreases s.len(),
{
    if s.len() > 0 && s[0] == SPACE {
        1 + margin(s.skip(1))
    } else {
        0
    }
}

/// How long the word is that the text starts with.
pub open spec fn word_len(s: Seq<u8>) -> nat
    decreases s.len(),
{
    if s.len() > 0 && s[0] != SPACE {
        1 + word_len(s.skip(1))
    } else {
        0
    }
}

/// The text without the spaces before it.
pub open spec fn trim_start(s: Seq<u8>) -> Seq<u8> {
    s.skip(margin(s) as int)
}

/// The text without the spaces behind it.
pub open spec fn trim_end(s: Seq<u8>) -> Seq<u8>
    decreases s.len(),
{
    if s.len() > 0 && s.last() == SPACE {
        trim_end(s.drop_last())
    } else {
        s
    }
}

/// The text without the spaces around it.
pub open spec fn trim(s: Seq<u8>) -> Seq<u8> {
    trim_end(trim_start(s))
}

/// The first word of the text, empty if there is none.
pub open spec fn first_word(s: Seq<u8>) -> Seq<u8> {
    trim_start(s).take(word_len(trim_start(s)) as int)
}

/// What follows the first word, from its own first word on.
pub open spec fn after_word(s: Seq<u8>) -> Seq<u8> {
    trim_start(trim_start(s).skip(word_len(trim_start(s)) as int))
}

proof fn lemma_margin(s: Seq<u8>)
    ensures
        margin(s) <= s.len(),
    decreases s.len(),
{
    if s.len() > 0 && s[0] == SPACE {
        lemma_margin(s.skip(1));
    }
}

fn skip_spaces(s: &[u8]) -> (r: &[u8])
    ensures
        r@ == trim_start(s@),
{
    let mut i: usize = 0;
    proof {
        assert(s@.skip(0) =~= s@);
    }
    while i < s.len() && s[i] == SPACE
        invariant
            i <= s@.len(),
            margin(s@) == i + margin(s@.skip(i as int)),
        decreases s@.len() - i,
    {
        proof {
            assert(s@.skip(i as int).skip(1) =~= s@.skip(i + 1));
        }
        i = i + 1;
    }
    proof {
        assert(margin(s@.skip(i as int)) == 0);
        assert(s@.subrange(i as int, s@.len() as int) =~= trim_start(s@));
    }
    slice_subrange(s, i, s.len())
}

fn count_word(s: &[u8]) -> (r: usize)
    ensures
        r == word_len(s@),
        r <= s@.len(),
{
    let mut i: usize = 0;
    proof {
        assert(s@.skip(0) =~= s@);
    }
    while i < s.len() && s[i] != SPACE
        invariant
            i <= s@.len(),
            word_len(s@) == i + word_len(s@.skip(i as int)),
        decreases s@.len() - i,
    {
        proof {
            assert(s@.skip(i as int).skip(1) =~= s@.skip(i + 1));
        }
        i = i + 1;
    }
    proof {
        assert(word_len(s@.skip(i as int)) == 0);
    }
    i
}

fn cut_spaces(s: &[u8]) -> (r: &[u8])
    ensures
        r@ == trim_end(s@),
{
    let mut n: usize = s.len();
    proof {
        assert(s@.take(n as int) =~= s@);
    }
    while n > 0 && s[n - 1] == SPACE
        invariant
            n <= s@.len(),
            trim_end(s@) == trim_end(s@.take(n as int)),
        decreases n,
    {
        proof {
            assert(s@.take(n as int).drop_last() =~= s@.take(n - 1));
        }
        n = n - 1;
    }
    proof {
        assert(s@.subrange(0, n as int) =~= s@.take(n as int));
    }
    slice_subrange(s, 0, n)
}

fn word(s: &[u8]) -> (r: &[u8])
    ensures
        r@ == first_word(s@),
{
    let t = skip_spaces(s);
    let n = count_word(t);
    proof {
        assert(t@.subrange(0, n as int) =~= first_word(s@));
    }
    slice_subrange(t, 0, n)
}

fn rest(s: &[u8]) -> (r: &[u8])
    ensures
        r@ == after_word(s@),
{
    let t = skip_spaces(s);
    let n = count_word(t);
    proof {
        assert(t@.subrange(n as int, t@.len() as int) =~= t@.skip(n as int));
    }
    skip_spaces(slice_subrange(t, n, t.len()))
}

// ---------------------------------------------------------------------------
// Line editing
// ---------------------------------------------------------------------------

/// The line that is being typed.
pub struct Editor {
    line: Vec<u8>,
}

/// The byte ends a line.
pub open spec fn is_enter(b: u8) -> bool {
    b == 13 || b == 10
}

/// The byte takes the last character back.
pub open spec fn is_erase(b: u8) -> bool {
    b == 0x7f || b == 8
}

/// The byte is a character that the line takes.
pub open spec fn is_typed(line: Seq<u8>, b: u8) -> bool {
    32 <= b < 127 && line.len() < LINE_MAX
}

/// The line after a byte was typed.
pub open spec fn edited(line: Seq<u8>, b: u8) -> Seq<u8> {
    if is_enter(b) {
        Seq::empty()
    } else if is_erase(b) {
        if line.len() > 0 {
            line.drop_last()
        } else {
            line
        }
    } else if is_typed(line, b) {
        line.push(b)
    } else {
        line
    }
}

/// What the terminal shows for a byte that was typed.
pub open spec fn echoed(line: Seq<u8>, b: u8) -> Seq<u8> {
    if is_enter(b) {
        serial::line_end()
    } else if is_erase(b) {
        if line.len() > 0 {
            seq![8u8, SPACE, 8u8]
        } else {
            Seq::empty()
        }
    } else if is_typed(line, b) {
        seq![b]
    } else {
        Seq::empty()
    }
}

/// What the shell does next.
#[derive(Debug)]
pub enum Step {
    /// Nothing was typed: other tasks get the CPU.
    Yield,
    /// A byte was taken.
    Typed,
    /// A line was ended: run the command, if there is one, then prompt.
    Enter(Option<Vec<u8>>),
}

/// The byte `b`, typed when the line was `line`, comes to the step `r`.
pub open spec fn steps(line: Seq<u8>, b: u8, r: Step) -> bool {
    match r {
        Step::Yield => false,
        Step::Typed => !is_enter(b),
        Step::Enter(None) => is_enter(b) && line.len() == 0,
        Step::Enter(Some(cmd)) => {
            &&& is_enter(b)
            &&& line.len() > 0
            &&& cmd@ == trim(line)
            &&& printable(cmd@)
        },
    }
}

impl Editor {
    pub closed spec fn view(&self) -> Seq<u8> {
        self.line@
    }

    #[verifier::type_invariant]
    spec fn inv(self) -> bool {
        self.line@.len() <= LINE_MAX && printable(self.line@)
    }

    /// An empty line.
    pub fn new() -> (r: Editor)
        ensures
            r@ == Seq::<u8>::empty(),
    {
        Editor { line: Vec::new() }
    }

    /// Takes the line, which is empty then.
    fn take(&mut self) -> (r: Vec<u8>)
        ensures
            r@ == old(self)@,
            r@.len() <= LINE_MAX,
            printable(r@),
            final(self)@ == Seq::<u8>::empty(),
    {
        proof {
            use_type_invariant(&*self);
        }
        let mut line: Vec<u8> = Vec::new();
        std::mem::swap(&mut self.line, &mut line);
        line
    }

    /// Drops the last character, if there is one.
    fn erase(&mut self) -> (r: bool)
        ensures
            r == (old(self)@.len() > 0),
            final(self)@ == (if old(self)@.len() > 0 {
                old(self)@.drop_last()
            } else {
                old(self)@
            }),
    {
        let mut line = self.take();
        let ghost before = line@;
        let r = line.pop().is_some();
        proof {
            if r {
                assert(line@ =~= before.drop_last());
            }
        }
        self.line = line;
        r
    }

    /// Appends a character, if there is room.
    fn append(&mut self, b: u8) -> (r: bool)
        requires
            32 <= b < 127,
        ensures
            r == (old(self)@.len() < LINE_MAX),
            final(self)@ == (if old(self)@.len() < LINE_MAX {
                old(self)@.push(b)
            } else {
                old(self)@
            }),
    {
        let mut line = self.take();
        let r = line.len() < LINE_MAX;
        if r {
            line.push(b);
        }
        self.line = line;
        r
    }
}

/// What the shell prints when it starts.
pub fn welcome(console: &mut Console)
    ensures
        final(console)@ == old(console)@.sent(
            serial::line_end() + vstd::utf8::encode_utf8("kairos shell — type `help`"@)
                + serial::line_end(),
        ),
{
    serial::put_byte(console, 13);
    serial::put_byte(console, 10);
    serial::write_line(console, "kairos shell — type `help`");
    proof {
        assert(console@ =~= old(console)@.sent(
            serial::line_end() + vstd::utf8::encode_utf8("kairos shell — type `help`"@)
                + serial::line_end(),
        ));
    }
}

/// Asks for the next command.
pub fn prompt(console: &mut Console)
    ensures
        final(console)@ == old(console)@.sent(vstd::utf8::encode_utf8("kairos> "@)),
{
    serial::write_str(console, "kairos> ");
}

/// One pass of the shell's loop: reads a byte from the console and edits the
/// line with it, or gives up the CPU if none is there.
pub fn shell_main(editor: &mut Editor, console: &mut Console, tasks: &mut TaskTable) -> (r: Step)
    requires
        old(tasks).wf(),
    ensures
        final(tasks).wf(),
        ({
            let c = old(console)@;
            if !c.ready || c.input.len() == 0 {
                &&& r is Yield
                &&& final(editor)@ == old(editor)@
                &&& final(console)@ == c
                &&& final(tasks)@ == (TasksView { yielding: true, ..old(tasks)@ })
            } else {
                let b = c.input[0];
                &&& final(tasks)@ == old(tasks)@
                &&& final(editor)@ == edited(old(editor)@, b)
                &&& final(console)@ == (ConsoleView {
                    input: c.input.drop_first(),
                    ..c
                }).sent(echoed(old(editor)@, b))
                &&& steps(old(editor)@, b, r)
            }
        }),
{
    match serial::read_byte(console) {
        Some(b) => {
            let ghost c = console@;
            if b == 13 || b == 10 {
                serial::put_byte(console, 13);
                serial::put_byte(console, 10);
                proof {
                    assert(console@ =~= c.sent(serial::line_end()));
                }
                let line = editor.take();
                if line.len() == 0 {
                    return Step::Enter(None);
                }
                let t = skip_spaces(line.as_slice());
                let t = cut_spaces(t);
                proof {
                    lemma_trim_printable(line@);
                }
                Step::Enter(Some(copied(t)))
            } else if b == 0x7f || b == 8 {
                if editor.erase() {
                    serial::put_byte(console, 8);
                    serial::put_byte(console, SPACE);
                    serial::put_byte(console, 8);
                    proof {
                        assert(console@ =~= c.sent(seq![8u8, SPACE, 8u8]));
                    }
                } else {
                    proof {
                        assert(console@ =~= c.sent(Seq::empty()));
                    }
                }
                Step::Typed
            } else {
                if 32 <= b && b < 127 && editor.append(b) {
                    serial::put_byte(console, b);
                } else {
                    proof {
                        assert(console@ =~= c.sent(Seq::empty()));
                    }
                }
                Step::Typed
            }
        },
        None => {
            task::kernel_yield(tasks);
            Step::Yield
        },
    }
}

fn copied(s: &[u8]) -> (r: Vec<u8>)
    ensures
        r@ == s@,
{
    let mut v: Vec<u8> = Vec::new();
    v.extend_from_slice(s);
    proof {
        assert(v@ =~= s@);
    }
    v
}

proof fn lemma_trim_end_printable(s: Seq<u8>)
    requires
        printable(s),
    ensures
        printable(trim_end(s)),
    decreases s.len(),
{
    if s.len() > 0 && s.last() == SPACE {
        lemma_trim_end_printable(s.drop_last());
    }
}

proof fn lemma_trim_printable(s: Seq<u8>)
    requires
        printable(s),
    ensures
        printable(trim(s)),
{
    lemma_margin(s);
    lemma_trim_end_printable(trim_start(s));
}

// ---------------------------------------------------------------------------
// Commands
// ---------------------------------------------------------------------------

/// What a command names.
#[derive(Clone, Copy, PartialEq, Eq, Debug, Structural)]
pub enum Verb {
    Nothing,
    Help,
    Info,
    Ps,
    Sched,
    Crash,
    Spawn,
    IpcDemo,
    Echo,
    Exit,
    Unknown,
}

/// What is left to do for a command.
#[derive(Debug)]
pub enum Action {
    /// Nothing: the shell asks for the next command.
    Prompt,
    /// Load the program with this name, and go on with [`cmd_spawn`].
    Spawn(Vec<u8>),
    /// Load the echo server and the echo client, and go on with
    /// [`cmd_ipcdemo`].
    IpcDemo,
    /// Read from address 0.
    Crash,
    /// Leave the machine with this exit code.
    Exit(u32),
}

/// The bytes of a text.
pub open spec fn plain(s: Seq<char>) -> Seq<u8> {
    vstd::utf8::encode_utf8(s)
}

/// The bytes of a line of text.
pub open spec fn line(s: Seq<char>) -> Seq<u8> {
    plain(s) + serial::line_end()
}

/// What the word `name` means.
pub open spec fn verb(name: Seq<u8>) -> Verb {
    if name.len() == 0 {
        Verb::Nothing
    } else if name == plain("help"@) {
        Verb::Help
    } else if name == plain("info"@) {
        Verb::Info
    } else if name == plain("ps"@) {
        Verb::Ps
    } else if name == plain("sched"@) {
        Verb::Sched
    } else if name == plain("crash"@) || name == plain("fault"@) {
        Verb::Crash
    } else if name == plain("spawn"@) {
        Verb::Spawn
    } else if name == plain("ipcdemo"@) {
        Verb::IpcDemo
    } else if name == plain("echo"@) {
        Verb::Echo
    } else if name == plain("exit"@) {
        Verb::Exit
    } else {
        Verb::Unknown
    }
}

fn verb_of(name: &[u8]) -> (r: Verb)
    ensures
        r == verb(name@),
{
    if name.len() == 0 {
        Verb::Nothing
    } else if text::same_bytes(name, "help".as_bytes()) {
        Verb::Help
    } else if text::same_bytes(name, "info".as_bytes()) {
        Verb::Info
    } else if text::same_bytes(name, "ps".as_bytes()) {
        Verb::Ps
    } else if text::same_bytes(name, "sched".as_bytes()) {
        Verb::Sched
    } else if text::same_bytes(name, "crash".as_bytes()) || text::same_bytes(
        name,
        "fault".as_bytes(),
    ) {
        Verb::Crash
    } else if text::same_bytes(name, "spawn".as_bytes()) {
        Verb::Spawn
    } else if text::same_bytes(name, "ipcdemo".as_bytes()) {
        Verb::IpcDemo
    } else if text::same_bytes(name, "echo".as_bytes()) {
        Verb::Echo
    } else if text::same_bytes(name, "exit".as_bytes()) {
        Verb::Exit
    } else {
        Verb::Unknown
    }
}

/// The lines of `help`.
pub open spec fn help_lines() -> Seq<Seq<char>> {
    seq![
        "commands:"@,
        "  info                 system overview"@,
        "  sched                scheduler policy + quantum"@,
        "  ps                   task list with scheduling stats"@,
        "  spawn <prog>         run a user program (hello|counter|deadline)"@,
        "  ipcdemo              spawn echo server+client (IPC demo)"@,
        "  echo <text>          print text"@,
        "  fault                trigger a page fault (panic demo)"@,
        "  exit                 shut down the VM"@,
    ]
}

fn cmd_help() -> (out: Vec<String>)
    ensures
        text::views(out@) == help_lines(),
{
    let mut out = text::no_lines();
    text::push_line(&mut out, String::from_str("commands:"));
    text::push_line(&mut out, String::from_str("  info                 system overview"));
    text::push_line(&mut out, String::from_str("  sched                scheduler policy + quantum"));
    text::push_line(
        &mut out,
        String::from_str("  ps                   task list with scheduling stats"),
    );
    text::push_line(
        &mut out,
        String::from_str("  spawn <prog>         run a user program (hello|counter|deadline)"),
    );
    text::push_line(
        &mut out,
        String::from_str("  ipcdemo              spawn echo server+client (IPC demo)"),
    );
    text::push_line(&mut out, String::from_str("  echo <text>          print text"));
    text::push_line(
        &mut out,
        String::from_str("  fault                trigger a page fault (panic demo)"),
    );
    text::push_line(&mut out, String::from_str("  exit                 shut down the VM"));
    out
}

/// The line of `sched`.
pub open spec fn sched_line() -> Seq<char> {
    "policy: "@ + boot::policy_text(SCHED_POLICY) + "   quantum: "@ + text::decimal(
        QUANTUM_MS as nat,
    ) + " ms   realtime demo: "@ + text::truth(REALTIME_DEMO)
}

fn cmd_sched() -> (r: String)
    ensures
        r@ == sched_line(),
{
    let mut s = String::from_str("policy: ");
    s.append(boot::policy_name());
    s.append("   quantum: ");
    text::push_decimal(&mut s, QUANTUM_MS);
    s.append(" ms   realtime demo: ");
    text::push_truth(&mut s, REALTIME_DEMO);
    s
}

/// The lines of `info`.
pub open spec fn info_lines(f: FramesView, now: u64) -> Seq<Seq<char>> {
    seq![
        "kairos v0.1.0  kernel heap: "@ + text::decimal(HEAP_MIB as nat) + " MiB  memory: "@
            + text::decimal((f.usable / MIB) as nat) + " MiB usable, "@ + text::decimal(
            f.free() as nat,
        ) + " frames free"@,
        "uptime: "@ + text::decimal(now as nat) + " ms"@,
    ]
}

fn cmd_info(f: &Frames, now: u64) -> (out: Vec<String>)
    requires
        f.wf(),
    ensures
        text::views(out@) == info_lines(f@, now),
{
    let mem = memory::summary(f);
    let mut out = text::no_lines();
    let mut s = String::from_str("kairos v0.1.0  kernel heap: ");
    text::push_decimal(&mut s, HEAP_MIB as u64);
    s.append(" MiB  memory: ");
    text::push_decimal(&mut s, mem.usable_mib);
    s.append(" MiB usable, ");
    text::push_decimal(&mut s, mem.frames_free as u64);
    s.append(" frames free");
    text::push_line(&mut out, s);
    let mut t = String::from_str("uptime: ");
    text::push_decimal(&mut t, now);
    t.append(" ms");
    text::push_line(&mut out, t);
    out
}

/// What a command prints at once.
pub open spec fn output(v: TasksView, f: FramesView, cmd: Seq<u8>) -> Seq<u8> {
    let name = first_word(cmd);
    match verb(name) {
        Verb::Nothing => Seq::empty(),
        Verb::Help => serial::joined(help_lines()),
        Verb::Info => serial::joined(info_lines(f, v.now())),
        Verb::Ps => serial::joined(task::listing(v)),
        Verb::Sched => line(sched_line()),
        Verb::Crash => line("triggering a page fault at 0x0..."@),
        Verb::Spawn => if first_word(after_word(cmd)).len() == 0 {
            line("usage: spawn <hello|counter|deadline>"@)
        } else {
            Seq::empty()
        },
        Verb::IpcDemo => Seq::empty(),
        Verb::Echo => after_word(cmd) + serial::line_end(),
        Verb::Exit => line("shutting down"@),
        Verb::Unknown => plain("unknown command: "@) + name + line(" (try `help`)"@),
    }
}

/// What is left to do for a command is `a`.
pub open spec fn calls_for(cmd: Seq<u8>, a: Action) -> bool {
    let prog = first_word(after_word(cmd));
    match verb(first_word(cmd)) {
        Verb::Crash => a is Crash,
        Verb::Spawn => if prog.len() == 0 {
            a is Prompt
        } else {
            a matches Action::Spawn(p) && p@ == prog
        },
        Verb::IpcDemo => a is IpcDemo,
        Verb::Exit => a == Action::Exit(EXIT_SUCCESS),
        _ => a is Prompt,
    }
}

/// Runs a command, which has no spaces around it.
pub fn run_cmd(console: &mut Console, tasks: &TaskTable, f: &Frames, cmd: &[u8]) -> (r: Action)
    requires
        tasks.wf(),
        f.wf(),
        printable(cmd@),
        cmd@ == trim(cmd@),
    ensures
        final(console)@ == old(console)@.sent(output(tasks@, f@, cmd@)),
        calls_for(cmd@, r),
{
    let name = word(cmd);
    let ghost c = console@;
    match verb_of(name) {
        Verb::Nothing => {
            proof {
                assert(c =~= c.sent(Seq::empty()));
            }
            Action::Prompt
        },
        Verb::Help => {
            let out = cmd_help();
            serial::write_lines(console, &out);
            Action::Prompt
        },
        Verb::Info => {
            let out = cmd_info(f, task::tick_now(tasks));
            serial::write_lines(console, &out);
            Action::Prompt
        },
        Verb::Ps => {
            let out = task::dump_tasks(tasks);
            serial::write_lines(console, &out);
            Action::Prompt
        },
        Verb::Sched => {
            let s = cmd_sched();
            serial::write_line(console, s.as_str());
            Action::Prompt
        },
        Verb::Crash => {
            serial::write_line(console, "triggering a page fault at 0x0...");
            Action::Crash
        },
        Verb::Spawn => {
            let prog = word(rest(cmd));
            if prog.len() == 0 {
                serial::write_line(console, "usage: spawn <hello|counter|deadline>");
                return Action::Prompt;
            }
            proof {
                assert(c =~= c.sent(Seq::empty()));
            }
            Action::Spawn(copied(prog))
        },
        Verb::IpcDemo => {
            proof {
                assert(c =~= c.sent(Seq::empty()));
            }
            Action::IpcDemo
        },
        Verb::Echo => {
            let words = rest(cmd);
            serial::write_bytes(console, words);
            serial::put_byte(console, 13);
            serial::put_byte(console, 10);
            proof {
                assert(console@ =~= c.sent(after_word(cmd@) + serial::line_end()));
            }
            Action::Prompt
        },
        Verb::Exit => {
            serial::write_line(console, "shutting down");
            Action::Exit(EXIT_SUCCESS)
        },
        Verb::Unknown => {
            serial::write_str(console, "unknown command: ");
            serial::write_bytes(console, name);
            serial::write_line(console, " (try `help`)");
            proof {
                assert(console@ =~= c.sent(output(tasks@, f@, cmd@)));
            }
            Action::Prompt
        },
    }
}

/// What `spawn` prints in the end.
pub open spec fn spawn_line(prog: Seq<u8>, r: Result<Spawn, ()>) -> Seq<u8> {
    match r {
        Ok(s) => plain("spawned "@) + prog + plain(" as task "@) + line(
            text::decimal(s.id as nat),
        ),
        Err(_) => line("spawn failed: unknown program"@),
    }
}

/// Spawns the program `prog` from what the loader returned for it, with
/// priority 4 and weight 1.
pub fn cmd_spawn(
    console: &mut Console,
    tasks: &mut TaskTable,
    prog: &[u8],
    image: Result<Loaded, ()>,
    kstack_top: u64,
) -> (r: Result<Spawn, ()>)
    requires
        old(tasks).wf(),
        image is Ok ==> old(tasks)@.has_room() && kstack_top >= FRAME_SIZE,
    ensures
        final(tasks).wf(),
        final(tasks)@ == syscall::spawn_finished(old(tasks)@, image, kstack_top).0,
        r == syscall::spawn_finished(old(tasks)@, image, kstack_top).1,
        final(console)@ == old(console)@.sent(spawn_line(prog@, r)),
{
    let r = task::spawn_user(tasks, image, 4, 1, kstack_top);
    match r {
        Ok(s) => {
            let id = text::number(s.id);
            serial::write_str(console, "spawned ");
            serial::write_bytes(console, prog);
            serial::write_str(console, " as task ");
            serial::write_line(console, id.as_str());
            proof {
                assert(console@ =~= old(console)@.sent(spawn_line(prog@, r)));
            }
        },
        Err(()) => {
            serial::write_line(console, "spawn failed: unknown program");
        },
    }
    r
}

/// The state with the capability `cap` in the first slot of the task `id`.
pub open spec fn endowed(v: TasksView, id: TaskId, cap: Capability) -> TasksView {
    v.with_space(id, v.entry(id).cspace.update(0, Some(cap)))
}

/// The state and the result of a spawn that gives the task a capability.
pub open spec fn spawned_with_cap(
    v: TasksView,
    image: Result<Loaded, ()>,
    cap: Capability,
    arg: u64,
    kstack_top: u64,
) -> (TasksView, Option<Spawn>) {
    let (w, r) = task::user_spawned(v, image, 4, 1, None, arg, kstack_top);
    match r {
        Ok(s) => (endowed(w, s.id, cap), Some(s)),
        Err(_) => (w, None),
    }
}

/// A task that was just added has an empty capability space.
proof fn lemma_added(v: TasksView, e: task::EntryView)
    requires
        v.wf(),
        e.id == v.next_id,
        e.cspace == Seq::new(64, |i: int| None::<Capability>),
    ensures
        v.added(e).has(e.id),
        v.added(e).entry(e.id) == e,
        caps::lowest_free(e.cspace, 0),
        forall|s: int| caps::lowest_free(e.cspace, s) ==> s == 0,
        !caps::full(e.cspace),
{
    let w = v.added(e);
    let n = v.entries.len() as int;
    assert(task::entry_is(w.entries, n, e.id));
    assert forall|i: int| #[trigger] task::entry_is(w.entries, i, e.id) implies i == n by {
        if i < n {
            assert(v.entries[i].id < v.next_id);
        }
    }
    assert(task::entry_is(w.entries, task::place(w.entries, e.id), e.id));
    assert(e.cspace[0] is None);
}

/// Gives a task that was just added a capability.
fn endow(tasks: &mut TaskTable, id: TaskId, cap: Capability)
    requires
        old(tasks).wf(),
        old(tasks)@.has(id),
        forall|s: int| caps::lowest_free(old(tasks)@.entry(id).cspace, s) ==> s == 0,
        !caps::full(old(tasks)@.entry(id).cspace),
    ensures
        final(tasks).wf(),
        final(tasks)@ == endowed(old(tasks)@, id, cap),
{
    if let Some(c) = task::with_cspace(tasks, id) {
        let _ = c.insert(cap);
    }
}

/// Spawns a user task that additionally receives a capability.
fn spawn_user_with_cap(
    tasks: &mut TaskTable,
    image: Result<Loaded, ()>,
    cap: Capability,
    arg: u64,
    kstack_top: u64,
) -> (r: Option<Spawn>)
    requires
        old(tasks).wf(),
        image is Ok ==> old(tasks)@.has_room() && kstack_top >= FRAME_SIZE,
    ensures
        final(tasks).wf(),
        final(tasks)@ == spawned_with_cap(old(tasks)@, image, cap, arg, kstack_top).0,
        r == spawned_with_cap(old(tasks)@, image, cap, arg, kstack_top).1,
{
    proof {
        tasks.lemma_wf();
        if let Ok(l) = image {
            let v = tasks@;
            lemma_added(
                v,
                v.new_entry(l.name@, kstack_top, true, 4, 1, None, Some(l.name@)),
            );
        }
    }
    match task::spawn_user_arg(tasks, image, 4, 1, arg, kstack_top) {
        Ok(s) => {
            endow(tasks, s.id, cap);
            Some(s)
        },
        Err(()) => None,
    }
}

/// The state after the IPC demo was set up: a new channel, and the two tasks
/// that hold a capability for it in their first slot.
pub open spec fn demo_started(
    v: KernelView,
    server: Result<Loaded, ()>,
    client: Result<Loaded, ()>,
    server_top: u64,
    client_top: u64,
) -> (KernelView, Option<Spawn>, Option<Spawn>) {
    let (u, cap) = v.channel_created();
    let (t1, s) = spawned_with_cap(u.tasks, server, cap, 1, server_top);
    let (t2, c) = spawned_with_cap(t1, client, cap, 1, client_top);
    (KernelView { tasks: t2, ..u }, s, c)
}

/// What `ipcdemo` prints.
pub open spec fn demo_line(s: Option<Spawn>, c: Option<Spawn>, channel: u16) -> Seq<char> {
    match (s, c) {
        (Some(s), Some(c)) => "ipcdemo: server="@ + text::decimal(s.id as nat) + " client="@
            + text::decimal(c.id as nat) + " on channel "@ + text::decimal(channel as nat),
        _ => "ipcdemo: spawn failed"@,
    }
}

/// The IPC demo: a channel, and an echo server and an echo client from what
/// the loader returned for them. Each gets a capability for the channel, and
/// the slot of it as its argument.
pub fn cmd_ipcdemo(
    console: &mut Console,
    kernel: &mut Kernel,
    server: Result<Loaded, ()>,
    client: Result<Loaded, ()>,
    server_top: u64,
    client_top: u64,
) -> (r: (Option<Spawn>, Option<Spawn>))
    requires
        old(kernel).wf(),
        old(kernel)@.objects.len() < u32::MAX,
        server is Ok ==> old(kernel)@.tasks.has_room() && server_top >= FRAME_SIZE,
        client is Ok ==> task::user_spawned(
            old(kernel)@.tasks,
            server,
            4,
            1,
            None,
            1,
            server_top,
        ).0.has_room() && client_top >= FRAME_SIZE,
    ensures
        final(kernel).wf(),
        final(kernel)@ == demo_started(
            old(kernel)@,
            server,
            client,
            server_top,
            client_top,
        ).0,
        r.0 == demo_started(old(kernel)@, server, client, server_top, client_top).1,
        r.1 == demo_started(old(kernel)@, server, client, server_top, client_top).2,
        final(console)@ == old(console)@.sent(
            line(demo_line(r.0, r.1, (old(kernel)@.channels.len() % 65536) as u16)),
        ),
{
    let idx = ipc::create(&mut kernel.channels);
    let id = registry::register(&mut kernel.objects, KernelObject::Channel(idx));
    let cap = Capability::new(id, ObjectKind::Channel, CapRights::all());
    let s = spawn_user_with_cap(&mut kernel.tasks, server, cap, 1, server_top);
    let c = spawn_user_with_cap(&mut kernel.tasks, client, cap, 1, client_top);
    match (s, c) {
        (Some(a), Some(b)) => {
            let mut t = String::from_str("ipcdemo: server=");
            text::push_decimal(&mut t, a.id);
            t.append(" client=");
            text::push_decimal(&mut t, b.id);
            t.append(" on channel ");
            text::push_decimal(&mut t, idx as u64);
            serial::write_line(console, t.as_str());
        },
        _ => {
            serial::write_line(console, "ipcdemo: spawn failed");
        },
    }
    (s, c)
}

/// The capability that the shell is started with.
pub open spec fn authority() -> Capability {
    Capability {
        object: SPAWN_AUTHORITY,
        kind: ObjectKind::Task,
        rights: CapRights::of(caps::ALL_BITS),
    }
}

/// The state with the shell task added, which holds the spawn authority.
pub open spec fn shell_added(v: TasksView, kstack_top: u64) -> TasksView {
    endowed(
        v.added(v.new_entry("shell"@, kstack_top, false, 5, 2, None, None)),
        v.next_id,
        authority(),
    )
}

/// Spawns the shell task, which runs the function at `entry`, and dispatches
/// the first task. Returns the shell and the frame to enter; no frame is there
/// where no task can be run.
pub fn start(tasks: &mut TaskTable, entry: u64, kstack_top: u64) -> (r: (Spawn, Option<u64>))
    requires
        old(tasks).wf(),
        old(tasks)@.has_room(),
        kstack_top >= FRAME_SIZE,
    ensures
        final(tasks).wf(),
        r.0 == (Spawn {
            id: old(tasks)@.next_id,
            frame_at: task::first_frame(kstack_top),
            frame: task::kernel_frame(entry, 0, kstack_top),
        }),
        ({
            let v = shell_added(old(tasks)@, kstack_top);
            &&& final(tasks)@ == v.bootstrapped().0
            &&& r.1 == v.bootstrapped().1
        }),
{
    proof {
        tasks.lemma_wf();
        let v = tasks@;
        lemma_added(v, v.new_entry("shell"@, kstack_top, false, 5, 2, None, None));
    }
    let spawn = task::spawn_kernel(tasks, "shell", 5, 2, entry, 0, kstack_top);
    let cap = Capability::new(SPAWN_AUTHORITY, ObjectKind::Task, CapRights::all());
    endow(tasks, spawn.id, cap);
    (spawn, task::bootstrap_first_task(tasks))
}

/// Self-test of the shell, which is exercised interactively: its report.
pub fn run_tests(console: &mut Console) -> (r: bool)
    ensures
        r,
        final(console)@ == old(console)@.sent(line("shell:self-test:ok"@)),
{
    serial::write_line(console, "shell:self-test:ok");
    true
}

// ---------------------------------------------------------------------------
// Laws
// ---------------------------------------------------------------------------

/// Erasing takes back what was typed.
pub proof fn law_erase_undoes_typing(line: Seq<u8>, b: u8, erase: u8)
    requires
        is_typed(line, b),
        is_erase(erase),
    ensures
        edited(edited(line, b), erase) == line,
{
    assert(line.push(b).drop_last() =~= line);
}

/// The line after several bytes were typed.
pub open spec fn edited_by(line: Seq<u8>, bytes: Seq<u8>) -> Seq<u8>
    decreases bytes.len(),
{
    if bytes.len() == 0 {
        line
    } else {
        edited(edited_by(line, bytes.drop_last()), bytes.last())
    }
}

/// Printable text that fits is in the line as it was typed.
pub proof fn law_line_is_what_was_typed(bytes: Seq<u8>)
    requires
        printable(bytes),
        bytes.len() <= LINE_MAX,
    ensures
        edited_by(Seq::empty(), bytes) == bytes,
    decreases bytes.len(),
{
    if bytes.len() > 0 {
        law_line_is_what_was_typed(bytes.drop_last());
        assert(bytes.drop_last().push(bytes.last()) =~= bytes);
    } else {
        assert(bytes =~= Seq::empty());
    }
}

/// Whatever is typed, the line stays within its bound and printable.
pub proof fn law_line_stays_bounded(line: Seq<u8>, b: u8)
    requires
        line.len() <= LINE_MAX,
        printable(line),
    ensures
        edited(line, b).len() <= LINE_MAX,
        printable(edited(line, b)),
{
}

/// A task that was just added and got a capability holds it in its first slot,
/// and nobody else's entry changed.
proof fn lemma_endowed(v: TasksView, e: task::EntryView, cap: Capability)
    requires
        v.wf(),
        e.id == v.next_id,
        e.cspace == Seq::new(64, |i: int| None::<Capability>),
    ensures
        endowed(v.added(e), e.id, cap).has(e.id),
        endowed(v.added(e), e.id, cap).entry(e.id).cspace == e.cspace.update(0, Some(cap)),
        forall|x: TaskId| #[trigger]
            v.has(x) ==> endowed(v.added(e), e.id, cap).has(x) && endowed(
                v.added(e),
                e.id,
                cap,
            ).entry(x) == v.entry(x),
{
    lemma_added(v, e);
    let n = v.entries.len() as int;
    let w = v.added(e);
    let u = endowed(w, e.id, cap);
    assert(task::entry_is(w.entries, n, e.id));
    assert forall|i: int| #[trigger] task::entry_is(w.entries, i, e.id) implies i == n by {
        if i < n {
            assert(v.entries[i].id < v.next_id);
        }
    }
    assert(task::entry_is(w.entries, task::place(w.entries, e.id), e.id));
    assert(u.entries =~= v.entries.push(u.entries[n]));
    assert forall|i: int, j: int| 0 <= i < j < u.entries.len() implies (#[trigger] u.entries[i]).id
        != (#[trigger] u.entries[j]).id by {
        assert(v.entries[i].id < v.next_id);
    }
    assert(task::entry_is(u.entries, n, e.id));
    task::lemma_place(u.entries, n, e.id);
    assert forall|x: TaskId| #[trigger] v.has(x) implies u.has(x) && u.entry(x) == v.entry(x) by {
        let p = task::place(v.entries, x);
        assert(task::entry_is(v.entries, p, x));
        assert(task::entry_is(u.entries, p, x));
        task::lemma_place(u.entries, p, x);
    }
}

/// The shell holds the spawn authority, and with it may spawn tasks.
pub proof fn law_shell_may_spawn(v: KernelView, kstack_top: u64)
    requires
        v.tasks.wf(),
        v.tasks.has_room(),
    ensures
        (KernelView { tasks: shell_added(v.tasks, kstack_top), ..v }).can_spawn(v.tasks.next_id),
{
    let e = v.tasks.new_entry("shell"@, kstack_top, false, 5, 2, None, None);
    lemma_endowed(v.tasks, e, authority());
    let w = KernelView { tasks: shell_added(v.tasks, kstack_top), ..v };
    let space = w.tasks.entry(v.tasks.next_id).cspace;
    CapRights::lemma_mask(caps::ALL_BITS);
    assert(7u8 & 4u8 == 4u8) by (bit_vector);
    assert(caps::held(space, 0));
    assert(syscall::spawn_cap(space[0]->0));
}

/// The two tasks of the IPC demo can use the same new channel, through the
/// slot that is their argument.
pub proof fn law_demo_tasks_share_a_channel(
    v: KernelView,
    server: Loaded,
    client: Loaded,
    server_top: u64,
    client_top: u64,
)
    requires
        v.tasks.wf(),
        v.objects.len() < u32::MAX,
        v.channels.len() < 65536,
        v.tasks.has_room(),
    ensures
        ({
            let (w, s, c) = demo_started(v, Ok(server), Ok(client), server_top, client_top);
            let slot = syscall::slot_named(1);
            &&& s matches Some(a) && a.frame.rdi == 1 && w.resolve(a.id, slot) == Some(
                v.channels.len() as u16,
            )
            &&& c matches Some(b) && b.frame.rdi == 1 && w.resolve(b.id, slot) == Some(
                v.channels.len() as u16,
            )
            &&& w.channels[v.channels.len() as int].queue.len() == 0
        }),
{
    let (u, cap) = v.channel_created();
    let (t1, s) = spawned_with_cap(u.tasks, Ok(server), cap, 1, server_top);
    let e1 = u.tasks.new_entry(server.name@, server_top, true, 4, 1, None, Some(server.name@));
    lemma_endowed(u.tasks, e1, cap);
    task::lemma_added(u.tasks, e1);
    let added = u.tasks.added(e1);
    lemma_added(u.tasks, e1);
    task::lemma_with_entry(
        added,
        e1.id,
        task::EntryView { cspace: e1.cspace.update(0, Some(cap)), ..e1 },
    );
    let e2 = t1.new_entry(client.name@, client_top, true, 4, 1, None, Some(client.name@));
    lemma_endowed(t1, e2, cap);
    CapRights::lemma_mask(caps::ALL_BITS);
    assert(7u8 & 4u8 == 4u8) by (bit_vector);
    let (w, a, b) = demo_started(v, Ok(server), Ok(client), server_top, client_top);
    assert(registry::object(w.objects, cap.object) == Some(
        KernelObject::Channel(v.channels.len() as u16),
    ));
    assert(t1.has(a->0.id));
    assert(w.tasks.has(a->0.id));
    assert(caps::held(w.tasks.entry(a->0.id).cspace, 0));
    assert(caps::held(w.tasks.entry(b->0.id).cspace, 0));
}

} // verus!
