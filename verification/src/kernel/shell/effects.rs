//! What the shell makes of keys and commands.

use vstd::prelude::*;
use crate::caps::{CapRights, Capability};
use crate::kernel::memory::frames::FramesView;
use crate::kernel::shell;
use crate::kernel::shell::{Action, Step, Verb};
use crate::kernel::task;
use crate::kernel::task::{Loaded, Spawn, TasksView};
use crate::kernel::KernelView;
use crate::mem;
use crate::sched::TaskState;
use crate::text;

verus! {

/// What a key does to the line and to the screen: a printable character is
/// appended and shown while the line has room for it; an erase takes the last
/// one off and blanks it; the end of the line empties it and starts a new one;
/// any other key does nothing.
pub proof fn law_keys(line: Seq<u8>, b: u8)
    ensures
        32 <= b <= 126 && line.len() < 256 ==> shell::edited(line, b) == line.push(b)
            && shell::echoed(line, b) == seq![b],
        32 <= b <= 126 && line.len() >= 256 ==> shell::edited(line, b) == line && shell::echoed(
            line,
            b,
        ).len() == 0,
        (b == 8 || b == 127) && line.len() > 0 ==> shell::edited(line, b) == line.take(
            line.len() - 1,
        ) && shell::echoed(line, b) == seq![8u8, 32u8, 8u8],
        (b == 8 || b == 127) && line.len() == 0 ==> shell::edited(line, b) == line && shell::echoed(
            line,
            b,
        ).len() == 0,
        b == 10 || b == 13 ==> shell::edited(line, b).len() == 0 && shell::echoed(line, b)
            == seq![13u8, 10u8],
        (b < 32 || b > 127) && b != 8 && b != 10 && b != 13 ==> shell::edited(line, b) == line
            && shell::echoed(line, b).len() == 0,
        shell::is_enter(b) <==> b == 10 || b == 13,
{
}

// ---------------------------------------------------------------------------
// Words
// ---------------------------------------------------------------------------

/// The bytes are all spaces.
pub open spec fn blank(s: Seq<u8>) -> bool {
    forall|i: int| 0 <= i < s.len() ==> #[trigger] s[i] == 32
}

/// No byte is a space.
pub open spec fn solid(s: Seq<u8>) -> bool {
    forall|i: int| 0 <= i < s.len() ==> #[trigger] s[i] != 32
}

proof fn lemma_margin_of(a: Seq<u8>, x: Seq<u8>)
    requires
        blank(a),
        x.len() == 0 || x[0] != 32,
    ensures
        shell::margin(a + x) == a.len(),
    decreases a.len(),
{
    if a.len() == 0 {
        assert(a + x =~= x);
    } else {
        let less = a.skip(1);
        assert forall|i: int| 0 <= i < less.len() implies #[trigger] less[i] == 32 by {
            assert(less[i] == a[i + 1]);
        }
        lemma_margin_of(less, x);
        assert((a + x).skip(1) =~= less + x);
        assert((a + x)[0] == a[0]);
    }
}

proof fn lemma_word_of(w: Seq<u8>, y: Seq<u8>)
    requires
        solid(w),
        y.len() == 0 || y[0] == 32,
    ensures
        shell::word_len(w + y) == w.len(),
    decreases w.len(),
{
    if w.len() == 0 {
        assert(w + y =~= y);
    } else {
        let less = w.skip(1);
        assert forall|i: int| 0 <= i < less.len() implies #[trigger] less[i] != 32 by {
            assert(less[i] == w[i + 1]);
        }
        lemma_word_of(less, y);
        assert((w + y).skip(1) =~= less + y);
        assert((w + y)[0] == w[0]);
    }
}

proof fn lemma_trim_start_of(a: Seq<u8>, x: Seq<u8>)
    requires
        blank(a),
        x.len() == 0 || x[0] != 32,
    ensures
        shell::trim_start(a + x) == x,
{
    lemma_margin_of(a, x);
    assert((a + x).skip(a.len() as int) =~= x);
}

/// How a command is taken apart: into its first word and what follows, from the
/// next word on to its end, whatever spaces stand before and between.
pub proof fn law_words(a: Seq<u8>, w: Seq<u8>, b: Seq<u8>, t: Seq<u8>)
    requires
        blank(a),
        solid(w),
        w.len() > 0,
        blank(b),
        t.len() == 0 || (t[0] != 32 && b.len() > 0),
    ensures
        shell::first_word(a + (w + (b + t))) == w,
        shell::after_word(a + (w + (b + t))) == t,
{
    let x = w + (b + t);
    assert(x[0] == w[0]);
    lemma_trim_start_of(a, x);
    assert((b + t).len() == 0 || (b + t)[0] == 32);
    lemma_word_of(w, b + t);
    assert(x.take(w.len() as int) =~= w);
    assert(x.skip(w.len() as int) =~= b + t);
    lemma_trim_start_of(b, t);
}

/// A line of spaces has no word.
pub proof fn law_blank_line_has_no_word(a: Seq<u8>)
    requires
        blank(a),
    ensures
        shell::first_word(a).len() == 0,
        shell::trim(a).len() == 0,
{
    let none = Seq::<u8>::empty();
    lemma_trim_start_of(a, none);
    assert(a + none =~= a);
    assert(shell::word_len(none) == 0);
    assert(shell::trim_end(none) == none);
}

proof fn lemma_trim_end_of(m: Seq<u8>, b: Seq<u8>)
    requires
        blank(b),
        m.len() == 0 || m.last() != 32,
    ensures
        shell::trim_end(m + b) == m,
    decreases b.len(),
{
    if b.len() == 0 {
        assert(m + b =~= m);
    } else {
        let less = b.drop_last();
        assert forall|i: int| 0 <= i < less.len() implies #[trigger] less[i] == 32 by {
            assert(less[i] == b[i]);
        }
        lemma_trim_end_of(m, less);
        assert((m + b).drop_last() =~= m + less);
        assert((m + b).last() == b[b.len() - 1]);
    }
}

/// Trimming takes off the spaces at both ends and nothing else.
pub proof fn law_trimming(a: Seq<u8>, m: Seq<u8>, b: Seq<u8>)
    requires
        blank(a),
        blank(b),
        m.len() > 0,
        m[0] != 32,
        m.last() != 32,
    ensures
        shell::trim(a + (m + b)) == m,
{
    assert((m + b)[0] == m[0]);
    lemma_trim_start_of(a, m + b);
    lemma_trim_end_of(m, b);
}

// ---------------------------------------------------------------------------
// Commands
// ---------------------------------------------------------------------------

/// The bytes of a text.
pub open spec fn spelled(s: Seq<char>) -> Seq<u8> {
    vstd::utf8::encode_utf8(s)
}

proof fn lemma_names_differ()
    ensures
        shell::verb(spelled("help"@)) == Verb::Help,
        shell::verb(spelled("info"@)) == Verb::Info,
        shell::verb(spelled("ps"@)) == Verb::Ps,
        shell::verb(spelled("sched"@)) == Verb::Sched,
        shell::verb(spelled("crash"@)) == Verb::Crash,
        shell::verb(spelled("fault"@)) == Verb::Crash,
        shell::verb(spelled("spawn"@)) == Verb::Spawn,
        shell::verb(spelled("ipcdemo"@)) == Verb::IpcDemo,
        shell::verb(spelled("echo"@)) == Verb::Echo,
        shell::verb(spelled("exit"@)) == Verb::Exit,
{
    reveal_strlit("help");
    reveal_strlit("info");
    reveal_strlit("ps");
    reveal_strlit("sched");
    reveal_strlit("crash");
    reveal_strlit("fault");
    reveal_strlit("spawn");
    reveal_strlit("ipcdemo");
    reveal_strlit("echo");
    reveal_strlit("exit");
    let none = Seq::<char>::empty();
    vstd::utf8::encode_utf8_decode_utf8(none);
    vstd::utf8::encode_utf8_decode_utf8("help"@);
    vstd::utf8::encode_utf8_decode_utf8("info"@);
    vstd::utf8::encode_utf8_decode_utf8("ps"@);
    vstd::utf8::encode_utf8_decode_utf8("sched"@);
    vstd::utf8::encode_utf8_decode_utf8("crash"@);
    vstd::utf8::encode_utf8_decode_utf8("fault"@);
    vstd::utf8::encode_utf8_decode_utf8("spawn"@);
    vstd::utf8::encode_utf8_decode_utf8("ipcdemo"@);
    vstd::utf8::encode_utf8_decode_utf8("echo"@);
    vstd::utf8::encode_utf8_decode_utf8("exit"@);
    assert(spelled(none) =~= Seq::<u8>::empty());
    assert forall|b: Seq<u8>| b.len() == 0 implies #[trigger] b.len() == 0 && b == spelled(none) by {
        assert(b =~= Seq::<u8>::empty());
    }
    assert("help"@[0] == 'h' && "info"@[0] == 'i' && "ps"@[0] == 'p' && "sched"@[0] == 's');
    assert("crash"@[0] == 'c' && "fault"@[0] == 'f' && "spawn"@[0] == 's');
    assert("ipcdemo"@[0] == 'i' && "echo"@[0] == 'e' && "exit"@[0] == 'e');
    assert("info"@[1] == 'n' && "ipcdemo"@[1] == 'p' && "sched"@[1] == 'c' && "spawn"@[1] == 'p');
    assert("echo"@[1] == 'c' && "exit"@[1] == 'x');
}

/// What the commands print and what is left to do for them, by their first
/// word.
pub proof fn law_commands(v: TasksView, f: FramesView, cmd: Seq<u8>, a: Action)
    requires
        shell::calls_for(cmd, a),
    ensures
        ({
            let name = shell::first_word(cmd);
            let tail = shell::after_word(cmd);
            let prog = shell::first_word(tail);
            let out = shell::output(v, f, cmd);
            let end = seq![13u8, 10u8];
            &&& name.len() == 0 ==> out.len() == 0 && a is Prompt
            &&& name == spelled("echo"@) ==> out == tail + end && a is Prompt
            &&& name == spelled("exit"@) ==> a == Action::Exit(0x10) && out == spelled(
                "shutting down"@,
            ) + end
            &&& name == spelled("crash"@) || name == spelled("fault"@) ==> a is Crash && out
                == spelled("triggering a page fault at 0x0..."@) + end
            &&& name == spelled("ipcdemo"@) ==> a is IpcDemo && out.len() == 0
            &&& name == spelled("spawn"@) && prog.len() > 0 ==> a is Spawn && a->Spawn_0@ == prog
                && out.len() == 0
            &&& name == spelled("spawn"@) && prog.len() == 0 ==> a is Prompt && out == spelled(
                "usage: spawn <hello|counter|deadline>"@,
            ) + end
            &&& name == spelled("ps"@) ==> a is Prompt && out == crate::kernel::serial::joined(
                task::listing(v),
            )
            &&& name == spelled("info"@) && v.sched is Some ==> a is Prompt && out
                == crate::kernel::serial::joined(shell::info_lines(f, v.sched->0.ticks))
            &&& name == spelled("help"@) ==> a is Prompt && out == crate::kernel::serial::joined(
                shell::help_lines(),
            )
            &&& name == spelled("sched"@) ==> a is Prompt && out == spelled(shell::sched_line())
                + end
            &&& name.len() > 0 && shell::verb(name) == Verb::Unknown ==> a is Prompt && out
                == spelled("unknown command: "@) + name + (spelled(" (try `help`)"@) + end)
        }),
{
    lemma_names_differ();
}

/// A word is unknown exactly if it is none of the commands.
pub proof fn law_unknown_commands(name: Seq<u8>)
    ensures
        shell::verb(name) == Verb::Unknown <==> name.len() > 0 && name != spelled("help"@) && name
            != spelled("info"@) && name != spelled("ps"@) && name != spelled("sched"@) && name
            != spelled("crash"@) && name != spelled("fault"@) && name != spelled("spawn"@) && name
            != spelled("ipcdemo"@) && name != spelled("echo"@) && name != spelled("exit"@),
{
    lemma_names_differ();
}

/// What `info` says: the usable memory in whole MiB, the number of free frames
/// and the uptime.
pub proof fn law_info(f: FramesView, now: u64)
    requires
        f.map is Some,
    ensures
        ({
            let r = shell::info_lines(f, now);
            &&& r.len() == 2
            &&& r[0] == "kairos v0.1.0  kernel heap: "@ + text::decimal(64) + " MiB  memory: "@
                + text::decimal((f.usable / 1_048_576) as nat) + " MiB usable, "@ + text::decimal(
                mem::count_free(f.map->0.used),
            ) + " frames free"@
            &&& r[1] == "uptime: "@ + text::decimal(now as nat) + " ms"@
        }),
{
}

/// What is said of a spawn: the program and the id of its task, or that it
/// failed.
pub proof fn law_spawn_is_reported(prog: Seq<u8>, s: Spawn)
    ensures
        shell::spawn_line(prog, Ok(s)) == spelled("spawned "@) + prog + spelled(" as task "@) + (
        spelled(text::decimal(s.id as nat)) + seq![13u8, 10u8]),
        shell::spawn_line(prog, Err(())) == spelled("spawn failed: unknown program"@) + seq![
            13u8,
            10u8,
        ],
{
}

/// The shell is a kernel task of priority 5 and weight 2 that is ready to run,
/// and its first slot holds the spawn authority, object 1, with all rights; all
/// its other slots are empty.
pub proof fn law_shell_task(v: TasksView, top: u64)
    requires
        v.wf(),
        v.has_room(),
    ensures
        ({
            let w = shell::shell_added(v, top);
            let e = w.entry(v.next_id);
            let r = w.sched->0.rec(v.next_id);
            &&& w.has(v.next_id)
            &&& e.name == "shell"@ && !e.is_user && e.kstack_top == top
            &&& e.cspace.len() == 64
            &&& e.cspace[0] is Some && e.cspace[0]->0.object == 1 && e.cspace[0]->0.rights@ == 7
            &&& forall|k: int| 1 <= k < 64 ==> (#[trigger] e.cspace[k]) is None
            &&& w.sched->0.known(v.next_id) && r.priority == 5 && r.weight == 2
            &&& r.deadline is None && r.state == TaskState::Ready
        }),
{
    let e = v.new_entry("shell"@, top, false, 5, 2, None, None);
    shell::lemma_endowed(v, e, shell::authority());
    CapRights::lemma_mask(crate::caps::ALL_BITS);
    task::laws::law_added_task_is_ready(v, e);
    crate::sched::effects::law_registered_record(v.sched->0, e.id, 5, 2, None);
    let w = v.added(e);
    task::lemma_added(v, e);
    task::lemma_with_entry(
        w,
        e.id,
        task::EntryView { cspace: e.cspace.update(0, Some(shell::authority())), ..e },
    );
}

/// A task that could not be loaded gets no capability, and there is no task.
pub proof fn law_failed_demo(v: KernelView, client: Result<Loaded, ()>, a: u64, b: u64)
    ensures
        ({
            let (w, s, c) = shell::demo_started(v, Err(()), client, a, b);
            &&& s is None
            &&& client is Err ==> c is None && w.tasks == v.tasks
        }),
{
}

/// A line that is ended is run as a command, with the spaces around it taken
/// off: all that was typed between them, in order. An empty line is none, and
/// no other key runs anything.
pub proof fn law_enter_runs_the_line(a: Seq<u8>, m: Seq<u8>, c: Seq<u8>, b: u8, r: Step)
    requires
        shell::steps(a + (m + c), b, r),
        blank(a),
        blank(c),
        m.len() > 0 ==> m[0] != 32 && m.last() != 32,
        m.len() == 0 ==> a.len() == 0 && c.len() == 0,
    ensures
        b != 10 && b != 13 ==> r is Typed,
        b == 10 || b == 13 ==> r is Enter,
        r is Enter && m.len() == 0 ==> r->Enter_0 is None,
        r is Enter && m.len() > 0 ==> r->Enter_0 is Some && r->Enter_0->0@ == m,
{
    if m.len() > 0 {
        law_trimming(a, m, c);
    }
}

/// What `sched` says: the policy, the quantum and whether the realtime demo is
/// on.
pub proof fn law_sched_line()
    ensures
        shell::sched_line() == "policy: "@ + crate::kernel::boot::policy_text(
            crate::config::SCHED_POLICY,
        ) + "   quantum: "@ + text::decimal(crate::config::QUANTUM_MS as nat)
            + " ms   realtime demo: "@ + text::truth(crate::config::REALTIME_DEMO),
{
}

/// What the IPC demo says: the ids of the two tasks and the channel, or that it
/// failed, if one of them could not be spawned.
pub proof fn law_demo_is_reported(s: Spawn, c: Spawn, channel: u16)
    ensures
        shell::demo_line(Some(s), Some(c), channel) == "ipcdemo: server="@ + text::decimal(
            s.id as nat,
        ) + " client="@ + text::decimal(c.id as nat) + " on channel "@ + text::decimal(
            channel as nat,
        ),
        shell::demo_line(None, Some(c), channel) == "ipcdemo: spawn failed"@,
        shell::demo_line(Some(s), None, channel) == "ipcdemo: spawn failed"@,
        shell::demo_line(None, None, channel) == "ipcdemo: spawn failed"@,
{
}

/// A task of the IPC demo is a user task that starts with the argument, and its
/// first slot holds the capability; all its other slots are empty. Nobody else's
/// entry changes.
pub proof fn law_task_with_capability(v: TasksView, l: Loaded, cap: Capability, arg: u64, top: u64)
    requires
        v.wf(),
        v.has_room(),
        top >= 176,
    ensures
        ({
            let (w, s) = shell::spawned_with_cap(v, Ok(l), cap, arg, top);
            let space = w.entry(v.next_id).cspace;
            &&& s is Some && s->0.id == v.next_id && s->0.frame.rdi == arg
            &&& s->0.frame.rip == l.entry
            &&& w.has(v.next_id)
            &&& space.len() == 64 && space[0] == Some(cap)
            &&& forall|k: int| 1 <= k < 64 ==> (#[trigger] space[k]) is None
            &&& forall|x: crate::sched::TaskId| #[trigger]
                v.has(x) ==> w.has(x) && w.entry(x) == v.entry(x)
            &&& shell::spawned_with_cap(v, Err(()), cap, arg, top) == (v, None::<Spawn>)
        }),
{
    let e = v.new_entry(l.name@, top, true, 4, 1, None, Some(l.name@));
    shell::lemma_endowed(v, e, cap);
    task::effects::law_spawned_user_task(v, Ok(l), 4, 1, None, arg, top);
}

} // verus!
